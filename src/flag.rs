//! Flag types, flag values and flag declarations.
use vstd::prelude::*;
use crate::text::{int_of_text, read_int, same_text};

verus! {

/// The kinds of value a flag can hold.
#[derive(PartialEq, Eq, Structural, PartialOrd, Clone, Copy, Debug)]
pub enum FlagType {
    Bool,
    String,
    Int,
    Float,
}

/// A flag value. A float is held as the bits of its IEEE-754 binary64
/// representation. `Absent` stands for the absence of any value.
#[derive(Clone, Debug)]
pub enum FlagValue {
    Bool(bool),
    String(String),
    Int(isize),
    Float(u64),
    Absent,
}

/// What a flag value is, with its text as a sequence of characters.
pub enum ValueView {
    Bool(bool),
    Text(Seq<char>),
    Int(isize),
    Float(u64),
    Absent,
}

impl ValueView {
    /// The flag type whose values carry this tag; none for an absent value.
    pub open spec fn kind(self) -> Option<FlagType> {
        match self {
            ValueView::Bool(_) => Some(FlagType::Bool),
            ValueView::Text(_) => Some(FlagType::String),
            ValueView::Int(_) => Some(FlagType::Int),
            ValueView::Float(_) => Some(FlagType::Float),
            ValueView::Absent => None,
        }
    }
}

impl View for FlagValue {
    type V = ValueView;

    open spec fn view(&self) -> ValueView {
        match self {
            FlagValue::Bool(b) => ValueView::Bool(*b),
            FlagValue::String(s) => ValueView::Text(s@),
            FlagValue::Int(i) => ValueView::Int(*i),
            FlagValue::Float(f) => ValueView::Float(*f),
            FlagValue::Absent => ValueView::Absent,
        }
    }
}

impl FlagType {
    pub open spec fn spec_name(self) -> Seq<char> {
        match self {
            FlagType::Bool => "Bool"@,
            FlagType::String => "String"@,
            FlagType::Int => "Int"@,
            FlagType::Float => "Float"@,
        }
    }

    /// The zero value of the kind: false, empty text, 0 or 0.0.
    pub open spec fn zero(self) -> ValueView {
        match self {
            FlagType::Bool => ValueView::Bool(false),
            FlagType::String => ValueView::Text(Seq::empty()),
            FlagType::Int => ValueView::Int(0),
            FlagType::Float => ValueView::Float(0),
        }
    }

    /// The value that `raw` denotes for this kind, if any. `float_reading` is
    /// the binary64 reading of `raw` as a float literal, where it is one.
    pub open spec fn reads(self, raw: Seq<char>, float_reading: Option<u64>) -> Option<ValueView> {
        match self {
            FlagType::Bool => if raw == "true"@ {
                Some(ValueView::Bool(true))
            } else if raw == "false"@ {
                Some(ValueView::Bool(false))
            } else {
                None
            },
            FlagType::String => Some(ValueView::Text(raw)),
            FlagType::Int => match int_of_text(raw) {
                Some(i) => Some(ValueView::Int(i)),
                None => None,
            },
            FlagType::Float => match float_reading {
                Some(f) => Some(ValueView::Float(f)),
                None => None,
            },
        }
    }

    pub fn name<'a>(&self) -> (r: &'a str)
        ensures
            r@ == self.spec_name(),
    {
        match self {
            FlagType::Bool => "Bool",
            FlagType::String => "String",
            FlagType::Int => "Int",
            FlagType::Float => "Float",
        }
    }

    pub fn type_default(&self) -> (r: FlagValue)
        ensures
            r@ == self.zero(),
    {
        match self {
            FlagType::Bool => FlagValue::Bool(false),
            FlagType::String => FlagValue::String(String::new()),
            FlagType::Int => FlagValue::Int(0),
            FlagType::Float => FlagValue::Float(0),
        }
    }

    pub fn is_type_of(&self, val: &FlagValue) -> (r: bool)
        ensures
            r == (val@.kind() == Some(*self)),
    {
        match val.get_type() {
            Some(t) => t == *self,
            None => false,
        }
    }

    /// Converts `raw` into a value of this kind; `None` where it denotes none.
    /// `float_reading` is what `raw` reads as a binary64 float literal, if it
    /// is one; only the Float kind consults it.
    pub fn parse_from_text(&self, raw: &str, float_reading: Option<u64>) -> (r: Option<FlagValue>)
        ensures
            r matches Some(v) ==> self.reads(raw@, float_reading) == Some(v@),
            r is None ==> self.reads(raw@, float_reading) is None,
    {
        match self {
            FlagType::Bool => {
                if same_text(raw, "true") {
                    Some(FlagValue::Bool(true))
                } else if same_text(raw, "false") {
                    Some(FlagValue::Bool(false))
                } else {
                    None
                }
            },
            FlagType::String => Some(FlagValue::String(raw.to_owned())),
            FlagType::Int => match read_int(raw) {
                Some(i) => Some(FlagValue::Int(i)),
                None => None,
            },
            FlagType::Float => match float_reading {
                Some(f) => Some(FlagValue::Float(f)),
                None => None,
            },
        }
    }

    /// As `parse_from_text`, with `FlagValue::Absent` for a text that denotes
    /// no value of this kind.
    #[allow(non_snake_case)]
    pub fn getValueFromString(&self, val: &str, float_reading: Option<u64>) -> (r: FlagValue)
        ensures
            r@ == match self.reads(val@, float_reading) {
                Some(v) => v,
                None => ValueView::Absent,
            },
    {
        match self.parse_from_text(val, float_reading) {
            Some(v) => v,
            None => FlagValue::Absent,
        }
    }
}

impl Default for FlagType {
    fn default() -> (r: Self)
        ensures
            r == FlagType::String,
    {
        FlagType::String
    }
}

impl Default for FlagValue {
    fn default() -> (r: Self)
        ensures
            r@ == ValueView::Absent,
    {
        FlagValue::Absent
    }
}

impl PartialEq for FlagValue {
    fn eq(&self, other: &FlagValue) -> (r: bool)
        ensures
            r == (self@ == other@),
    {
        match (self, other) {
            (FlagValue::Bool(a), FlagValue::Bool(b)) => *a == *b,
            (FlagValue::String(a), FlagValue::String(b)) => *a == *b,
            (FlagValue::Int(a), FlagValue::Int(b)) => *a == *b,
            (FlagValue::Float(a), FlagValue::Float(b)) => *a == *b,
            (FlagValue::Absent, FlagValue::Absent) => true,
            _ => false,
        }
    }
}

impl vstd::std_specs::cmp::PartialEqSpecImpl for FlagValue {
    open spec fn obeys_eq_spec() -> bool {
        true
    }

    open spec fn eq_spec(&self, other: &FlagValue) -> bool {
        self@ == other@
    }
}

impl FlagValue {
    pub fn get_type(&self) -> (r: Option<FlagType>)
        ensures
            r == self@.kind(),
    {
        match self {
            FlagValue::Bool(_) => Some(FlagType::Bool),
            FlagValue::String(_) => Some(FlagType::String),
            FlagValue::Int(_) => Some(FlagType::Int),
            FlagValue::Float(_) => Some(FlagType::Float),
            FlagValue::Absent => None,
        }
    }

    pub fn is_type(&self, flag_type: &FlagType) -> (r: bool)
        ensures
            r == (self@.kind() == Some(*flag_type)),
    {
        match self.get_type() {
            Some(t) => t == *flag_type,
            None => false,
        }
    }

    /// A copy of this value.
    pub fn duplicate(&self) -> (r: FlagValue)
        ensures
            r@ == self@,
    {
        match self {
            FlagValue::Bool(b) => FlagValue::Bool(*b),
            FlagValue::String(s) => FlagValue::String(s.clone()),
            FlagValue::Int(i) => FlagValue::Int(*i),
            FlagValue::Float(f) => FlagValue::Float(*f),
            FlagValue::Absent => FlagValue::Absent,
        }
    }
}

/// The texts of a list of strings.
pub open spec fn texts(v: Seq<String>) -> Seq<Seq<char>> {
    v.map_values(|s: String| s@)
}

/// Whether one of `v` holds the characters of `t`.
pub fn holds_text(v: &Vec<String>, t: &str) -> (r: bool)
    ensures
        r == texts(v@).contains(t@),
{
    let mut i: usize = 0;
    while i < v.len()
        invariant
            i <= v@.len(),
            forall|j: int| 0 <= j < i ==> v@[j]@ != t@,
        decreases v.len() - i,
    {
        if same_text(v[i].as_str(), t) {
            assert(texts(v@)[i as int] == t@);
            return true;
        }
        i = i + 1;
    }
    assert(!texts(v@).contains(t@)) by {
        if texts(v@).contains(t@) {
            let j = choose|j: int| 0 <= j < texts(v@).len() && texts(v@)[j] == t@;
            assert(v@[j]@ == t@);
        }
    }
    false
}

/// A named, typed command-line option with its aliases and default value.
#[derive(Clone, Debug)]
pub struct Flag {
    pub name: String,
    pub usage: String,
    pub short_alias: Vec<String>,
    pub long_alias: Vec<String>,
    pub default_value: FlagValue,
    pub flag_type: FlagType,
}

/// The default value that a flag of type `t` declared with default `v` gets:
/// `v` where it is of type `t`, else the zero value of `t`.
pub open spec fn chosen_default(t: FlagType, v: ValueView) -> ValueView {
    if v.kind() == Some(t) {
        v
    } else {
        t.zero()
    }
}

impl Flag {
    /// The default value carries the declared type.
    pub open spec fn wf(self) -> bool {
        self.default_value@.kind() == Some(self.flag_type)
    }

    pub open spec fn shorts(self) -> Seq<Seq<char>> {
        texts(self.short_alias@)
    }

    pub open spec fn longs(self) -> Seq<Seq<char>> {
        texts(self.long_alias@)
    }

    /// The two flags agree in everything but their short aliases.
    pub open spec fn same_but_shorts(self, other: Flag) -> bool {
        self.name@ == other.name@ && self.usage@ == other.usage@ && self.longs() == other.longs()
            && self.default_value@ == other.default_value@ && self.flag_type == other.flag_type
    }

    pub fn new(name: &str, usage: &str, flag_type: FlagType) -> (r: Flag)
        ensures
            r.name@ == name@,
            r.usage@ == usage@,
            r.shorts().len() == 0,
            r.longs().len() == 0,
            r.flag_type == flag_type,
            r.default_value@ == flag_type.zero(),
            r.wf(),
    {
        Flag {
            name: name.to_owned(),
            usage: usage.to_owned(),
            short_alias: Vec::new(),
            long_alias: Vec::new(),
            flag_type,
            default_value: flag_type.type_default(),
        }
    }

    /// Builds a flag; a default value of another type than `flag_type` is
    /// replaced by the zero value of `flag_type`.
    pub fn build_new(
        name: String,
        usage: String,
        short_alias: Vec<String>,
        long_alias: Vec<String>,
        flag_type: FlagType,
        default_value: FlagValue,
    ) -> (r: Flag)
        ensures
            r.name@ == name@,
            r.usage@ == usage@,
            r.short_alias@ == short_alias@,
            r.long_alias@ == long_alias@,
            r.flag_type == flag_type,
            r.default_value@ == chosen_default(flag_type, default_value@),
            r.wf(),
    {
        let calculated_default_value = if default_value.is_type(&flag_type) {
            default_value
        } else {
            flag_type.type_default()
        };
        Flag {
            name,
            usage,
            short_alias,
            long_alias,
            flag_type,
            default_value: calculated_default_value,
        }
    }

    /// Adds a short alias, unless the flag already has it.
    pub fn short(self, a: &str) -> (r: Self)
        ensures
            r.shorts() == if self.shorts().contains(a@) {
                self.shorts()
            } else {
                self.shorts().push(a@)
            },
            r.same_but_shorts(self),
    {
        if self.is_short(a) {
            return self;
        }
        let mut f = self;
        f.short_alias.push(a.to_owned());
        assert(texts(f.short_alias@) =~= texts(self.short_alias@).push(a@));
        f
    }

    /// Adds a long alias, unless the flag already has it.
    pub fn alias(self, a: &str) -> (r: Self)
        ensures
            r.longs() == if self.longs().contains(a@) {
                self.longs()
            } else {
                self.longs().push(a@)
            },
            r.shorts() == self.shorts(),
            r.name@ == self.name@,
            r.usage@ == self.usage@,
            r.default_value@ == self.default_value@,
            r.flag_type == self.flag_type,
    {
        if self.is_long(a) {
            return self;
        }
        let mut f = self;
        f.long_alias.push(a.to_owned());
        assert(texts(f.long_alias@) =~= texts(self.long_alias@).push(a@));
        f
    }

    /// Replaces the default value, unless `default_value` is of another type
    /// than the flag's, in which case the flag is returned unchanged.
    pub fn default_value(self, default_value: FlagValue) -> (r: Self)
        ensures
            r.default_value@ == if default_value@.kind() == Some(self.flag_type) {
                default_value@
            } else {
                self.default_value@
            },
            r.shorts() == self.shorts(),
            r.longs() == self.longs(),
            r.name@ == self.name@,
            r.usage@ == self.usage@,
            r.flag_type == self.flag_type,
    {
        let mut f = self;
        if f.flag_type.is_type_of(&default_value) {
            f.default_value = default_value;
        }
        f
    }

    /// Replaces the help text.
    pub fn usage(self, usage: &str) -> (r: Self)
        ensures
            r.usage@ == usage@,
            r.shorts() == self.shorts(),
            r.longs() == self.longs(),
            r.name@ == self.name@,
            r.default_value@ == self.default_value@,
            r.flag_type == self.flag_type,
    {
        let mut f = self;
        f.usage = usage.to_owned();
        f
    }

    pub fn is(&self, name: &str) -> (r: bool)
        ensures
            r == (self.name@ == name@),
    {
        same_text(self.name.as_str(), name)
    }

    pub fn is_short(&self, alias: &str) -> (r: bool)
        ensures
            r == self.shorts().contains(alias@),
    {
        holds_text(&self.short_alias, alias)
    }

    pub fn is_long(&self, alias: &str) -> (r: bool)
        ensures
            r == self.longs().contains(alias@),
    {
        holds_text(&self.long_alias, alias)
    }
}

impl Default for Flag {
    fn default() -> (r: Flag)
        ensures
            r.name@.len() == 0,
            r.usage@.len() == 0,
            r.shorts().len() == 0,
            r.longs().len() == 0,
            r.flag_type == FlagType::String,
            r.default_value@ == ValueView::Text(Seq::empty()),
            r.wf(),
    {
        Flag {
            name: String::new(),
            usage: String::new(),
            short_alias: Vec::new(),
            long_alias: Vec::new(),
            flag_type: FlagType::String,
            default_value: FlagValue::String(String::new()),
        }
    }
}

} // verus!
