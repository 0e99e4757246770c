//! The command tree, and resolution of an argument vector against it.
use vstd::prelude::*;
use crate::flag::{texts, Flag, FlagType, FlagValue, ValueView};

verus! {

/// Identifies the handler that a command runs once it is resolved.
#[derive(PartialEq, Eq, Structural, Clone, Copy, Debug)]
pub struct Action {
    pub id: usize,
}

/// Why an argument vector could not be resolved. `index` is the position of
/// the flag token at fault.
#[derive(PartialEq, Eq, Structural, Clone, Copy, Debug)]
pub enum ResolveError {
    /// The value after a flag does not denote a value of the flag's type.
    ParseFailure { index: usize },
    /// A flag that takes a value is the last token.
    MissingValue { index: usize },
    /// A flag-shaped token names no flag visible from the current command.
    UnknownToken { index: usize },
    /// The resolved command has no action.
    NoActionBound,
}

/// A node of the command tree.
pub struct Command {
    pub name: String,
    pub flags: Vec<Flag>,
    pub children: Vec<Command>,
    pub action: Option<Action>,
}

/// The flag values and positional arguments handed to an action.
pub struct Context {
    pub values: Vec<(String, FlagValue)>,
    pub args: Vec<String>,
}

/// A resolved command line: the action to run and its context.
pub struct Invocation {
    pub action: Action,
    pub context: Context,
}

/// A list of bindings from flag names to values; a later one for the same
/// name overrides an earlier one.
pub type Bindings = Seq<(Seq<char>, ValueView)>;

pub open spec fn bindings_of(v: Seq<(String, FlagValue)>) -> Bindings {
    v.map_values(|p: (String, FlagValue)| (p.0@, p.1@))
}

/// The value bound last to `name`.
pub open spec fn lookup(b: Bindings, name: Seq<char>) -> Option<ValueView>
    decreases b.len(),
{
    if b.len() == 0 {
        None
    } else if b.last().0 == name {
        Some(b.last().1)
    } else {
        lookup(b.drop_last(), name)
    }
}

/// The bindings of each flag's name to its default value, in order.
pub open spec fn defaults(flags: Seq<Flag>) -> Bindings {
    flags.map_values(|f: Flag| (f.name@, f.default_value@))
}

/// The first index of `s` whose element satisfies `p`.
pub open spec fn first_index<A>(s: Seq<A>, p: spec_fn(A) -> bool) -> Option<int>
    decreases s.len(),
{
    if s.len() == 0 {
        None
    } else {
        match first_index(s.drop_last(), p) {
            Some(i) => Some(i),
            None => if p(s.last()) {
                Some(s.len() - 1)
            } else {
                None
            },
        }
    }
}

/// A match within a prefix is the first match of the whole sequence.
proof fn lemma_first_index_prefix<A>(s: Seq<A>, m: int, p: spec_fn(A) -> bool)
    requires
        0 <= m <= s.len(),
        first_index(s.subrange(0, m), p) is Some,
    ensures
        first_index(s, p) == first_index(s.subrange(0, m), p),
    decreases s.len(),
{
    if m == s.len() {
        assert(s.subrange(0, m) =~= s);
    } else {
        assert(s.drop_last().subrange(0, m) =~= s.subrange(0, m));
        lemma_first_index_prefix(s.drop_last(), m, p);
    }
}

/// One step of a first-match scan over a prefix.
proof fn lemma_first_index_step<A>(s: Seq<A>, i: int, p: spec_fn(A) -> bool)
    requires
        0 <= i < s.len(),
        first_index(s.subrange(0, i), p) is None,
    ensures
        first_index(s.subrange(0, i + 1), p) == if p(s[i]) {
            Some(i)
        } else {
            None::<int>
        },
{
    assert(s.subrange(0, i + 1).drop_last() =~= s.subrange(0, i));
}

/// The key of a long-form flag token `--key`.
pub open spec fn long_key(tok: Seq<char>) -> Option<Seq<char>> {
    if tok.len() > 2 && tok[0] == '-' && tok[1] == '-' {
        Some(tok.subrange(2, tok.len() as int))
    } else {
        None
    }
}

/// The key of a short-form flag token `-key`.
pub open spec fn short_key(tok: Seq<char>) -> Option<Seq<char>> {
    if tok.len() > 1 && tok[0] == '-' && tok[1] != '-' {
        Some(tok.subrange(1, tok.len() as int))
    } else {
        None
    }
}

pub open spec fn flag_shaped(tok: Seq<char>) -> bool {
    long_key(tok) is Some || short_key(tok) is Some
}

/// Whether the token names the flag: `--key` by its name or a long alias,
/// `-key` by a short alias.
pub open spec fn names_flag(f: Flag, tok: Seq<char>) -> bool {
    match long_key(tok) {
        Some(k) => f.name@ == k || f.longs().contains(k),
        None => match short_key(tok) {
            Some(k) => f.shorts().contains(k),
            None => false,
        },
    }
}

pub open spec fn find_flag(flags: Seq<Flag>, tok: Seq<char>) -> Option<int> {
    first_index(flags, |f: Flag| names_flag(f, tok))
}

pub open spec fn find_child(children: Seq<Command>, tok: Seq<char>) -> Option<int> {
    first_index(children, |c: Command| c.name@ == tok)
}

/// The flag that the token names, searched from the innermost command of the
/// path outwards, each command's flags in declaration order.
pub open spec fn flag_on_path(path: Seq<Command>, tok: Seq<char>) -> Option<Flag>
    decreases path.len(),
{
    if path.len() == 0 {
        None
    } else {
        match find_flag(path.last().flags@, tok) {
            Some(k) => Some(path.last().flags@[k]),
            None => flag_on_path(path.drop_last(), tok),
        }
    }
}

/// What a scan ends in: the path of commands from the root to the resolved
/// one, the bindings, and the positional arguments.
pub type ScanEnd = (Seq<Command>, Bindings, Seq<Seq<char>>);

/// The left-to-right scan of `toks` from position `i`, with `path` the
/// commands entered so far. A token that names a child of the current command
/// enters it and binds that child's defaults; a flag-shaped token binds the
/// flag it names, a Bool flag to the value that follows if that is `true` or
/// `false` and to true otherwise, any other flag to the value that follows;
/// any other token is positional.
pub open spec fn scan(
    path: Seq<Command>,
    binds: Bindings,
    pos: Seq<Seq<char>>,
    toks: Seq<Seq<char>>,
    floats: Seq<Option<u64>>,
    i: int,
) -> Result<ScanEnd, ResolveError>
    decreases toks.len() - i,
{
    if i < 0 || i >= toks.len() {
        Ok((path, binds, pos))
    } else {
        let tok = toks[i];
        match find_child(path.last().children@, tok) {
            Some(c) => {
                let child = path.last().children@[c];
                scan(path.push(child), binds + defaults(child.flags@), pos, toks, floats, i + 1)
            },
            None => if !flag_shaped(tok) {
                scan(path, binds, pos.push(tok), toks, floats, i + 1)
            } else {
                match flag_on_path(path, tok) {
                    None => Err(ResolveError::UnknownToken { index: i as usize }),
                    Some(f) => if f.flag_type == FlagType::Bool {
                        match if i + 1 < toks.len() {
                            FlagType::Bool.reads(toks[i + 1], floats[i + 1])
                        } else {
                            None
                        } {
                            Some(v) => scan(path, binds.push((f.name@, v)), pos, toks, floats, i + 2),
                            None => scan(
                                path,
                                binds.push((f.name@, ValueView::Bool(true))),
                                pos,
                                toks,
                                floats,
                                i + 1,
                            ),
                        }
                    } else if i + 1 >= toks.len() {
                        Err(ResolveError::MissingValue { index: i as usize })
                    } else {
                        match f.flag_type.reads(toks[i + 1], floats[i + 1]) {
                            None => Err(ResolveError::ParseFailure { index: i as usize }),
                            Some(v) => scan(path, binds.push((f.name@, v)), pos, toks, floats, i + 2),
                        }
                    }
                }
            },
        }
    }
}

/// The outcome of resolving `toks` against the tree under `root`: the action
/// of the resolved command, the bindings and the positional arguments.
pub open spec fn resolution(root: Command, toks: Seq<Seq<char>>, floats: Seq<Option<u64>>) -> Result<
    (Action, Bindings, Seq<Seq<char>>),
    ResolveError,
> {
    match scan(seq![root], defaults(root.flags@), Seq::empty(), toks, floats, 0) {
        Ok((path, b, p)) => match path.last().action {
            Some(a) => Ok((a, b, p)),
            None => Err(ResolveError::NoActionBound),
        },
        Err(e) => Err(e),
    }
}

impl Context {
    pub open spec fn bindings(self) -> Bindings {
        bindings_of(self.values@)
    }

    pub open spec fn positionals(self) -> Seq<Seq<char>> {
        texts(self.args@)
    }

    /// The value bound to the flag called `name`.
    pub fn get(&self, name: &str) -> (r: Option<&FlagValue>)
        ensures
            r matches Some(v) ==> lookup(self.bindings(), name@) == Some(v@),
            r is None ==> lookup(self.bindings(), name@) is None,
    {
        let mut j = self.values.len();
        assert(self.values@.subrange(0, j as int) =~= self.values@);
        while j > 0
            invariant
                j <= self.values@.len(),
                lookup(self.bindings(), name@) == lookup(
                    bindings_of(self.values@.subrange(0, j as int)),
                    name@,
                ),
            decreases j,
        {
            let ghost pre = bindings_of(self.values@.subrange(0, j as int));
            assert(pre.drop_last() =~= bindings_of(self.values@.subrange(0, j - 1)));
            if crate::text::same_text(self.values[j - 1].0.as_str(), name) {
                return Some(&self.values[j - 1].1);
            }
            j = j - 1;
        }
        None
    }

    /// The positional arguments, in order.
    pub fn positional(&self) -> (r: &Vec<String>)
        ensures
            texts(r@) == self.positionals(),
    {
        &self.args
    }
}

/// The commands that a path of references leads through.
pub open spec fn derefs(path: Seq<&Command>) -> Seq<Command> {
    path.map_values(|c: &Command| *c)
}

/// Whether the token names the flag.
fn names(f: &Flag, tok: &str) -> (r: bool)
    ensures
        r == names_flag(*f, tok@),
{
    let n = tok.unicode_len();
    if n > 2 && tok.get_char(0) == '-' && tok.get_char(1) == '-' {
        let k = tok.substring_char(2, n);
        f.is(k) || f.is_long(k)
    } else if n > 1 && tok.get_char(0) == '-' && tok.get_char(1) != '-' {
        f.is_short(tok.substring_char(1, n))
    } else {
        false
    }
}

fn is_flag_shaped(tok: &str) -> (r: bool)
    ensures
        r == flag_shaped(tok@),
{
    let n = tok.unicode_len();
    n > 1 && tok.get_char(0) == '-' && (tok.get_char(1) != '-' || n > 2)
}

/// The first of the flags that the token names.
fn first_flag(flags: &Vec<Flag>, tok: &str) -> (r: Option<usize>)
    ensures
        r matches Some(k) ==> k < flags@.len() && find_flag(flags@, tok@) == Some(k as int),
        r is None ==> find_flag(flags@, tok@) is None,
{
    let ghost p = |f: Flag| names_flag(f, tok@);
    let mut i: usize = 0;
    assert(flags@.subrange(0, 0) =~= Seq::<Flag>::empty());
    while i < flags.len()
        invariant
            i <= flags@.len(),
            p == (|f: Flag| names_flag(f, tok@)),
            first_index(flags@.subrange(0, i as int), p) is None,
        decreases flags.len() - i,
    {
        proof {
            lemma_first_index_step(flags@, i as int, p);
        }
        if names(&flags[i], tok) {
            proof {
                lemma_first_index_prefix(flags@, i + 1, p);
            }
            return Some(i);
        }
        i = i + 1;
    }
    assert(flags@.subrange(0, i as int) =~= flags@);
    None
}

/// The first child whose name is the token.
fn child_named(children: &Vec<Command>, tok: &str) -> (r: Option<usize>)
    ensures
        r matches Some(k) ==> k < children@.len() && find_child(children@, tok@) == Some(k as int),
        r is None ==> find_child(children@, tok@) is None,
{
    let ghost p = |c: Command| c.name@ == tok@;
    let mut i: usize = 0;
    assert(children@.subrange(0, 0) =~= Seq::<Command>::empty());
    while i < children.len()
        invariant
            i <= children@.len(),
            p == (|c: Command| c.name@ == tok@),
            first_index(children@.subrange(0, i as int), p) is None,
        decreases children.len() - i,
    {
        proof {
            lemma_first_index_step(children@, i as int, p);
        }
        if crate::text::same_text(children[i].name.as_str(), tok) {
            proof {
                lemma_first_index_prefix(children@, i + 1, p);
            }
            return Some(i);
        }
        i = i + 1;
    }
    assert(children@.subrange(0, i as int) =~= children@);
    None
}

/// The flag that the token names, from the innermost command of the path out.
fn flag_for<'a>(path: &Vec<&'a Command>, tok: &str) -> (r: Option<&'a Flag>)
    ensures
        r matches Some(f) ==> flag_on_path(derefs(path@), tok@) == Some(*f),
        r is None ==> flag_on_path(derefs(path@), tok@) is None,
{
    let ghost whole = derefs(path@);
    let mut j = path.len();
    assert(whole.subrange(0, j as int) =~= whole);
    while j > 0
        invariant
            j <= path@.len(),
            whole == derefs(path@),
            flag_on_path(whole, tok@) == flag_on_path(whole.subrange(0, j as int), tok@),
        decreases j,
    {
        let c: &Command = path[j - 1];
        assert(whole.subrange(0, j as int).last() == *c);
        assert(whole.subrange(0, j as int).drop_last() =~= whole.subrange(0, j - 1));
        match first_flag(&c.flags, tok) {
            Some(k) => {
                return Some(&c.flags[k]);
            },
            None => {},
        }
        j = j - 1;
    }
    None
}

/// Binds each flag's name to its default value, in order.
fn push_defaults(values: &mut Vec<(String, FlagValue)>, flags: &Vec<Flag>)
    ensures
        bindings_of(final(values)@) == bindings_of(old(values)@) + defaults(flags@),
{
    let mut i: usize = 0;
    while i < flags.len()
        invariant
            i <= flags@.len(),
            bindings_of(values@) == bindings_of(old(values)@) + defaults(
                flags@.subrange(0, i as int),
            ),
        decreases flags.len() - i,
    {
        let f = &flags[i];
        let ghost before = values@;
        values.push((f.name.clone(), f.default_value.duplicate()));
        assert(bindings_of(values@) =~= bindings_of(before).push((f.name@, f.default_value@)));
        assert(defaults(flags@.subrange(0, i + 1)) =~= defaults(flags@.subrange(0, i as int)).push(
            (f.name@, f.default_value@),
        ));
        i = i + 1;
    }
    assert(flags@.subrange(0, i as int) =~= flags@);
}

/// What a resolution gives, with its texts as sequences of characters.
pub open spec fn outcome(r: Result<Invocation, ResolveError>) -> Result<
    (Action, Bindings, Seq<Seq<char>>),
    ResolveError,
> {
    match r {
        Ok(inv) => Ok((inv.action, inv.context.bindings(), inv.context.positionals())),
        Err(e) => Err(e),
    }
}

impl Command {
    /// Resolves the argument vector against the tree under this command.
    /// `float_readings[i]` is the binary64 reading of `args[i]` as a float
    /// literal, where it is one.
    pub fn resolve(&self, args: &Vec<String>, float_readings: &Vec<Option<u64>>) -> (r: Result<
        Invocation,
        ResolveError,
    >)
        requires
            float_readings@.len() == args@.len(),
        ensures
            outcome(r) == resolution(*self, texts(args@), float_readings@),
    {
        let ghost toks = texts(args@);
        let ghost floats = float_readings@;
        let n = args.len();
        let mut path: Vec<&Command> = Vec::new();
        path.push(self);
        let mut values: Vec<(String, FlagValue)> = Vec::new();
        push_defaults(&mut values, &self.flags);
        let mut pos: Vec<String> = Vec::new();
        let mut cur: &Command = self;
        let mut i: usize = 0;
        assert(derefs(path@) =~= seq![*self]);
        assert(bindings_of(values@) =~= defaults(self.flags@)) by {
            assert(bindings_of(Seq::<(String, FlagValue)>::empty()) =~= Seq::empty());
        }
        assert(texts(pos@) =~= Seq::empty());
        while i < n
            invariant
                n == args@.len(),
                toks == texts(args@),
                floats == float_readings@,
                floats.len() == n,
                i <= n,
                derefs(path@).len() > 0,
                derefs(path@).last() == *cur,
                scan(derefs(path@), bindings_of(values@), texts(pos@), toks, floats, i as int)
                    == scan(seq![*self], defaults(self.flags@), Seq::empty(), toks, floats, 0),
            decreases n - i,
        {
            let tok: &str = args[i].as_str();
            assert(tok@ == toks[i as int]);
            let ghost gpath = derefs(path@);
            let ghost gbinds = bindings_of(values@);
            let ghost gpos = texts(pos@);
            match child_named(&cur.children, tok) {
                Some(c) => {
                    let child: &Command = &cur.children[c];
                    path.push(child);
                    assert(derefs(path@) =~= gpath.push(*child));
                    push_defaults(&mut values, &child.flags);
                    cur = child;
                    i = i + 1;
                },
                None => {
                    if !is_flag_shaped(tok) {
                        pos.push(args[i].clone());
                        assert(texts(pos@) =~= gpos.push(tok@));
                        i = i + 1;
                    } else {
                        match flag_for(&path, tok) {
                            None => {
                                return Err(ResolveError::UnknownToken { index: i });
                            },
                            Some(f) => {
                                let explicit: Option<FlagValue> = if i + 1 < n {
                                    f.flag_type.parse_from_text(
                                        args[i + 1].as_str(),
                                        float_readings[i + 1],
                                    )
                                } else {
                                    None
                                };
                                if f.flag_type == FlagType::Bool {
                                    match explicit {
                                        Some(v) => {
                                            values.push((f.name.clone(), v));
                                            i = i + 2;
                                        },
                                        None => {
                                            values.push((f.name.clone(), FlagValue::Bool(true)));
                                            i = i + 1;
                                        },
                                    }
                                } else if i + 1 >= n {
                                    return Err(ResolveError::MissingValue { index: i });
                                } else {
                                    match explicit {
                                        None => {
                                            return Err(ResolveError::ParseFailure { index: i });
                                        },
                                        Some(v) => {
                                            values.push((f.name.clone(), v));
                                            i = i + 2;
                                        },
                                    }
                                }
                                assert(bindings_of(values@) =~= gbinds.push(
                                    bindings_of(values@).last(),
                                ));
                            },
                        }
                    }
                },
            }
        }
        let ghost end = scan(derefs(path@), bindings_of(values@), texts(pos@), toks, floats, i as int);
        assert(end == Ok::<ScanEnd, ResolveError>((derefs(path@), bindings_of(values@), texts(pos@))));
        match cur.action {
            Some(a) => Ok(Invocation { action: a, context: Context { values, args: pos } }),
            None => Err(ResolveError::NoActionBound),
        }
    }
}

/// Why a declaration was refused while building a command.
#[derive(PartialEq, Eq, Structural, Clone, Copy, Debug)]
pub enum BuildError {
    /// The new flag shares a name or an alias with a flag already declared.
    FlagClash,
    /// A child command of that name is already declared.
    DuplicateCommand,
}

pub open spec fn overlaps(a: Seq<Seq<char>>, b: Seq<Seq<char>>) -> bool {
    exists|x: Seq<char>| a.contains(x) && b.contains(x)
}

/// Every name by which a token can refer to the flag: its long aliases, its
/// short aliases and its own name.
pub open spec fn keys(f: Flag) -> Seq<Seq<char>> {
    f.longs() + f.shorts() + seq![f.name@]
}

/// Two flags clash where they share a name or an alias.
pub open spec fn clash(f: Flag, g: Flag) -> bool {
    overlaps(keys(f), keys(g))
}

/// No two flags of the list clash.
pub open spec fn distinct_flags(flags: Seq<Flag>) -> bool {
    forall|i: int, j: int| 0 <= i < j < flags.len() ==> !clash(#[trigger] flags[i], #[trigger] flags[j])
}

fn overlap(a: &Vec<String>, b: &Vec<String>) -> (r: bool)
    ensures
        r == overlaps(texts(a@), texts(b@)),
{
    let mut i: usize = 0;
    while i < a.len()
        invariant
            i <= a@.len(),
            forall|j: int| 0 <= j < i ==> !texts(b@).contains(#[trigger] texts(a@)[j]),
        decreases a.len() - i,
    {
        if crate::flag::holds_text(b, a[i].as_str()) {
            assert(texts(a@)[i as int] == a@[i as int]@);
            assert(texts(a@).contains(a@[i as int]@));
            return true;
        }
        assert(texts(a@)[i as int] == a@[i as int]@);
        i = i + 1;
    }
    assert(!overlaps(texts(a@), texts(b@))) by {
        if overlaps(texts(a@), texts(b@)) {
            let x = choose|x: Seq<char>| texts(a@).contains(x) && texts(b@).contains(x);
            let j = choose|j: int| 0 <= j < texts(a@).len() && texts(a@)[j] == x;
            assert(!texts(b@).contains(texts(a@)[j]));
        }
    }
    false
}

/// The names of a flag, as listed by `keys`.
fn keys_of(f: &Flag) -> (r: Vec<String>)
    ensures
        texts(r@) == keys(*f),
{
    let mut r: Vec<String> = Vec::new();
    let mut i: usize = 0;
    while i < f.long_alias.len()
        invariant
            i <= f.long_alias@.len(),
            texts(r@) == f.longs().subrange(0, i as int),
        decreases f.long_alias.len() - i,
    {
        let ghost before = r@;
        r.push(f.long_alias[i].clone());
        assert(texts(r@) =~= texts(before).push(f.long_alias@[i as int]@));
        assert(f.longs().subrange(0, i + 1) =~= f.longs().subrange(0, i as int).push(
            f.long_alias@[i as int]@,
        ));
        assert(texts(r@) =~= f.longs().subrange(0, i + 1));
        i = i + 1;
    }
    assert(f.longs().subrange(0, i as int) =~= f.longs());
    assert(f.longs() + f.shorts().subrange(0, 0) =~= f.longs());
    let mut j: usize = 0;
    while j < f.short_alias.len()
        invariant
            j <= f.short_alias@.len(),
            texts(r@) == f.longs() + f.shorts().subrange(0, j as int),
        decreases f.short_alias.len() - j,
    {
        let ghost before = r@;
        r.push(f.short_alias[j].clone());
        assert(texts(r@) =~= texts(before).push(f.short_alias@[j as int]@));
        assert(f.shorts().subrange(0, j + 1) =~= f.shorts().subrange(0, j as int).push(
            f.short_alias@[j as int]@,
        ));
        assert(texts(r@) =~= f.longs() + f.shorts().subrange(0, j + 1));
        j = j + 1;
    }
    assert(f.shorts().subrange(0, j as int) =~= f.shorts());
    let ghost before = r@;
    r.push(f.name.clone());
    assert(texts(r@) =~= texts(before).push(f.name@));
    assert(texts(r@) =~= keys(*f));
    r
}

fn clashes(f: &Flag, g: &Flag) -> (r: bool)
    ensures
        r == clash(*f, *g),
{
    overlap(&keys_of(f), &keys_of(g))
}

impl Command {
    pub fn new(name: &str) -> (r: Command)
        ensures
            r.name@ == name@,
            r.flags@.len() == 0,
            r.children@.len() == 0,
            r.action is None,
    {
        Command { name: name.to_owned(), flags: Vec::new(), children: Vec::new(), action: None }
    }

    /// Declares a flag on this command, unless it clashes with one already
    /// declared here.
    pub fn flag(self, f: Flag) -> (r: Result<Command, BuildError>)
        ensures
            (exists|i: int| 0 <= i < self.flags@.len() && clash(#[trigger] self.flags@[i], f))
                <==> r is Err,
            r matches Err(e) ==> e == BuildError::FlagClash,
            r matches Ok(c) ==> c.flags@ == self.flags@.push(f) && c.name == self.name
                && c.children == self.children && c.action == self.action,
            r matches Ok(c) ==> (distinct_flags(self.flags@) ==> distinct_flags(c.flags@)),
    {
        let mut i: usize = 0;
        while i < self.flags.len()
            invariant
                i <= self.flags@.len(),
                forall|j: int| 0 <= j < i ==> !clash(#[trigger] self.flags@[j], f),
            decreases self.flags.len() - i,
        {
            if clashes(&self.flags[i], &f) {
                return Err(BuildError::FlagClash);
            }
            i = i + 1;
        }
        let mut c = self;
        c.flags.push(f);
        assert(c.flags@.drop_last() =~= self.flags@);
        Ok(c)
    }

    /// Declares a child command, unless one of the same name is declared.
    pub fn subcommand(self, child: Command) -> (r: Result<Command, BuildError>)
        ensures
            (exists|i: int| 0 <= i < self.children@.len() && #[trigger] self.children@[i].name@
                == child.name@) <==> r is Err,
            r matches Err(e) ==> e == BuildError::DuplicateCommand,
            r matches Ok(c) ==> c.children@ == self.children@.push(child) && c.name == self.name
                && c.flags == self.flags && c.action == self.action,
    {
        match child_named(&self.children, child.name.as_str()) {
            Some(k) => {
                proof {
                    lemma_first_index_found(self.children@, |c: Command| c.name@ == child.name@);
                }
                Err(BuildError::DuplicateCommand)
            },
            None => {
                proof {
                    lemma_first_index_none(self.children@, |c: Command| c.name@ == child.name@);
                }
                let mut c = self;
                c.children.push(child);
                Ok(c)
            },
        }
    }

    /// Binds the action that this command runs.
    pub fn action(self, a: Action) -> (r: Command)
        ensures
            r.action == Some(a),
            r.name == self.name,
            r.flags == self.flags,
            r.children == self.children,
    {
        let mut c = self;
        c.action = Some(a);
        c
    }
}

proof fn lemma_first_index_found<A>(s: Seq<A>, p: spec_fn(A) -> bool)
    requires
        first_index(s, p) is Some,
    ensures
        0 <= first_index(s, p)->0 < s.len(),
        p(s[first_index(s, p)->0]),
    decreases s.len(),
{
    if first_index(s.drop_last(), p) is Some {
        lemma_first_index_found(s.drop_last(), p);
    }
}

proof fn lemma_first_index_none<A>(s: Seq<A>, p: spec_fn(A) -> bool)
    requires
        first_index(s, p) is None,
    ensures
        forall|i: int| 0 <= i < s.len() ==> !p(#[trigger] s[i]),
    decreases s.len(),
{
    if s.len() > 0 {
        lemma_first_index_none(s.drop_last(), p);
        assert forall|i: int| 0 <= i < s.len() implies !p(#[trigger] s[i]) by {
            if i < s.len() - 1 {
                assert(s[i] == s.drop_last()[i]);
            }
        }
    }
}

} // verus!
