//! Properties that relate the operations of the library.
use vstd::prelude::*;
use crate::command::{
    defaults, find_child, flag_on_path, lookup, outcome, resolution, scan, Bindings, Command,
    Invocation, ResolveError,
};
use crate::flag::Flag;
use crate::flag::{chosen_default, FlagType, ValueView};

verus! {

/// A value is of type `t` exactly when it carries the tag of `t`, and the
/// absent value is of no type.
pub proof fn law_type_tags(t: FlagType, v: ValueView)
    ensures
        v.kind() == Some(t) <==> match v {
            ValueView::Bool(_) => t == FlagType::Bool,
            ValueView::Text(_) => t == FlagType::String,
            ValueView::Int(_) => t == FlagType::Int,
            ValueView::Float(_) => t == FlagType::Float,
            ValueView::Absent => false,
        },
        ValueView::Absent.kind() != Some(t),
        t.zero().kind() == Some(t),
{
}

/// As a Bool, a text reads as true exactly when it is `true`, as false exactly
/// when it is `false`, and as nothing otherwise.
pub proof fn law_bool_reading(s: Seq<char>, float_reading: Option<u64>)
    ensures
        FlagType::Bool.reads(s, float_reading) == Some(ValueView::Bool(true)) <==> s == "true"@,
        FlagType::Bool.reads(s, float_reading) == Some(ValueView::Bool(false)) <==> s == "false"@,
        FlagType::Bool.reads(s, float_reading) is None <==> (s != "true"@ && s != "false"@),
{
    reveal_strlit("true");
    reveal_strlit("false");
    assert("true"@ != "false"@) by {
        assert("true"@.len() != "false"@.len());
    }
}

/// A flag built with a default value of another type gets the zero value of
/// its own type.
pub proof fn law_mismatched_default(t: FlagType, v: ValueView)
    requires
        v.kind() != Some(t),
    ensures
        chosen_default(t, v) == t.zero(),
{
}

/// Two resolutions of the same arguments against the same tree give the same
/// action, bindings and positional arguments, or the same error.
pub proof fn law_resolution_repeats(
    root: Command,
    toks: Seq<Seq<char>>,
    floats: Seq<Option<u64>>,
    first: Result<Invocation, ResolveError>,
    second: Result<Invocation, ResolveError>,
)
    requires
        outcome(first) == resolution(root, toks, floats),
        outcome(second) == resolution(root, toks, floats),
    ensures
        outcome(first) == outcome(second),
{
}

/// Every flag declared on one of the commands of `path` is bound.
pub open spec fn path_bound(path: Seq<Command>, b: Bindings) -> bool {
    forall|k: int, f: Flag|
        0 <= k < path.len() && #[trigger] path[k].flags@.contains(f) ==> #[trigger] lookup(
            b,
            f.name@,
        ) is Some
}

proof fn lemma_lookup_push(b: Bindings, x: (Seq<char>, ValueView), name: Seq<char>)
    requires
        lookup(b, name) is Some || x.0 == name,
    ensures
        lookup(b.push(x), name) is Some,
{
    assert(b.push(x).drop_last() =~= b);
}

proof fn lemma_lookup_defaults(b: Bindings, fs: Seq<Flag>, name: Seq<char>)
    requires
        lookup(b, name) is Some || exists|f: Flag| fs.contains(f) && f.name@ == name,
    ensures
        lookup(b + defaults(fs), name) is Some,
    decreases fs.len(),
{
    if fs.len() == 0 {
        assert(b + defaults(fs) =~= b);
    } else {
        let last = fs.last();
        let d = defaults(fs);
        assert(d.drop_last() =~= defaults(fs.drop_last()));
        assert((b + d).drop_last() =~= b + defaults(fs.drop_last()));
        assert((b + d).last() == (last.name@, last.default_value@));
        if last.name@ != name {
            if lookup(b, name) is None {
                let f = choose|f: Flag| fs.contains(f) && f.name@ == name;
                let j = choose|j: int| 0 <= j < fs.len() && fs[j] == f;
                assert(j != fs.len() - 1);
                assert(fs.drop_last()[j] == f);
                assert(fs.drop_last().contains(f));
            }
            lemma_lookup_defaults(b, fs.drop_last(), name);
        }
    }
}

proof fn lemma_scan_keeps_bound(
    path: Seq<Command>,
    binds: Bindings,
    pos: Seq<Seq<char>>,
    toks: Seq<Seq<char>>,
    floats: Seq<Option<u64>>,
    i: int,
)
    requires
        path_bound(path, binds),
    ensures
        scan(path, binds, pos, toks, floats, i) matches Ok((p, b, _)) ==> path_bound(p, b),
    decreases toks.len() - i,
{
    if 0 <= i < toks.len() {
        let tok = toks[i];
        match find_child(path.last().children@, tok) {
            Some(c) => {
                let child = path.last().children@[c];
                let np = path.push(child);
                let nb = binds + defaults(child.flags@);
                assert forall|k: int, f: Flag|
                    0 <= k < np.len() && #[trigger] np[k].flags@.contains(f) implies #[trigger] lookup(
                    nb,
                    f.name@,
                ) is Some by {
                    if k < path.len() {
                        assert(np[k] == path[k]);
                    }
                    lemma_lookup_defaults(binds, child.flags@, f.name@);
                }
                lemma_scan_keeps_bound(np, nb, pos, toks, floats, i + 1);
            },
            None => {
                match flag_on_path(path, tok) {
                    Some(f) => {
                        assert forall|v: ValueView, k: int, g: Flag|
                            0 <= k < path.len() && #[trigger] path[k].flags@.contains(g) implies
                            #[trigger] lookup(binds.push((f.name@, v)), g.name@) is Some by {
                            lemma_lookup_push(binds, (f.name@, v), g.name@);
                        }
                        let tv = ValueView::Bool(true);
                        assert(path_bound(path, binds.push((f.name@, tv))));
                        lemma_scan_keeps_bound(path, binds.push((f.name@, tv)), pos, toks, floats, i + 1);
                        if i + 1 < toks.len() {
                            match f.flag_type.reads(toks[i + 1], floats[i + 1]) {
                                Some(v) => {
                                    assert(path_bound(path, binds.push((f.name@, v))));
                                    lemma_scan_keeps_bound(
                                        path,
                                        binds.push((f.name@, v)),
                                        pos,
                                        toks,
                                        floats,
                                        i + 2,
                                    );
                                },
                                None => {},
                            }
                        }
                    },
                    None => {},
                }
                lemma_scan_keeps_bound(path, binds, pos.push(tok), toks, floats, i + 1);
            },
        }
    }
}

/// A scan of any arguments from the root ends with every flag declared on a
/// command of the resolved path bound to a value, its default where no token
/// gave one.
pub proof fn law_declared_flags_bound(root: Command, toks: Seq<Seq<char>>, floats: Seq<Option<u64>>)
    ensures
        scan(seq![root], defaults(root.flags@), Seq::empty(), toks, floats, 0) matches Ok((p, b, _))
            ==> path_bound(p, b),
{
    let b0: Bindings = Seq::empty();
    assert(b0 + defaults(root.flags@) =~= defaults(root.flags@));
    assert forall|k: int, f: Flag|
        0 <= k < seq![root].len() && #[trigger] seq![root][k].flags@.contains(f) implies #[trigger] lookup(
        defaults(root.flags@),
        f.name@,
    ) is Some by {
        lemma_lookup_defaults(b0, root.flags@, f.name@);
    }
    lemma_scan_keeps_bound(seq![root], defaults(root.flags@), Seq::empty(), toks, floats, 0);
}

} // verus!
