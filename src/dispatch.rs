use vstd::prelude::*;
use vstd::string::StrSliceExecFns;
use crate::assoc::{assoc, keys_unique, lemma_assoc_at, lemma_assoc_dom};
use crate::store::{command_pairs, version_pairs, Definitions, DefsModel};

verus! {

/// Why a shim could not hand over to a real binary.
#[derive(Clone, Copy, Debug, PartialEq, Eq, Structural)]
pub enum DispatchError {
    /// The store records no version of the invoked command.
    Unresolved,
    /// The recorded path no longer names an executable file.
    TargetMissing,
}

/// The exit status of a shim that could not hand over.
pub const DISPATCH_FAILED_EXIT: i32 = 127;

impl DispatchError {
    pub fn exit_code(&self) -> (r: i32)
        ensures
            r == DISPATCH_FAILED_EXIT,
    {
        DISPATCH_FAILED_EXIT
    }
}

/// Version labels in order of their characters, a proper prefix first.
pub open spec fn label_lt(a: Seq<char>, b: Seq<char>) -> bool
    decreases a.len(),
{
    if a.len() == 0 {
        b.len() > 0
    } else if b.len() == 0 {
        false
    } else if a[0] != b[0] {
        a[0] < b[0]
    } else {
        label_lt(a.drop_first(), b.drop_first())
    }
}

/// `v` is a recorded version that no other recorded version follows.
pub open spec fn is_greatest(m: Map<Seq<char>, Seq<char>>, v: Seq<char>) -> bool {
    m.contains_key(v) && forall|w: Seq<char>| m.contains_key(w) ==> !label_lt(v, w)
}

/// The version a shim runs: the greatest recorded label.
pub open spec fn chosen_version(m: Map<Seq<char>, Seq<char>>) -> Seq<char> {
    choose|v: Seq<char>| is_greatest(m, v)
}

/// A command can be dispatched: at least one version of it is recorded.
pub open spec fn resolvable(d: DefsModel, command: Seq<char>) -> bool {
    d.contains_key(command) && d[command].dom().len() > 0
}

/// The path a shim for `command` runs, when the command is resolvable.
pub open spec fn resolved_path(d: DefsModel, command: Seq<char>) -> Seq<char> {
    d[command][chosen_version(d[command])]
}

pub proof fn lemma_label_lt_irreflexive(a: Seq<char>)
    ensures
        !label_lt(a, a),
    decreases a.len(),
{
    if a.len() > 0 {
        lemma_label_lt_irreflexive(a.drop_first());
    }
}

pub proof fn lemma_label_lt_total(a: Seq<char>, b: Seq<char>)
    ensures
        a != b ==> label_lt(a, b) || label_lt(b, a),
    decreases a.len(),
{
    if a.len() > 0 && b.len() > 0 {
        lemma_label_lt_total(a.drop_first(), b.drop_first());
        if a[0] == b[0] && a.drop_first() == b.drop_first() {
            assert(a =~= seq![a[0]] + a.drop_first());
            assert(b =~= seq![b[0]] + b.drop_first());
        }
    } else if a.len() == 0 && b.len() == 0 {
        assert(a =~= b);
    }
}

pub proof fn lemma_label_lt_transitive(a: Seq<char>, b: Seq<char>, c: Seq<char>)
    requires
        label_lt(a, b),
        label_lt(b, c),
    ensures
        label_lt(a, c),
    decreases a.len(),
{
    if a.len() > 0 && b.len() > 0 && c.len() > 0 {
        if a[0] == b[0] && b[0] == c[0] {
            lemma_label_lt_transitive(a.drop_first(), b.drop_first(), c.drop_first());
        }
    }
}

/// Whether label `a` comes before label `b`.
pub fn label_less(a: &String, b: &String) -> (r: bool)
    ensures
        r == label_lt(a@, b@),
{
    let n = a.as_str().unicode_len();
    let m = b.as_str().unicode_len();
    let mut i: usize = 0;
    assert(a@.subrange(0, n as int) =~= a@);
    assert(b@.subrange(0, m as int) =~= b@);
    while i < n && i < m
        invariant
            i <= n,
            i <= m,
            n == a@.len(),
            m == b@.len(),
            label_lt(a@, b@) == label_lt(a@.subrange(i as int, n as int), b@.subrange(i as int, m as int)),
        decreases n - i,
    {
        let x = a.as_str().get_char(i);
        let y = b.as_str().get_char(i);
        let ghost sa = a@.subrange(i as int, n as int);
        let ghost sb = b@.subrange(i as int, m as int);
        assert(sa[0] == x && sb[0] == y);
        if x != y {
            return x < y;
        }
        assert(sa.drop_first() =~= a@.subrange(i + 1, n as int));
        assert(sb.drop_first() =~= b@.subrange(i + 1, m as int));
        i = i + 1;
    }
    i < m
}

/// The path recorded for the greatest version of `command`, or
/// `Unresolved` when no version of it is recorded.
pub fn resolve(defs: &Definitions, command: &String) -> (r: Result<String, DispatchError>)
    requires
        defs.wf(),
    ensures
        r is Ok <==> resolvable(defs@, command@),
        r is Ok ==> r->Ok_0@ == resolved_path(defs@, command@),
        r is Err ==> r == Err::<String, DispatchError>(DispatchError::Unresolved),
{
    let ghost cp = command_pairs(defs.commands@);
    let mut i: usize = 0;
    while i < defs.commands.len()
        invariant
            i <= defs.commands@.len(),
            cp == command_pairs(defs.commands@),
            defs.wf(),
            forall|j: int| 0 <= j < i ==> cp[j].0 != command@,
        decreases defs.commands@.len() - i,
    {
        if defs.commands[i].command == *command {
            let entry = &defs.commands[i];
            proof {
                lemma_assoc_at(cp, i as int);
                assert(defs.commands@[i as int].wf());
            }
            return resolve_entry(entry);
        }
        i = i + 1;
    }
    proof {
        lemma_assoc_dom(cp, command@);
    }
    Err(DispatchError::Unresolved)
}

/// The binary to hand over to, once the resolved `path` has been checked:
/// `runnable` says whether it still names an executable file.
pub fn confirm_target(path: String, runnable: bool) -> (r: Result<String, DispatchError>)
    ensures
        runnable ==> r == Ok::<String, DispatchError>(path),
        !runnable ==> r == Err::<String, DispatchError>(DispatchError::TargetMissing),
{
    if runnable {
        Ok(path)
    } else {
        Err(DispatchError::TargetMissing)
    }
}

/// Dispatch depends on the store's contents alone: two stores that record
/// the same versions send a command to the same binary, and so does one
/// store every time it is asked.
pub proof fn lemma_dispatch_deterministic(a: &Definitions, b: &Definitions, command: Seq<char>)
    requires
        a.wf(),
        b.wf(),
        a@ == b@,
    ensures
        resolvable(a@, command) == resolvable(b@, command),
        resolvable(a@, command) ==> resolved_path(a@, command) == resolved_path(b@, command),
{
}

fn resolve_entry(entry: &crate::store::CommandEntry) -> (r: Result<String, DispatchError>)
    requires
        entry.wf(),
    ensures
        r is Ok <==> assoc(version_pairs(entry.versions@)).dom().len() > 0,
        r is Ok ==> r->Ok_0@ == assoc(version_pairs(entry.versions@))[chosen_version(assoc(version_pairs(entry.versions@)))],
        r is Err ==> r == Err::<String, DispatchError>(DispatchError::Unresolved),
{
    let ghost vp = version_pairs(entry.versions@);
    let ghost m = assoc(vp);
    if entry.versions.len() == 0 {
        proof {
            assert(vp =~= Seq::empty());
            assert(m =~= Map::empty());
        }
        return Err(DispatchError::Unresolved);
    }
    let mut best: usize = 0;
    let mut i: usize = 1;
    proof {
        lemma_label_lt_irreflexive(vp[0].0);
    }
    while i < entry.versions.len()
        invariant
            1 <= i <= entry.versions@.len(),
            best < i,
            vp == version_pairs(entry.versions@),
            forall|j: int| 0 <= j < i ==> !label_lt(#[trigger] vp[best as int].0, vp[j].0),
        decreases entry.versions@.len() - i,
    {
        if label_less(&entry.versions[best].version, &entry.versions[i].version) {
            proof {
                assert forall|j: int| 0 <= j <= i implies !label_lt(#[trigger] vp[i as int].0, vp[j].0) by {
                    if j < i && label_lt(vp[i as int].0, vp[j].0) {
                        lemma_label_lt_transitive(vp[best as int].0, vp[i as int].0, vp[j].0);
                    }
                    if j == i {
                        lemma_label_lt_irreflexive(vp[j].0);
                    }
                }
            }
            best = i;
        }
        i = i + 1;
    }
    proof {
        let v = vp[best as int].0;
        lemma_assoc_at(vp, best as int);
        assert forall|w: Seq<char>| m.contains_key(w) implies !label_lt(v, w) by {
            lemma_assoc_dom(vp, w);
            let j = choose|j: int| 0 <= j < vp.len() && vp[j].0 == w;
            assert(!label_lt(vp[best as int].0, vp[j].0));
        }
        assert(is_greatest(m, v));
        let c = chosen_version(m);
        assert(is_greatest(m, c));
        lemma_label_lt_total(v, c);
        crate::assoc::lemma_assoc_finite(vp);
        assert(m.dom().contains(v));
        assert(m.dom().len() > 0);
    }
    Ok(entry.versions[best].path.clone())
}

} // verus!
