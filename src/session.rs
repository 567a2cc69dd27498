use vstd::prelude::*;
use crate::candidate::{candidate_models, CandidateModel, CommandVersion};
use crate::assoc::{lemma_assoc_at, lemma_assoc_dom, lemma_assoc_finite};
use crate::dispatch::resolvable;
use crate::store::{command_pairs, defs_insert, version_pairs, Definitions, DefsModel};

verus! {

/// Why a selection session ended without recording anything.
#[derive(Clone, Copy, Debug, PartialEq, Eq, Structural)]
pub enum SessionError {
    /// No scanner found a version of the command.
    DiscoveryEmpty,
    /// The operator confirmed without choosing any candidate.
    SelectionEmpty,
}

/// The exit status of a session that found nothing.
pub const NOT_FOUND_EXIT: i32 = 1;

impl SessionError {
    /// The process exit status for this outcome: a distinct failure when
    /// nothing was found, success when the operator chose nothing.
    pub fn exit_code(&self) -> (r: i32)
        ensures
            *self == SessionError::DiscoveryEmpty ==> r == NOT_FOUND_EXIT,
            *self == SessionError::SelectionEmpty ==> r == 0,
    {
        match self {
            SessionError::DiscoveryEmpty => NOT_FOUND_EXIT,
            SessionError::SelectionEmpty => 0,
        }
    }
}

/// The models of each scanner's output, in scanner order.
pub open spec fn scan_models(scans: Seq<Vec<CommandVersion>>) -> Seq<Seq<CandidateModel>> {
    scans.map_values(|v: Vec<CommandVersion>| candidate_models(v@))
}

/// Every scanner came back empty.
pub open spec fn all_empty(scans: Seq<Vec<CommandVersion>>) -> bool {
    forall|i: int| 0 <= i < scans.len() ==> #[trigger] scans[i]@.len() == 0
}

/// The store after recording, in order, each chosen candidate under `command`.
pub open spec fn selection_applied(
    d: DefsModel,
    command: Seq<char>,
    candidates: Seq<CandidateModel>,
    choices: Seq<usize>,
) -> DefsModel
    decreases choices.len(),
{
    if choices.len() == 0 {
        d
    } else {
        let c = candidates[choices.last() as int];
        defs_insert(selection_applied(d, command, candidates, choices.drop_last()), command, c.version, c.path)
    }
}

/// Each command of the store records finitely many versions.
pub open spec fn finitely_many_versions(d: DefsModel) -> bool {
    forall|c: Seq<char>| #[trigger] d.contains_key(c) ==> d[c].dom().finite()
}

/// A well-formed store records finitely many versions of each command.
pub proof fn lemma_store_versions_finite(defs: &Definitions)
    requires
        defs.wf(),
    ensures
        finitely_many_versions(defs@),
{
    let cp = command_pairs(defs.commands@);
    assert forall|c: Seq<char>| #[trigger] defs@.contains_key(c) implies defs@[c].dom().finite() by {
        lemma_assoc_dom(cp, c);
        let i = choose|i: int| 0 <= i < cp.len() && cp[i].0 == c;
        lemma_assoc_at(cp, i);
        lemma_assoc_finite(version_pairs(defs.commands@[i].versions@));
    }
}

proof fn lemma_selection_keeps_finite(d: DefsModel, command: Seq<char>, candidates: Seq<CandidateModel>, choices: Seq<usize>)
    requires
        finitely_many_versions(d),
        forall|k: int| 0 <= k < choices.len() ==> #[trigger] choices[k] < candidates.len(),
    ensures
        finitely_many_versions(selection_applied(d, command, candidates, choices)),
    decreases choices.len(),
{
    if choices.len() > 0 {
        let rest = choices.drop_last();
        assert forall|k: int| 0 <= k < rest.len() implies #[trigger] rest[k] < candidates.len() by {
            assert(rest[k] == choices[k]);
        }
        lemma_selection_keeps_finite(d, command, candidates, rest);
    }
}

/// Once the operator has chosen at least one candidate, the command can be
/// dispatched: the store records a version of it.
pub proof fn lemma_selection_makes_resolvable(
    d: DefsModel,
    command: Seq<char>,
    candidates: Seq<CandidateModel>,
    choices: Seq<usize>,
)
    requires
        finitely_many_versions(d),
        choices.len() > 0,
        forall|k: int| 0 <= k < choices.len() ==> #[trigger] choices[k] < candidates.len(),
    ensures
        resolvable(selection_applied(d, command, candidates, choices), command),
{
    let rest = choices.drop_last();
    assert forall|k: int| 0 <= k < rest.len() implies #[trigger] rest[k] < candidates.len() by {
        assert(rest[k] == choices[k]);
    }
    lemma_selection_keeps_finite(d, command, candidates, rest);
    let prev = selection_applied(d, command, candidates, rest);
    let c = candidates[choices.last() as int];
    let inner = if prev.contains_key(command) { prev[command] } else { Map::empty() };
    assert(inner.dom().finite());
    let r = selection_applied(d, command, candidates, choices);
    assert(r[command] == inner.insert(c.version, c.path));
    assert(r[command].dom().contains(c.version));
    assert(r[command].dom().len() > 0);
}

/// The candidates of all scanners, one scanner's after another's, in the
/// order the scanners are given.
pub fn aggregate(scans: &Vec<Vec<CommandVersion>>) -> (r: Vec<CommandVersion>)
    ensures
        candidate_models(r@) == scan_models(scans@).flatten(),
{
    let mut out: Vec<CommandVersion> = Vec::new();
    let mut i: usize = 0;
    while i < scans.len()
        invariant
            i <= scans@.len(),
            candidate_models(out@) == scan_models(scans@.subrange(0, i as int)).flatten(),
        decreases scans@.len() - i,
    {
        let scan = &scans[i];
        proof {
            assert(scan_models(scans@.subrange(0, i + 1)) =~= scan_models(scans@.subrange(0, i as int)).push(
                candidate_models(scan@),
            ));
            scan_models(scans@.subrange(0, i as int)).lemma_flatten_push(candidate_models(scan@));
        }
        let ghost base = out@;
        let mut j: usize = 0;
        while j < scan.len()
            invariant
                j <= scan@.len(),
                candidate_models(out@) == candidate_models(base) + candidate_models(scan@).subrange(0, j as int),
            decreases scan@.len() - j,
        {
            let c = scan[j].copy();
            let ghost before = out@;
            out.push(c);
            assert(candidate_models(out@) =~= candidate_models(before).push(c@));
            assert(candidate_models(scan@).subrange(0, j + 1) =~= candidate_models(scan@).subrange(0, j as int).push(
                c@,
            ));
            j = j + 1;
        }
        assert(candidate_models(scan@).subrange(0, j as int) =~= candidate_models(scan@));
        i = i + 1;
    }
    assert(scans@.subrange(0, i as int) =~= scans@);
    out
}

/// The candidates to offer the operator, or `DiscoveryEmpty` when every
/// scanner came back empty.
pub fn discover(scans: &Vec<Vec<CommandVersion>>) -> (r: Result<Vec<CommandVersion>, SessionError>)
    ensures
        r is Err <==> all_empty(scans@),
        r is Err ==> r == Err::<Vec<CommandVersion>, SessionError>(SessionError::DiscoveryEmpty),
        r is Ok ==> candidate_models(r->Ok_0@) == scan_models(scans@).flatten(),
{
    let mut i: usize = 0;
    while i < scans.len()
        invariant
            i <= scans@.len(),
            forall|j: int| 0 <= j < i ==> #[trigger] scans@[j]@.len() == 0,
        decreases scans@.len() - i,
    {
        if !scans[i].is_empty() {
            return Ok(aggregate(scans));
        }
        i = i + 1;
    }
    Err(SessionError::DiscoveryEmpty)
}

/// Records the operator's choices among `candidates` under `command`, in
/// the order chosen; with no choice the store is left as it was.
pub fn apply_selection(
    defs: &mut Definitions,
    command: &String,
    candidates: &Vec<CommandVersion>,
    choices: &Vec<usize>,
) -> (r: Result<(), SessionError>)
    requires
        old(defs).wf(),
        forall|k: int| 0 <= k < choices@.len() ==> #[trigger] choices@[k] < candidates@.len(),
    ensures
        final(defs).wf(),
        r is Err <==> choices@.len() == 0,
        r is Err ==> r == Err::<(), SessionError>(SessionError::SelectionEmpty) && final(defs)@ == old(defs)@,
        final(defs)@ == selection_applied(old(defs)@, command@, candidate_models(candidates@), choices@),
{
    if choices.is_empty() {
        return Err(SessionError::SelectionEmpty);
    }
    let ghost models = candidate_models(candidates@);
    let mut k: usize = 0;
    while k < choices.len()
        invariant
            k <= choices@.len(),
            models == candidate_models(candidates@),
            defs.wf(),
            forall|m: int| 0 <= m < choices@.len() ==> #[trigger] choices@[m] < candidates@.len(),
            defs@ == selection_applied(old(defs)@, command@, models, choices@.subrange(0, k as int)),
        decreases choices@.len() - k,
    {
        let c = &candidates[choices[k]];
        proof {
            let s = choices@.subrange(0, k + 1);
            assert(s.drop_last() =~= choices@.subrange(0, k as int));
            assert(s.last() == choices@[k as int]);
            assert(models[choices@[k as int] as int] == c@);
        }
        defs.insert(command, &c.version, &c.path);
        k = k + 1;
    }
    assert(choices@.subrange(0, k as int) =~= choices@);
    Ok(())
}

} // verus!
