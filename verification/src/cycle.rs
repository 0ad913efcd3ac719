//! The random screensaver cycle: which screensavers take part, and which
//! one runs next.

use vstd::prelude::*;
use crate::chars::{contains_chars, occurs_in, to_chars};
use crate::paths::{file_name_of, lowercase, path_file_name, paths_equal, same_path, to_lowercase};

verus! {

/// Whether `p` is this program's own executable `exe`.
pub open spec fn is_self_path(p: Seq<char>, exe: Option<Seq<char>>) -> bool {
    match exe {
        Some(e) => same_path(e, p),
        None => false,
    }
}

/// Whether the path `p` is the running executable `exe`, compared as paths.
pub fn is_self(p: &str, exe: Option<&str>) -> (r: bool)
    ensures
        r == is_self_path(p@, match exe { Some(e) => Some(e@), None => None }),
        exe is None ==> !r,
        exe matches Some(e) && e@ == p@ ==> r,
{
    match exe {
        Some(e) => paths_equal(e, p),
        None => false,
    }
}

/// Whether the file name of `p`, in lower case, contains "uninstall".
pub open spec fn is_uninstall_path(p: Seq<char>) -> bool {
    match path_file_name(p) {
        Some(f) => occurs_in(lowercase(f), seq!['u', 'n', 'i', 'n', 's', 't', 'a', 'l', 'l']),
        None => false,
    }
}

/// Whether a file name already in lower case contains "uninstall".
pub fn names_uninstaller(lower_name: &str) -> (r: bool)
    ensures
        r == occurs_in(lower_name@, seq!['u', 'n', 'i', 'n', 's', 't', 'a', 'l', 'l']),
{
    let low = to_chars(lower_name);
    contains_chars(low.as_slice(), &['u', 'n', 'i', 'n', 's', 't', 'a', 'l', 'l'])
}

/// Whether `p` names an uninstaller: its file name, in lower case,
/// contains "uninstall" (see `names_uninstaller`).
pub fn is_uninstall(p: &str) -> (r: bool)
    ensures
        r == is_uninstall_path(p@),
{
    match file_name_of(p) {
        Some(f) => names_uninstaller(to_lowercase(f.as_str()).as_str()),
        None => false,
    }
}

/// Whether a selected path takes part in the cycle: it exists, it is not
/// this program and it is not an uninstaller.
pub open spec fn cycle_candidate(p: Seq<char>, exists: bool, exe: Option<Seq<char>>) -> bool {
    exists && !is_self_path(p, exe) && !is_uninstall_path(p)
}

/// The selected paths that take part in the cycle, in order.
pub open spec fn cycle_candidates_of(paths: Seq<Seq<char>>, exists: Seq<bool>, exe: Option<Seq<char>>) -> Seq<Seq<char>>
    decreases paths.len(),
{
    if paths.len() == 0 {
        seq![]
    } else {
        let rest = cycle_candidates_of(paths.drop_last(), exists.drop_last(), exe);
        if cycle_candidate(paths.last(), exists.last(), exe) {
            rest.push(paths.last())
        } else {
            rest
        }
    }
}

/// The paths whose flag in `keep` is set, in order.
pub open spec fn kept(paths: Seq<Seq<char>>, keep: Seq<bool>) -> Seq<Seq<char>>
    decreases paths.len(),
{
    if paths.len() == 0 {
        seq![]
    } else {
        let rest = kept(paths.drop_last(), keep.drop_last());
        if keep.last() {
            rest.push(paths.last())
        } else {
            rest
        }
    }
}

/// The paths whose flag in `keep` is set, in order.
pub fn filter_paths(paths: &Vec<String>, keep: &[bool]) -> (r: Vec<String>)
    requires
        paths@.len() == keep@.len(),
    ensures
        r.deep_view() == kept(paths.deep_view(), keep@),
{
    let mut r: Vec<String> = Vec::new();
    let mut i: usize = 0;
    while i < paths.len()
        invariant
            paths@.len() == keep@.len(),
            i <= paths@.len(),
            r.deep_view() == kept(paths.deep_view().take(i as int), keep@.take(i as int)),
        decreases paths@.len() - i,
    {
        proof {
            assert(paths.deep_view().take(i + 1).drop_last() =~= paths.deep_view().take(i as int));
            assert(keep@.take(i + 1).drop_last() =~= keep@.take(i as int));
        }
        if keep[i] {
            let ghost old_r = r.deep_view();
            r.push(paths[i].clone());
            assert(r.deep_view() =~= old_r.push(paths@[i as int]@));
        }
        i = i + 1;
    }
    assert(paths.deep_view().take(i as int) =~= paths.deep_view());
    assert(keep@.take(i as int) =~= keep@);
    r
}

/// Whether each path takes part in the cycle.
pub open spec fn candidate_flags(paths: Seq<Seq<char>>, exists: Seq<bool>, exe: Option<Seq<char>>) -> Seq<bool> {
    Seq::new(paths.len(), |i: int| cycle_candidate(paths[i], exists[i], exe))
}

proof fn lemma_kept_flags(paths: Seq<Seq<char>>, exists: Seq<bool>, exe: Option<Seq<char>>)
    requires
        paths.len() == exists.len(),
    ensures
        kept(paths, candidate_flags(paths, exists, exe)) == cycle_candidates_of(paths, exists, exe),
    decreases paths.len(),
{
    if paths.len() > 0 {
        let pre = paths.drop_last();
        assert(candidate_flags(paths, exists, exe).drop_last() =~= candidate_flags(pre, exists.drop_last(), exe));
        lemma_kept_flags(pre, exists.drop_last(), exe);
    }
}

/// The selected screensaver paths that the cycle runs: those that exist
/// (`exists` holds a flag for each path), are not this program's executable
/// and are not uninstallers.
pub fn cycle_candidates(paths: &Vec<String>, exists: &[bool], exe: Option<&str>) -> (r: Vec<String>)
    requires
        paths@.len() == exists@.len(),
    ensures
        r.deep_view() == cycle_candidates_of(paths.deep_view(), exists@, match exe { Some(e) => Some(e@), None => None }),
{
    let ghost ex = match exe { Some(e) => Some(e@), None => None };
    let mut keep: Vec<bool> = Vec::new();
    let mut i: usize = 0;
    while i < paths.len()
        invariant
            paths@.len() == exists@.len(),
            i <= paths@.len(),
            ex == match exe { Some(e) => Some(e@), None => None },
            keep@ == candidate_flags(paths.deep_view(), exists@, ex).take(i as int),
        decreases paths@.len() - i,
    {
        let p = &paths[i];
        let k = exists[i] && !is_self(p.as_str(), exe) && !is_uninstall(p.as_str());
        keep.push(k);
        i = i + 1;
        assert(keep@ =~= candidate_flags(paths.deep_view(), exists@, ex).take(i as int));
    }
    assert(keep@ =~= candidate_flags(paths.deep_view(), exists@, ex));
    proof {
        lemma_kept_flags(paths.deep_view(), exists@, ex);
    }
    filter_paths(paths, keep.as_slice())
}

/// The multiplier of the cycle's pseudo-random sequence.
pub open spec fn lcg_mul() -> u64 {
    6364136223846793005
}

/// The increment of the cycle's pseudo-random sequence.
pub open spec fn lcg_inc() -> u64 {
    1442695040888963407
}

/// The next seed of the cycle: `seed * 6364136223846793005 +
/// 1442695040888963407`, wrapping at 2^64.
pub open spec fn next_seed(seed: u64) -> u64 {
    vstd::wrapping::u64_specs::wrapping_add(
        vstd::wrapping::u64_specs::wrapping_mul(seed, lcg_mul()),
        lcg_inc(),
    )
}

/// What happened to the cycle since its last action.
#[derive(Clone, Copy, Debug, PartialEq, Eq, Structural)]
pub enum CycleEvent {
    /// The cycle is starting.
    Started,
    /// The running screensaver ran for the whole cycle interval.
    TimedOut,
    /// The running screensaver exited (or could not be waited on).
    Exited,
    /// The chosen screensaver could not be started.
    SpawnFailed,
}

/// What the cycle does next.
#[derive(Clone, Copy, Debug, PartialEq, Eq, Structural)]
pub enum CycleAction {
    /// Start the candidate at this position.
    Launch(usize),
    /// End the cycle.
    Stop,
}

/// The seed and action after `event`: when the cycle starts or a
/// screensaver's time is up, the seed advances and the candidate at the new
/// seed modulo the number of candidates is launched; with no candidates,
/// or once a screensaver exited or failed to start, the cycle stops.
pub open spec fn cycle_next(seed: u64, count: usize, event: CycleEvent) -> (u64, CycleAction) {
    match event {
        CycleEvent::Started | CycleEvent::TimedOut => if count == 0 {
            (seed, CycleAction::Stop)
        } else {
            let s = next_seed(seed);
            (s, CycleAction::Launch(((s as usize) % count) as usize))
        },
        CycleEvent::Exited | CycleEvent::SpawnFailed => (seed, CycleAction::Stop),
    }
}

/// The next step of the screensaver cycle (see `cycle_next`).
pub fn cycle_step(seed: u64, count: usize, event: CycleEvent) -> (r: (u64, CycleAction))
    ensures
        r == cycle_next(seed, count, event),
{
    match event {
        CycleEvent::Started | CycleEvent::TimedOut => {
            if count == 0 {
                (seed, CycleAction::Stop)
            } else {
                let s = seed.wrapping_mul(6364136223846793005).wrapping_add(1442695040888963407);
                (s, CycleAction::Launch((s as usize) % count))
            }
        },
        CycleEvent::Exited | CycleEvent::SpawnFailed => (seed, CycleAction::Stop),
    }
}

/// A launched position is always a candidate's.
pub proof fn lemma_cycle_launches_a_candidate(seed: u64, count: usize, event: CycleEvent)
    ensures
        cycle_next(seed, count, event).1 matches CycleAction::Launch(i) ==> i < count,
{
}

/// The cycle never runs this program itself nor an uninstaller, and only
/// runs paths that exist.
pub proof fn lemma_candidates_are_safe(paths: Seq<Seq<char>>, exists: Seq<bool>, exe: Option<Seq<char>>)
    requires
        paths.len() == exists.len(),
    ensures
        forall|k: int|
            0 <= k < cycle_candidates_of(paths, exists, exe).len() ==> {
                let p = #[trigger] cycle_candidates_of(paths, exists, exe)[k];
                !is_self_path(p, exe) && !is_uninstall_path(p) && exists|i: int|
                    0 <= i < paths.len() && paths[i] == p && exists[i]
            },
    decreases paths.len(),
{
    if paths.len() > 0 {
        lemma_candidates_are_safe(paths.drop_last(), exists.drop_last(), exe);
        let rest = cycle_candidates_of(paths.drop_last(), exists.drop_last(), exe);
        let all = cycle_candidates_of(paths, exists, exe);
        assert forall|k: int| 0 <= k < all.len() implies {
            let p = #[trigger] all[k];
            !is_self_path(p, exe) && !is_uninstall_path(p) && exists|i: int|
                0 <= i < paths.len() && paths[i] == p && exists[i]
        } by {
            if k < rest.len() {
                assert(all[k] == rest[k]);
                let i = choose|i: int|
                    0 <= i < paths.drop_last().len() && paths.drop_last()[i] == rest[k] && exists.drop_last()[i];
                assert(paths[i] == rest[k] && exists[i]);
            } else {
                assert(all[k] == paths.last());
                assert(paths[paths.len() - 1] == paths.last());
            }
        }
    }
}

} // verus!
