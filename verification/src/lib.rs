//! HotStuff-family byzantine fault tolerant ordering protocols (basic and chained
//! HotStuff), with the decision logic of each protocol phase stated and proved.
use vstd::prelude::*;

pub mod crypto;
pub mod decision_tree;
pub mod decisions;
pub mod hot_iron;
pub mod loggable_protocol;
pub mod messages;
pub mod chained;
pub mod ordering;
pub mod view;
pub mod vote_table;

verus! {

/// The number of replicas needed to tolerate `f` faults.
pub open spec fn spec_n_for_f(f: int) -> int {
    3 * f + 1
}

/// The number of faults tolerated by a group of `n` replicas.
pub open spec fn spec_f_for_n(n: int) -> int {
    (n - 1) / 3
}

/// The size of a quorum in a group of `n` replicas.
pub open spec fn spec_quorum_for_n(n: int) -> int {
    2 * spec_f_for_n(n) + 1
}

pub fn get_n_for_f(f: usize) -> (n: usize)
    requires
        3 * f + 1 <= usize::MAX,
    ensures
        n == spec_n_for_f(f as int),
{
    3 * f + 1
}

pub fn get_quorum_for_n(n: usize) -> (q: usize)
    requires
        n >= 1,
    ensures
        q == spec_quorum_for_n(n as int),
{
    2 * get_f_for_n(n) + 1
}

pub fn get_f_for_n(n: usize) -> (f: usize)
    requires
        n >= 1,
    ensures
        f == spec_f_for_n(n as int),
{
    (n - 1) / 3
}

/// A group built for `f` faults tolerates exactly `f` faults, and its quorums
/// hold `2f + 1` replicas.
pub proof fn lemma_tolerance_round_trip(f: nat)
    ensures
        spec_f_for_n(spec_n_for_f(f as int)) == f,
        spec_quorum_for_n(spec_n_for_f(f as int)) == 2 * f + 1,
{
}

/// In any non-empty group, a quorum can be formed by the replicas that are not
/// faulty: the quorum and the tolerated faults together fit in the group, and a
/// quorum is larger than the number of faults.
pub proof fn lemma_quorum_available(n: int)
    requires
        n >= 1,
    ensures
        spec_quorum_for_n(n) + spec_f_for_n(n) <= n,
        spec_quorum_for_n(n) > spec_f_for_n(n),
        spec_f_for_n(n) >= 0,
{
}

/// In a group of `3f + 1` replicas, two quorums share at least `f + 1`
/// replicas, so at least one correct replica belongs to both.
pub proof fn lemma_quorum_intersection(f: nat)
    ensures
        2 * spec_quorum_for_n(spec_n_for_f(f as int)) - spec_n_for_f(f as int) == f + 1,
{
}

} // verus!
