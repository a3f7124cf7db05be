//! How the leader of a view is chosen among its members.
use crate::ordering::{NodeId, SeqNo};
use vstd::prelude::*;

verus! {

/// A rule that picks the leader of a view among the members of its quorum.
pub trait LeaderAllocator {
    fn allocate_leader_from(leader_pool: &[NodeId], seq_no: SeqNo) -> (leader: NodeId)
        requires
            leader_pool@.len() > 0,
        ensures
            leader_pool@.contains(leader),
    ;
}

/// The leader of view `seq_no` under the round robin rule.
pub open spec fn spec_round_robin_leader(pool: Seq<NodeId>, seq_no: SeqNo) -> NodeId
    recommends
        pool.len() > 0,
{
    pool[(seq_no.0 as int) % (pool.len() as int)]
}

/// Leaders take turns: view `s` is led by member `s mod n`.
pub struct RoundRobinLA;

impl LeaderAllocator for RoundRobinLA {
    fn allocate_leader_from(leader_pool: &[NodeId], seq_no: SeqNo) -> (leader: NodeId)
        ensures
            leader == spec_round_robin_leader(leader_pool@, seq_no),
    {
        let index = (seq_no.into_u32() as usize) % leader_pool.len();
        leader_pool[index]
    }
}

} // verus!
