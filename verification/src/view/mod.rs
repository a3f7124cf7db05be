//! The view of a protocol instance: its sequence number, the members of its
//! quorum, its leader and the number of faults it tolerates.
pub mod leader_allocation;

use crate::ordering::{spec_next_seq, NodeId, SeqNo};
use crate::view::leader_allocation::{spec_round_robin_leader, LeaderAllocator, RoundRobinLA};
use crate::{get_f_for_n, get_quorum_for_n, spec_f_for_n, spec_quorum_for_n};
use vstd::prelude::*;
use vstd::view::View as _;

verus! {

/// A view of the current quorum.
#[derive(Debug)]
pub struct View {
    seq: SeqNo,
    members: Vec<NodeId>,
    leader: NodeId,
    f: usize,
}

impl View {
    pub closed spec fn spec_seq(&self) -> SeqNo {
        self.seq
    }

    pub closed spec fn spec_members(&self) -> Seq<NodeId> {
        self.members@
    }

    pub closed spec fn spec_leader(&self) -> NodeId {
        self.leader
    }

    pub closed spec fn spec_f(&self) -> usize {
        self.f
    }

    /// The view that a quorum forms at a sequence number under round robin leadership.
    pub open spec fn is_round_robin_view(&self, seq: SeqNo, members: Seq<NodeId>) -> bool {
        &&& self.spec_seq() == seq
        &&& self.spec_members() == members
        &&& self.spec_leader() == spec_round_robin_leader(members, seq)
        &&& self.spec_f() == spec_f_for_n(members.len() as int)
    }

    pub fn new(seq: SeqNo, members: Vec<NodeId>, leader: NodeId, f: usize) -> (v: View)
        ensures
            v.spec_seq() == seq,
            v.spec_members() == members@,
            v.spec_leader() == leader,
            v.spec_f() == f,
    {
        View { seq, members, leader, f }
    }

    pub fn new_from_quorum(seq_no: SeqNo, members: Vec<NodeId>) -> (v: View)
        requires
            members.len() > 0,
        ensures
            v.is_round_robin_view(seq_no, members@),
    {
        let f = get_f_for_n(members.len());
        let leader = RoundRobinLA::allocate_leader_from(members.as_slice(), seq_no);
        View::new(seq_no, members, leader, f)
    }

    /// A view with the same quorum, whose leader a given allocation rule picks.
    pub fn new_from_quorum_with_leader_allocator<L: LeaderAllocator>(
        seq_no: SeqNo,
        members: Vec<NodeId>,
    ) -> (v: View)
        requires
            members.len() > 0,
        ensures
            v.spec_seq() == seq_no,
            v.spec_members() == members@,
            members@.contains(v.spec_leader()),
            v.spec_f() == spec_f_for_n(members.len() as int),
    {
        let f = get_f_for_n(members.len());
        let leader = L::allocate_leader_from(members.as_slice(), seq_no);
        View::new(seq_no, members, leader, f)
    }

    /// The view of the same quorum at another sequence number.
    pub fn with_new_seq(&self, seq: SeqNo) -> (v: View)
        requires
            self.spec_members().len() > 0,
        ensures
            v.is_round_robin_view(seq, self.spec_members()),
    {
        let members = self.members.clone();
        assert(members@ =~= self.members@);
        View::new_from_quorum(seq, members)
    }

    /// The view of the same quorum at the next sequence number.
    pub fn next_view(&self) -> (v: View)
        requires
            self.spec_members().len() > 0,
        ensures
            v.is_round_robin_view(spec_next_seq(self.spec_seq()), self.spec_members()),
    {
        self.with_new_seq(self.seq.next())
    }

    pub fn duplicate(&self) -> (v: View)
        ensures
            v.spec_seq() == self.spec_seq(),
            v.spec_members() == self.spec_members(),
            v.spec_leader() == self.spec_leader(),
            v.spec_f() == self.spec_f(),
    {
        let members = self.members.clone();
        assert(members@ =~= self.members@);
        View { seq: self.seq, members, leader: self.leader, f: self.f }
    }

    pub fn sequence_number(&self) -> (s: SeqNo)
        ensures
            s == self.spec_seq(),
    {
        self.seq
    }

    pub fn primary(&self) -> (l: NodeId)
        ensures
            l == self.spec_leader(),
    {
        self.leader
    }

    pub fn quorum(&self) -> (q: usize)
        requires
            self.spec_members().len() > 0,
        ensures
            q == spec_quorum_for_n(self.spec_members().len() as int),
    {
        get_quorum_for_n(self.members.len())
    }

    pub fn quorum_members(&self) -> (m: &Vec<NodeId>)
        ensures
            m@ == self.spec_members(),
    {
        &self.members
    }

    pub fn f(&self) -> (f: usize)
        ensures
            f == self.spec_f(),
    {
        self.f
    }

    pub fn n(&self) -> (n: usize)
        ensures
            n == self.spec_members().len(),
    {
        self.members.len()
    }
}

/// Changing only the sequence number of a view keeps its quorum and moves its
/// leader one member forward for every step.
pub proof fn lemma_round_robin_rotates(members: Seq<NodeId>, seq: SeqNo)
    requires
        members.len() > 0,
        seq.0 < u32::MAX,
    ensures
        spec_round_robin_leader(members, spec_next_seq(seq)) == members[((seq.0 as int) + 1)
            % (members.len() as int)],
        members.contains(spec_round_robin_leader(members, seq)),
{
    let i = (seq.0 as int) % (members.len() as int);
    assert(0 <= i < members.len());
    assert(members[i] == spec_round_robin_leader(members, seq));
}

} // verus!
