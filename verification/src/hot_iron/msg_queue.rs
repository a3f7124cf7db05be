//! The messages a decision could not handle yet, by kind. A leader takes the
//! proposals of its phase first, then the votes it gathers in that phase.
use crate::decision_tree::StoredMessage;
use crate::decisions::decision::DecisionState;
use crate::messages::{HotFeOxMsg, HotFeOxMsgType, ProposalType, VoteType};
use std::collections::VecDeque;
use vstd::prelude::*;

verus! {

/// The kinds of votes.
#[derive(Clone, Copy, Debug, PartialEq, Eq, Structural)]
pub enum VoteTypes {
    NewView,
    PrepareVote,
    PreCommitVote,
    CommitVote,
}

/// The kinds of proposals.
#[derive(Clone, Copy, Debug, PartialEq, Eq, Structural)]
pub enum ProposalTypes {
    Prepare,
    PreCommit,
    Commit,
    Decide,
}

/// The kind of a vote.
pub open spec fn vote_kind(v: VoteType) -> VoteTypes {
    match v {
        VoteType::NewView(_) => VoteTypes::NewView,
        VoteType::PrepareVote(_) => VoteTypes::PrepareVote,
        VoteType::PreCommitVote(_) => VoteTypes::PreCommitVote,
        VoteType::CommitVote(_) => VoteTypes::CommitVote,
    }
}

/// The kind of a proposal.
pub open spec fn proposal_kind<D>(p: ProposalType<D>) -> ProposalTypes {
    match p {
        ProposalType::Prepare(_, _) => ProposalTypes::Prepare,
        ProposalType::PreCommit(_) => ProposalTypes::PreCommit,
        ProposalType::Commit(_) => ProposalTypes::Commit,
        ProposalType::Decide(_) => ProposalTypes::Decide,
    }
}

/// The proposal and vote kinds a decision reads in a state: in prepare the
/// prepare proposal and new view votes, then each phase's proposal with the
/// votes of the phase before; the decide state reads new view votes.
pub open spec fn kinds_for(s: DecisionState) -> Option<(ProposalTypes, VoteTypes)> {
    match s {
        DecisionState::Prepare(_, _) => Some((ProposalTypes::Prepare, VoteTypes::NewView)),
        DecisionState::PreCommit(_, _) => Some((ProposalTypes::PreCommit, VoteTypes::PrepareVote)),
        DecisionState::Commit(_, _) => Some((ProposalTypes::Commit, VoteTypes::PreCommitVote)),
        DecisionState::Decide(_, _) => Some((ProposalTypes::Decide, VoteTypes::NewView)),
        _ => None,
    }
}

pub struct HotStuffTBOQueue<D> {
    pub get_queue: bool,
    pub new_view: VecDeque<StoredMessage<HotFeOxMsg<D>>>,
    pub prepare_vote: VecDeque<StoredMessage<HotFeOxMsg<D>>>,
    pub pre_commit_vote: VecDeque<StoredMessage<HotFeOxMsg<D>>>,
    pub commit_vote: VecDeque<StoredMessage<HotFeOxMsg<D>>>,
    pub prepare: VecDeque<StoredMessage<HotFeOxMsg<D>>>,
    pub pre_commit: VecDeque<StoredMessage<HotFeOxMsg<D>>>,
    pub commit: VecDeque<StoredMessage<HotFeOxMsg<D>>>,
    pub decide: VecDeque<StoredMessage<HotFeOxMsg<D>>>,
}

impl<D> HotStuffTBOQueue<D> {
    /// The queued votes of a kind.
    pub open spec fn votes(&self, t: VoteTypes) -> Seq<StoredMessage<HotFeOxMsg<D>>> {
        match t {
            VoteTypes::NewView => self.new_view@,
            VoteTypes::PrepareVote => self.prepare_vote@,
            VoteTypes::PreCommitVote => self.pre_commit_vote@,
            VoteTypes::CommitVote => self.commit_vote@,
        }
    }

    /// The queued proposals of a kind.
    pub open spec fn proposals(&self, t: ProposalTypes) -> Seq<StoredMessage<HotFeOxMsg<D>>> {
        match t {
            ProposalTypes::Prepare => self.prepare@,
            ProposalTypes::PreCommit => self.pre_commit@,
            ProposalTypes::Commit => self.commit@,
            ProposalTypes::Decide => self.decide@,
        }
    }

    /// Every queue but the one of `m`'s kind is as it was, and that one had `m`
    /// appended.
    pub open spec fn queued(&self, pre: &Self, m: StoredMessage<HotFeOxMsg<D>>) -> bool {
        match m.message.message {
            HotFeOxMsgType::Proposal(p) => {
                &&& self.proposals(proposal_kind(p.proposal_type)) == pre.proposals(proposal_kind(p.proposal_type)).push(m)
                &&& forall|t: ProposalTypes| t != proposal_kind(p.proposal_type) ==> #[trigger] self.proposals(t) == pre.proposals(t)
                &&& forall|t: VoteTypes| #[trigger] self.votes(t) == pre.votes(t)
            },
            HotFeOxMsgType::Vote(v) => {
                &&& self.votes(vote_kind(v.vote_type)) == pre.votes(vote_kind(v.vote_type)).push(m)
                &&& forall|t: VoteTypes| t != vote_kind(v.vote_type) ==> #[trigger] self.votes(t) == pre.votes(t)
                &&& forall|t: ProposalTypes| #[trigger] self.proposals(t) == pre.proposals(t)
            },
        }
    }

    pub fn new() -> (q: HotStuffTBOQueue<D>)
        ensures
            !q.get_queue,
            forall|t: VoteTypes| #[trigger] q.votes(t).len() == 0,
            forall|t: ProposalTypes| #[trigger] q.proposals(t).len() == 0,
    {
        HotStuffTBOQueue {
            get_queue: false,
            new_view: VecDeque::new(),
            prepare_vote: VecDeque::new(),
            pre_commit_vote: VecDeque::new(),
            commit_vote: VecDeque::new(),
            prepare: VecDeque::new(),
            pre_commit: VecDeque::new(),
            commit: VecDeque::new(),
            decide: VecDeque::new(),
        }
    }

    /// Append a message to the queue of its kind and mark the queue as worth
    /// polling.
    pub fn queue_message(&mut self, message: StoredMessage<HotFeOxMsg<D>>)
        ensures
            final(self).get_queue,
            final(self).queued(old(self), message),
    {
        self.get_queue = true;
        match &message.message.message {
            HotFeOxMsgType::Proposal(p) => match &p.proposal_type {
                ProposalType::Prepare(_, _) => self.prepare.push_back(message),
                ProposalType::PreCommit(_) => self.pre_commit.push_back(message),
                ProposalType::Commit(_) => self.commit.push_back(message),
                ProposalType::Decide(_) => self.decide.push_back(message),
            },
            HotFeOxMsgType::Vote(v) => match &v.vote_type {
                VoteType::NewView(_) => self.new_view.push_back(message),
                VoteType::PrepareVote(_) => self.prepare_vote.push_back(message),
                VoteType::PreCommitVote(_) => self.pre_commit_vote.push_back(message),
                VoteType::CommitVote(_) => self.commit_vote.push_back(message),
            },
        }
    }

    pub fn should_poll(&self) -> (b: bool)
        ensures
            b == self.get_queue,
    {
        self.get_queue
    }

    fn pop_vote(&mut self, t: VoteTypes) -> (m: Option<StoredMessage<HotFeOxMsg<D>>>)
        ensures
            final(self).get_queue == old(self).get_queue,
            old(self).votes(t).len() == 0 ==> m is None && final(self).votes(t) == old(self).votes(t),
            old(self).votes(t).len() > 0 ==> m == Some(old(self).votes(t)[0]) && final(self).votes(t)
                == old(self).votes(t).drop_first(),
            forall|u: VoteTypes| u != t ==> #[trigger] final(self).votes(u) == old(self).votes(u),
            forall|u: ProposalTypes| #[trigger] final(self).proposals(u) == old(self).proposals(u),
    {
        match t {
            VoteTypes::NewView => self.new_view.pop_front(),
            VoteTypes::PrepareVote => self.prepare_vote.pop_front(),
            VoteTypes::PreCommitVote => self.pre_commit_vote.pop_front(),
            VoteTypes::CommitVote => self.commit_vote.pop_front(),
        }
    }

    fn pop_proposal(&mut self, t: ProposalTypes) -> (m: Option<StoredMessage<HotFeOxMsg<D>>>)
        ensures
            final(self).get_queue == old(self).get_queue,
            old(self).proposals(t).len() == 0 ==> m is None && final(self).proposals(t) == old(self).proposals(t),
            old(self).proposals(t).len() > 0 ==> m == Some(old(self).proposals(t)[0]) && final(self).proposals(t)
                == old(self).proposals(t).drop_first(),
            forall|u: ProposalTypes| u != t ==> #[trigger] final(self).proposals(u) == old(self).proposals(u),
            forall|u: VoteTypes| #[trigger] final(self).votes(u) == old(self).votes(u),
    {
        match t {
            ProposalTypes::Prepare => self.prepare.pop_front(),
            ProposalTypes::PreCommit => self.pre_commit.pop_front(),
            ProposalTypes::Commit => self.commit.pop_front(),
            ProposalTypes::Decide => self.decide.pop_front(),
        }
    }

    /// A leader takes the oldest proposal of the given kind, or else the oldest
    /// vote of the given kind; a replica only the oldest vote.
    pub fn get_message_for_type(&mut self, is_leader: bool, proposal_types: ProposalTypes, vote_types: VoteTypes) -> (m:
        Option<StoredMessage<HotFeOxMsg<D>>>)
        ensures
            taken_for(*old(self), *final(self), is_leader, proposal_types, vote_types, m),
            final(self).get_queue == old(self).get_queue,
    {
        if is_leader {
            match self.pop_proposal(proposal_types) {
                Some(m) => Some(m),
                None => self.pop_vote(vote_types),
            }
        } else {
            self.pop_vote(vote_types)
        }
    }

    /// The next message for a decision in the given state (none outside the
    /// four phases); when there is none, the queue is no longer worth polling.
    pub fn get_message_for(&mut self, is_leader: bool, decision_state: &DecisionState) -> (m: Option<
        StoredMessage<HotFeOxMsg<D>>,
    >)
        ensures
            match kinds_for(*decision_state) {
                Some((p, v)) => taken_for(*old(self), *final(self), is_leader, p, v, m),
                None => m is None && final(self).same_queues(old(self)),
            },
            m is None ==> !final(self).get_queue,
            m is Some ==> final(self).get_queue == old(self).get_queue,
    {
        let result = match decision_state {
            DecisionState::Prepare(_, _) => self.get_message_for_type(is_leader, ProposalTypes::Prepare, VoteTypes::NewView),
            DecisionState::PreCommit(_, _) => self.get_message_for_type(is_leader, ProposalTypes::PreCommit, VoteTypes::PrepareVote),
            DecisionState::Commit(_, _) => self.get_message_for_type(is_leader, ProposalTypes::Commit, VoteTypes::PreCommitVote),
            DecisionState::Decide(_, _) => self.get_message_for_type(is_leader, ProposalTypes::Decide, VoteTypes::NewView),
            _ => None,
        };
        let ghost mid = *self;
        if result.is_none() {
            self.get_queue = false;
        }
        proof {
            assert forall|t: VoteTypes| #[trigger] self.votes(t) == mid.votes(t) by {}
            assert forall|t: ProposalTypes| #[trigger] self.proposals(t) == mid.proposals(t) by {}
        }
        result
    }
}

impl<D> HotStuffTBOQueue<D> {
    /// Every queue holds what the other's does.
    pub open spec fn same_queues(&self, other: &Self) -> bool {
        &&& forall|t: VoteTypes| #[trigger] self.votes(t) == other.votes(t)
        &&& forall|t: ProposalTypes| #[trigger] self.proposals(t) == other.proposals(t)
    }
}

/// What taking the next message of kinds `p` (proposals, leaders only) and
/// `v` (votes) did: the oldest message of the first non-empty of those queues
/// came out of it, or nothing when they were empty.
pub open spec fn taken_for<D>(
    pre: HotStuffTBOQueue<D>,
    post: HotStuffTBOQueue<D>,
    is_leader: bool,
    p: ProposalTypes,
    v: VoteTypes,
    m: Option<StoredMessage<HotFeOxMsg<D>>>,
) -> bool {
    if is_leader && pre.proposals(p).len() > 0 {
        &&& m == Some(pre.proposals(p)[0])
        &&& post.proposals(p) == pre.proposals(p).drop_first()
        &&& forall|u: ProposalTypes| u != p ==> #[trigger] post.proposals(u) == pre.proposals(u)
        &&& forall|u: VoteTypes| #[trigger] post.votes(u) == pre.votes(u)
    } else if pre.votes(v).len() > 0 {
        &&& m == Some(pre.votes(v)[0])
        &&& post.votes(v) == pre.votes(v).drop_first()
        &&& forall|u: VoteTypes| u != v ==> #[trigger] post.votes(u) == pre.votes(u)
        &&& forall|u: ProposalTypes| #[trigger] post.proposals(u) == pre.proposals(u)
    } else {
        m is None && post.same_queues(&pre)
    }
}

} // verus!
