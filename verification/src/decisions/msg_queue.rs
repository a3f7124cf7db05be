//! The queue of messages a decision received before it could handle them,
//! kept per protocol phase.
use crate::decision_tree::StoredMessage;
use crate::messages::{HotFeOxMsg, HotFeOxMsgType, ProposalType, VoteType};
use std::collections::VecDeque;
use vstd::prelude::*;

verus! {

/// The phase queues a message can be kept in.
#[derive(Clone, Copy, Debug, PartialEq, Eq, Structural)]
pub enum PhaseQueue {
    NewView,
    Prepare,
    PreCommit,
    Commit,
    Decide,
}

/// The phase queue a message belongs to: proposals and votes of a phase share
/// its queue, and new view votes have their own.
pub open spec fn queue_of<D>(message: HotFeOxMsgType<D>) -> PhaseQueue {
    match message {
        HotFeOxMsgType::Proposal(prop) => match prop.proposal_type {
            ProposalType::Prepare(_, _) => PhaseQueue::Prepare,
            ProposalType::PreCommit(_) => PhaseQueue::PreCommit,
            ProposalType::Commit(_) => PhaseQueue::Commit,
            ProposalType::Decide(_) => PhaseQueue::Decide,
        },
        HotFeOxMsgType::Vote(vote) => match vote.vote_type {
            VoteType::PrepareVote(_) => PhaseQueue::Prepare,
            VoteType::PreCommitVote(_) => PhaseQueue::PreCommit,
            VoteType::CommitVote(_) => PhaseQueue::Commit,
            VoteType::NewView(_) => PhaseQueue::NewView,
        },
    }
}

pub struct HotStuffTBOQueue<D> {
    pub get_queue: bool,
    pub new_view: VecDeque<StoredMessage<HotFeOxMsg<D>>>,
    pub prepare: VecDeque<StoredMessage<HotFeOxMsg<D>>>,
    pub pre_commit: VecDeque<StoredMessage<HotFeOxMsg<D>>>,
    pub commit: VecDeque<StoredMessage<HotFeOxMsg<D>>>,
    pub decide: VecDeque<StoredMessage<HotFeOxMsg<D>>>,
}

impl<D> HotStuffTBOQueue<D> {
    /// The contents of one phase queue.
    pub open spec fn queue(&self, q: PhaseQueue) -> Seq<StoredMessage<HotFeOxMsg<D>>> {
        match q {
            PhaseQueue::NewView => self.new_view@,
            PhaseQueue::Prepare => self.prepare@,
            PhaseQueue::PreCommit => self.pre_commit@,
            PhaseQueue::Commit => self.commit@,
            PhaseQueue::Decide => self.decide@,
        }
    }

    pub fn new() -> (q: HotStuffTBOQueue<D>)
        ensures
            !q.get_queue,
            forall|p: PhaseQueue| #[trigger] q.queue(p) == Seq::<StoredMessage<HotFeOxMsg<D>>>::empty(),
    {
        let q = HotStuffTBOQueue {
            get_queue: false,
            new_view: VecDeque::new(),
            prepare: VecDeque::new(),
            pre_commit: VecDeque::new(),
            commit: VecDeque::new(),
            decide: VecDeque::new(),
        };
        proof {
            assert forall|p: PhaseQueue| #[trigger] q.queue(p) == Seq::<StoredMessage<HotFeOxMsg<D>>>::empty() by {
                match p {
                    PhaseQueue::NewView => {},
                    PhaseQueue::Prepare => {},
                    PhaseQueue::PreCommit => {},
                    PhaseQueue::Commit => {},
                    PhaseQueue::Decide => {},
                }
            }
        }
        q
    }

    /// Appends the message to the queue of its phase and marks the queue as
    /// worth polling.
    pub fn queue_message(&mut self, message: StoredMessage<HotFeOxMsg<D>>)
        ensures
            final(self).get_queue,
            final(self).queue(queue_of(message.message.message)) == old(self).queue(
                queue_of(message.message.message),
            ).push(message),
            forall|p: PhaseQueue|
                p != queue_of(message.message.message) ==> #[trigger] final(self).queue(p) == old(
                    self,
                ).queue(p),
    {
        self.get_queue = true;
        let ghost q = queue_of(message.message.message);
        let target = match &message.message.message {
            HotFeOxMsgType::Proposal(prop) => match &prop.proposal_type {
                ProposalType::Prepare(_, _) => PhaseQueue::Prepare,
                ProposalType::PreCommit(_) => PhaseQueue::PreCommit,
                ProposalType::Commit(_) => PhaseQueue::Commit,
                ProposalType::Decide(_) => PhaseQueue::Decide,
            },
            HotFeOxMsgType::Vote(vote) => match &vote.vote_type {
                VoteType::PrepareVote(_) => PhaseQueue::Prepare,
                VoteType::PreCommitVote(_) => PhaseQueue::PreCommit,
                VoteType::CommitVote(_) => PhaseQueue::Commit,
                VoteType::NewView(_) => PhaseQueue::NewView,
            },
        };
        match target {
            PhaseQueue::NewView => self.new_view.push_back(message),
            PhaseQueue::Prepare => self.prepare.push_back(message),
            PhaseQueue::PreCommit => self.pre_commit.push_back(message),
            PhaseQueue::Commit => self.commit.push_back(message),
            PhaseQueue::Decide => self.decide.push_back(message),
        }
        proof {
            assert forall|p: PhaseQueue| p != q implies #[trigger] self.queue(p) == old(self).queue(p) by {
                match p {
                    PhaseQueue::NewView => {},
                    PhaseQueue::Prepare => {},
                    PhaseQueue::PreCommit => {},
                    PhaseQueue::Commit => {},
                    PhaseQueue::Decide => {},
                }
            }
        }
    }

    /// Takes the oldest message of a phase queue.
    pub fn pop_front(&mut self, q: PhaseQueue) -> (m: Option<StoredMessage<HotFeOxMsg<D>>>)
        ensures
            final(self).get_queue == old(self).get_queue,
            old(self).queue(q).len() == 0 ==> m is None && final(self).queue(q) == old(self).queue(q),
            old(self).queue(q).len() > 0 ==> m == Some(old(self).queue(q)[0]) && final(self).queue(q)
                == old(self).queue(q).drop_first(),
            forall|p: PhaseQueue| p != q ==> #[trigger] final(self).queue(p) == old(self).queue(p),
    {
        let m = match q {
            PhaseQueue::NewView => self.new_view.pop_front(),
            PhaseQueue::Prepare => self.prepare.pop_front(),
            PhaseQueue::PreCommit => self.pre_commit.pop_front(),
            PhaseQueue::Commit => self.commit.pop_front(),
            PhaseQueue::Decide => self.decide.pop_front(),
        };
        proof {
            assert forall|p: PhaseQueue| p != q implies #[trigger] self.queue(p) == old(self).queue(p) by {
                match p {
                    PhaseQueue::NewView => {},
                    PhaseQueue::Prepare => {},
                    PhaseQueue::PreCommit => {},
                    PhaseQueue::Commit => {},
                    PhaseQueue::Decide => {},
                }
            }
        }
        m
    }

    pub fn signal(&mut self)
        ensures
            final(self).get_queue,
            forall|p: PhaseQueue| #[trigger] final(self).queue(p) == old(self).queue(p),
    {
        self.get_queue = true;
    }

    pub fn should_poll(&self) -> (b: bool)
        ensures
            b == self.get_queue,
    {
        self.get_queue
    }
}

} // verus!
