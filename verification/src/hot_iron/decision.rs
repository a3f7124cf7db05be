//! One decision of the second generation protocol. The leader gathers the
//! votes of every phase with one routine and, with a quorum, broadcasts the
//! next proposal; replicas vote for the proposals of their leader. What must be
//! signed and sent is left in the decision's outbox for the caller.
use crate::crypto::{CryptoProvider, CryptoSignatureCombiner};
use crate::decision_tree::{node_copied, DecisionNode, DecisionNodeHeader, ProtocolConsensusDecision, rq_infos_of, SessionBased, StoredMessage};
use crate::decisions::decision::{
    is_broadcast, is_send_vote, proposals_from_pool, past_prepare, phase_vote, proposal_carries, proposal_of, proposed_header,
    vote_of, DecisionAction, DecisionFinalizationResult, DecisionPollResult, DecisionResult,
    DecisionState, not_behind, phase_rank,
};
use crate::decisions::log::{
    generated_from, new_view_combination_failed, new_view_qc_from, DecisionLog, DecisionLogType, LeaderDecisionLog,
    MsgDecisionLog, MsgLeaderDecisionLog, MsgReplicaDecisionLog, NewViewAcceptError,
    NewViewGenerateError, ReplicaDecisionLog, VoteAcceptError, VoteStoreError,
};
use crate::decisions::req_aggr::ReqAggregator;
use crate::decisions::{opt_qc_rank, opt_qc_view, safe_node_rule, DecisionHandler, QCType, QCView, QC};
use crate::hot_iron::msg_queue::{kinds_for, proposal_kind, taken_for, vote_kind, HotStuffTBOQueue, ProposalTypes, VoteTypes};
use crate::messages::{HotFeOxMsg, HotFeOxMsgType, ProposalMessage, ProposalType, VoteMessage, VoteType, VoteTypeView};
use crate::ordering::{NodeId, SeqNo};
use crate::spec_quorum_for_n;
use crate::view::View;
use crate::vote_table::with_vote;
use vstd::prelude::*;
use vstd::view::View as _;

verus! {

#[derive(Debug)]
pub enum DecisionError<CS> {
    PrepareMessageWithEmptyQC,
    NoQCAvailable,
    VoteAcceptError(VoteAcceptError),
    VoteStoreError(VoteStoreError<CS>),
    NewViewAcceptError(NewViewAcceptError),
    NewViewGenerateError(NewViewGenerateError<CS>),
    InvalidState,
    NoLeaderMessageLog,
    InvalidDecisionNode,
}

/// The decision for a given object
pub struct HSDecision<D> {
    pub view: View,
    pub node_id: NodeId,
    pub current_state: DecisionState,
    pub decision_queue: HotStuffTBOQueue<D>,
    pub msg_decision_log: MsgDecisionLog,
    pub decision_log: DecisionLog<D>,
    pub outbox: Vec<DecisionAction<D>>,
}

/// `s` with the given proposal flag and vote count, in the same phase.
pub open spec fn with_counts(s: DecisionState, sent: bool, received: usize) -> DecisionState {
    match s {
        DecisionState::Prepare(_, _) => DecisionState::Prepare(sent, received),
        DecisionState::PreCommit(_, _) => DecisionState::PreCommit(sent, received),
        DecisionState::Commit(_, _) => DecisionState::Commit(sent, received),
        DecisionState::Decide(_, _) => DecisionState::Decide(sent, received),
        _ => s,
    }
}

/// The proposal flag and vote count of a phase state.
pub open spec fn counts_of(s: DecisionState) -> (bool, usize) {
    match s {
        DecisionState::Prepare(a, b) => (a, b),
        DecisionState::PreCommit(a, b) => (a, b),
        DecisionState::Commit(a, b) => (a, b),
        DecisionState::Decide(a, b) => (a, b),
        _ => (false, 0),
    }
}

/// The four phase states.
pub open spec fn is_phase(s: DecisionState) -> bool {
    s is Prepare || s is PreCommit || s is Commit || s is Decide
}

impl<D> HSDecision<D> {
    pub open spec fn spec_is_leader(&self) -> bool {
        self.view.spec_leader() == self.node_id
    }

    pub open spec fn spec_seq(&self) -> SeqNo {
        self.view.spec_seq()
    }

    pub open spec fn leader_log(&self) -> MsgLeaderDecisionLog {
        self.msg_decision_log->Leader_0
    }

    pub open spec fn wf(&self) -> bool {
        &&& self.view.spec_members().len() > 0
        &&& self.spec_is_leader() == (self.msg_decision_log is Leader)
        &&& self.msg_decision_log matches MsgDecisionLog::Leader(l) ==> l.wf()
        &&& past_prepare(self.current_state) ==> self.decision_log.current_proposal is Some
    }

    /// Everything but the queues is as it was.
    pub open spec fn same_but_queue(&self, other: &Self) -> bool {
        &&& self.view == other.view
        &&& self.node_id == other.node_id
        &&& self.current_state == other.current_state
        &&& self.msg_decision_log == other.msg_decision_log
        &&& self.decision_log == other.decision_log
        &&& self.outbox == other.outbox
    }

    /// The message was put in the queue of its kind, and nothing else changed.
    pub open spec fn queued_by(&self, pre: &Self, message: StoredMessage<HotFeOxMsg<D>>) -> bool {
        &&& self.same_but_queue(pre)
        &&& self.decision_queue.get_queue
        &&& self.decision_queue.queued(&pre.decision_queue, message)
    }
}

/// The leader routine of one vote, in a phase state: the vote is recorded
/// and counted; the vote that completes a quorum makes the leader broadcast
/// the next proposal, built from the votes of the phase (a new node on the
/// highest reported certificate in the prepare phase).
pub open spec fn hi_leader_step<D, CP: CryptoSignatureCombiner>(
    pre: HSDecision<D>,
    post: HSDecision<D>,
    message: StoredMessage<HotFeOxMsg<D>>,
    crypto: CP,
    r: Result<DecisionResult<D>, DecisionError<CP::CombinationError>>,
) -> bool {
    let vote = vote_of(message).unwrap();
    let from = message.header.from;
    let (sent, received) = counts_of(pre.current_state);
    let rec = (received + 1) as usize;
    let quorum = spec_quorum_for_n(pre.view.spec_members().len() as int);
    let seq = pre.spec_seq();
    &&& post.view == pre.view
    &&& post.node_id == pre.node_id
    &&& post.decision_queue == pre.decision_queue
    &&& post.decision_log == pre.decision_log
    &&& post.msg_decision_log is Leader
    &&& match vote.vote_type {
        VoteType::NewView(q) => {
            &&& post.leader_log().high_qc.new_view@ == with_vote(
                pre.leader_log().high_qc.new_view@,
                opt_qc_view(q),
                from,
                vote.signature@,
            )
            &&& post.leader_log().prepare_qc == pre.leader_log().prepare_qc
            &&& post.leader_log().pre_commit_qc == pre.leader_log().pre_commit_qc
            &&& post.leader_log().commit_qc == pre.leader_log().commit_qc
        },
        _ => {
            let (t, n) = phase_vote(vote.vote_type).unwrap();
            &&& post.leader_log().high_qc == pre.leader_log().high_qc
            &&& post.leader_log().store_for(t).decision_nodes@ == with_vote(
                pre.leader_log().store_for(t).decision_nodes@,
                n,
                from,
                vote.signature@,
            )
            &&& forall|u: QCType| u != t ==> #[trigger] post.leader_log().store_for(u) == pre.leader_log().store_for(u)
        },
    }
    &&& if rec >= quorum && !sent {
        &&& post.current_state == with_counts(pre.current_state, true, rec)
        &&& match vote.vote_type {
            VoteType::NewView(_) => {
                let store = post.leader_log().high_qc.new_view@;
                match r {
                    Ok(DecisionResult::DecisionProgressed(None, None, m)) => m == message && post.outbox@.len()
                        == pre.outbox@.len() + 1 && post.outbox@.drop_last() == pre.outbox@
                        && exists|h: DecisionNodeHeader, qc: QC| #[trigger] new_view_qc_from(
                        store,
                        h,
                        crypto,
                        Ok::<QC, NewViewGenerateError<CP::CombinationError>>(qc),
                    ) && proposed_header(store, seq, h) && is_broadcast(
                        post.outbox@.last(),
                        seq,
                        pre.view.spec_members(),
                        |p: ProposalType<D>| (p matches ProposalType::Prepare(node, q) && node.decision_header == h
                            && q@ == qc@),
                    ),
                    Err(DecisionError::NewViewGenerateError(NewViewGenerateError::FailedToCombinePartialSignatures(_))) => post.outbox
                        == pre.outbox && new_view_combination_failed(store, crypto),
                    _ => false,
                }
            },
            _ => {
                let (t, _) = phase_vote(vote.vote_type).unwrap();
                let store = post.leader_log().store_for(t).decision_nodes@;
                match r {
                    Ok(DecisionResult::DecisionProgressed(None, None, m)) => m == message && post.outbox@.len()
                        == pre.outbox@.len() + 1 && post.outbox@.drop_last() == pre.outbox@
                        && exists|qc: QC| #[trigger] generated_from(store, t, seq, crypto, Ok(qc)) && is_broadcast(
                        post.outbox@.last(),
                        seq,
                        pre.view.spec_members(),
                        |p: ProposalType<D>| proposal_carries(t, p, qc@),
                    ),
                    Err(DecisionError::VoteStoreError(e)) => generated_from(store, t, seq, crypto, Err(e))
                        && post.outbox == pre.outbox,
                    _ => false,
                }
            },
        }
    } else if sent {
        &&& post.current_state == with_counts(pre.current_state, sent, rec)
        &&& post.outbox == pre.outbox
        &&& r == Ok::<DecisionResult<D>, DecisionError<CP::CombinationError>>(DecisionResult::MessageIgnored)
    } else {
        &&& post.current_state == with_counts(pre.current_state, sent, rec)
        &&& post.outbox == pre.outbox
        &&& r == Ok::<DecisionResult<D>, DecisionError<CP::CombinationError>>(DecisionResult::DecisionProgressed(None, None, message))
    }
}

/// The replica routine of a proposal of the kind its phase expects.
pub open spec fn hi_replica_step<D: Clone, CS>(
    pre: HSDecision<D>,
    post: HSDecision<D>,
    pre_h: DecisionHandler,
    post_h: DecisionHandler,
    message: StoredMessage<HotFeOxMsg<D>>,
    r: Result<DecisionResult<D>, DecisionError<CS>>,
) -> bool {
    let seq = pre.spec_seq();
    let leader = pre.view.spec_leader();
    let frame = post.view == pre.view && post.node_id == pre.node_id && post.decision_queue
        == pre.decision_queue && post.msg_decision_log == pre.msg_decision_log;
    match proposal_of(message).unwrap() {
        ProposalType::Prepare(node, qc) => if !safe_node_rule(node.decision_header, qc@, opt_qc_view(pre_h.latest_qc)) {
            r == Err::<DecisionResult<D>, DecisionError<CS>>(DecisionError::InvalidDecisionNode) && post == pre
                && post_h == pre_h
        } else {
            &&& frame
            &&& post.current_state == DecisionState::PreCommit(false, 0)
            &&& post.decision_log.current_proposal matches Some(n) && node_copied(node, n)
            &&& post.decision_log.decision_log_type == pre.decision_log.decision_log_type
            &&& opt_qc_view(post_h.latest_prepare_qc) == Some(qc@)
            &&& post_h.latest_qc == pre_h.latest_qc
            &&& post_h.latest_locked_qc == pre_h.latest_locked_qc
            &&& post.outbox@.len() == pre.outbox@.len() + 1
            &&& post.outbox@.drop_last() == pre.outbox@
            &&& is_send_vote(post.outbox@.last(), seq, VoteTypeView::PrepareVote(node.decision_header), leader)
            &&& r matches Ok(DecisionResult::DecisionProgressed(Some(q), Some(n), m)) && q@ == qc@ && n
                == qc.decision_node && m == message
        },
        ProposalType::PreCommit(qc) => {
            &&& frame
            &&& post.decision_log == pre.decision_log
            &&& post_h == pre_h
            &&& post.current_state == DecisionState::Commit(false, 0)
            &&& post.outbox@.len() == pre.outbox@.len() + 1
            &&& post.outbox@.drop_last() == pre.outbox@
            &&& is_send_vote(post.outbox@.last(), seq, VoteTypeView::PreCommitVote(qc.decision_node), leader)
            &&& r matches Ok(DecisionResult::DecisionProgressed(Some(q), None, m)) && q@ == qc@ && m == message
        },
        ProposalType::Commit(qc) => {
            &&& frame
            &&& post.decision_log == pre.decision_log
            &&& post_h == pre_h
            &&& post.current_state == DecisionState::Decide(false, 0)
            &&& post.outbox@.len() == pre.outbox@.len() + 1
            &&& post.outbox@.drop_last() == pre.outbox@
            &&& is_send_vote(post.outbox@.last(), seq, VoteTypeView::CommitVote(qc.decision_node), leader)
            &&& r matches Ok(DecisionResult::DecisionProgressed(Some(q), None, m)) && q@ == qc@ && m == message
        },
        ProposalType::Decide(qc) => {
            &&& frame
            &&& post.decision_log == pre.decision_log
            &&& post_h == pre_h
            &&& post.current_state == DecisionState::Finally
            &&& post.outbox == pre.outbox
            &&& r matches Ok(DecisionResult::Decided(Some(q), m)) && q@ == qc@ && m == message
        },
    }
}

/// The proposal kind each phase state handles.
pub open spec fn expected_proposal(s: DecisionState) -> ProposalTypes {
    match s {
        DecisionState::Prepare(_, _) => ProposalTypes::Prepare,
        DecisionState::PreCommit(_, _) => ProposalTypes::PreCommit,
        DecisionState::Commit(_, _) => ProposalTypes::Commit,
        _ => ProposalTypes::Decide,
    }
}

/// The vote kind the leader gathers in each phase state.
pub open spec fn expected_vote(s: DecisionState) -> VoteTypes {
    match s {
        DecisionState::Prepare(_, _) => VoteTypes::NewView,
        DecisionState::PreCommit(_, _) => VoteTypes::PrepareVote,
        DecisionState::Commit(_, _) => VoteTypes::PreCommitVote,
        _ => VoteTypes::CommitVote,
    }
}

/// Whether a message the phase does not handle now is kept for later:
/// proposals of later phases, and votes the leader gathers later (all votes
/// but the gathered ones while preparing).
pub open spec fn kept_for_later<D>(s: DecisionState, m: StoredMessage<HotFeOxMsg<D>>) -> bool {
    match m.message.message {
        HotFeOxMsgType::Proposal(p) => match (s, proposal_kind(p.proposal_type)) {
            (DecisionState::Prepare(_, _), _) => true,
            (DecisionState::PreCommit(_, _), ProposalTypes::Commit) => true,
            (DecisionState::PreCommit(_, _), ProposalTypes::Decide) => true,
            (DecisionState::Commit(_, _), ProposalTypes::Decide) => true,
            _ => false,
        },
        HotFeOxMsgType::Vote(v) => match (s, vote_kind(v.vote_type)) {
            (DecisionState::Prepare(_, _), _) => true,
            (DecisionState::PreCommit(_, _), _) => true,
            (DecisionState::Commit(_, _), VoteTypes::PrepareVote) => false,
            (DecisionState::Commit(_, _), _) => true,
            _ => false,
        },
    }
}

/// The vote type a vote message carries.
pub open spec fn vote_view_type<D>(m: StoredMessage<HotFeOxMsg<D>>) -> VoteType {
    vote_of(m).unwrap().vote_type
}

/// One step of a decision on a message.
pub open spec fn hi_step<D: Clone, CP: CryptoSignatureCombiner>(
    pre: HSDecision<D>,
    post: HSDecision<D>,
    pre_h: DecisionHandler,
    post_h: DecisionHandler,
    message: StoredMessage<HotFeOxMsg<D>>,
    crypto: CP,
    r: Result<DecisionResult<D>, DecisionError<CP::CombinationError>>,
) -> bool {
    let ignored = r == Ok::<DecisionResult<D>, DecisionError<CP::CombinationError>>(DecisionResult::MessageIgnored) && post == pre
        && post_h == pre_h;
    let queued = r == Ok::<DecisionResult<D>, DecisionError<CP::CombinationError>>(DecisionResult::MessageQueued) && post.queued_by(&pre, message)
        && post_h == pre_h;
    if message.message.curr_view != pre.spec_seq() {
        ignored
    } else {
        match pre.current_state {
            DecisionState::Init => queued,
            DecisionState::Finally | DecisionState::NextView => ignored,
            _ => if pre.spec_is_leader() && message.message.message is Vote {
                let vote = vote_of(message).unwrap();
                if vote_kind(vote.vote_type) == expected_vote(pre.current_state) {
                    hi_leader_step(pre, post, message, crypto, r) && post_h == pre_h
                } else if kept_for_later(pre.current_state, message) {
                    queued
                } else {
                    ignored
                }
            } else if !(proposal_of(message) is Some && message.header.from == pre.view.spec_leader()) {
                ignored
            } else if proposal_kind(proposal_of(message).unwrap()) == expected_proposal(pre.current_state) {
                hi_replica_step(pre, post, pre_h, post_h, message, r)
            } else if kept_for_later(pre.current_state, message) {
                queued
            } else {
                ignored
            },
        }
    }
}

/// One poll of a decision.
pub open spec fn hi_polled<D>(pre: HSDecision<D>, post: HSDecision<D>, h: DecisionHandler, r: DecisionPollResult<D>) -> bool {
    &&& post.view == pre.view
    &&& post.node_id == pre.node_id
    &&& post.msg_decision_log == pre.msg_decision_log
    &&& post.decision_log == pre.decision_log
    &&& match pre.current_state {
        DecisionState::Init => {
            &&& r is Recv
            &&& post.current_state == DecisionState::Prepare(false, 0)
            &&& post.decision_queue == pre.decision_queue
            &&& post.outbox@.len() == pre.outbox@.len() + 1
            &&& post.outbox@.drop_last() == pre.outbox@
            &&& is_send_vote(post.outbox@.last(), pre.spec_seq(), VoteTypeView::NewView(opt_qc_view(h.latest_qc)), pre.view.spec_leader())
        },
        DecisionState::Finally => r is Decided && post == pre,
        _ => if is_phase(pre.current_state) && pre.decision_queue.get_queue {
            let (p, v) = kinds_for(pre.current_state).unwrap();
            &&& post.current_state == pre.current_state
            &&& post.outbox == pre.outbox
            &&& exists|m: Option<StoredMessage<HotFeOxMsg<D>>>| #[trigger] taken_for(pre.decision_queue, post.decision_queue, pre.spec_is_leader(), p, v, m)
                && match m {
                Some(msg) => r == DecisionPollResult::NextMessage(msg) && post.decision_queue.get_queue,
                None => r is Recv && !post.decision_queue.get_queue,
            }
        } else {
            r is Recv && post == pre
        },
    }
}

/// A decision never goes back: handling a message leaves it in the same phase
/// or a later one, a leader that proposed in a phase stays so, and the count of
/// votes of the phase never drops.
pub proof fn lemma_hi_step_never_goes_back<D: Clone, CP: CryptoSignatureCombiner>(
    pre: HSDecision<D>,
    post: HSDecision<D>,
    pre_h: DecisionHandler,
    post_h: DecisionHandler,
    message: StoredMessage<HotFeOxMsg<D>>,
    crypto: CP,
    r: Result<DecisionResult<D>, DecisionError<CP::CombinationError>>,
)
    requires
        hi_step(pre, post, pre_h, post_h, message, crypto, r),
        counts_of(pre.current_state).1 < usize::MAX,
    ensures
        not_behind(pre.current_state, post.current_state),
{
    if message.message.curr_view == pre.spec_seq() && is_phase(pre.current_state) {
        if pre.spec_is_leader() && message.message.message is Vote {
            let vote = vote_of(message).unwrap();
            if vote_kind(vote.vote_type) == expected_vote(pre.current_state) {
                assert(hi_leader_step(pre, post, message, crypto, r));
            }
        }
    }
}

/// Polling a decision never takes it back either.
pub proof fn lemma_hi_poll_never_goes_back<D>(
    pre: HSDecision<D>,
    post: HSDecision<D>,
    h: DecisionHandler,
    r: DecisionPollResult<D>,
)
    requires
        hi_polled(pre, post, h, r),
    ensures
        not_behind(pre.current_state, post.current_state),
{
}

/// A message sent for another view's sequence number is ignored and changes
/// neither the decision nor the handler's certificates.
pub proof fn lemma_hi_other_view_ignored<D: Clone, CP: CryptoSignatureCombiner>(
    pre: HSDecision<D>,
    post: HSDecision<D>,
    pre_h: DecisionHandler,
    post_h: DecisionHandler,
    message: StoredMessage<HotFeOxMsg<D>>,
    crypto: CP,
    r: Result<DecisionResult<D>, DecisionError<CP::CombinationError>>,
)
    requires
        hi_step(pre, post, pre_h, post_h, message, crypto, r),
        message.message.curr_view != pre.spec_seq(),
    ensures
        r == Ok::<DecisionResult<D>, DecisionError<CP::CombinationError>>(DecisionResult::MessageIgnored),
        post == pre,
        post_h == pre_h,
{
}

/// A replica votes for at most one node per decision: once the decision left
/// the prepare phase, another prepare proposal is ignored and changes nothing.
pub proof fn lemma_hi_one_prepare_vote<D: Clone, CP: CryptoSignatureCombiner>(
    pre: HSDecision<D>,
    post: HSDecision<D>,
    pre_h: DecisionHandler,
    post_h: DecisionHandler,
    message: StoredMessage<HotFeOxMsg<D>>,
    crypto: CP,
    r: Result<DecisionResult<D>, DecisionError<CP::CombinationError>>,
)
    requires
        hi_step(pre, post, pre_h, post_h, message, crypto, r),
        phase_rank(pre.current_state) > phase_rank(DecisionState::Prepare(false, 0)),
        proposal_of(message) matches Some(ProposalType::Prepare(_, _)),
    ensures
        r == Ok::<DecisionResult<D>, DecisionError<CP::CombinationError>>(DecisionResult::MessageIgnored),
        post == pre,
        post_h == pre_h,
{
}

/// Once a decision has started, a proposal that does not come from the view's
/// leader is ignored and changes nothing.
pub proof fn lemma_hi_foreign_proposal_ignored<D: Clone, CP: CryptoSignatureCombiner>(
    pre: HSDecision<D>,
    post: HSDecision<D>,
    pre_h: DecisionHandler,
    post_h: DecisionHandler,
    message: StoredMessage<HotFeOxMsg<D>>,
    crypto: CP,
    r: Result<DecisionResult<D>, DecisionError<CP::CombinationError>>,
)
    requires
        hi_step(pre, post, pre_h, post_h, message, crypto, r),
        pre.current_state != DecisionState::Init,
        message.message.message is Proposal,
        message.header.from != pre.view.spec_leader(),
    ensures
        r == Ok::<DecisionResult<D>, DecisionError<CP::CombinationError>>(DecisionResult::MessageIgnored),
        post == pre,
        post_h == pre_h,
{
}

impl<D: Clone> HSDecision<D> {
    pub fn new(view: View, node_id: NodeId) -> (d: HSDecision<D>)
        requires
            view.spec_members().len() > 0,
        ensures
            d.wf(),
            d.view == view,
            d.node_id == node_id,
            d.current_state == DecisionState::Init,
            !d.decision_queue.get_queue,
            forall|t: VoteTypes| #[trigger] d.decision_queue.votes(t).len() == 0,
            forall|t: ProposalTypes| #[trigger] d.decision_queue.proposals(t).len() == 0,
            d.decision_log.current_proposal is None,
            d.outbox@.len() == 0,
    {
        let is_leader = view.primary() == node_id;
        let msg_decision_log = if is_leader {
            MsgDecisionLog::Leader(MsgLeaderDecisionLog::new())
        } else {
            MsgDecisionLog::Replica(MsgReplicaDecisionLog::new())
        };
        let decision_log_type = if is_leader {
            DecisionLogType::Leader(LeaderDecisionLog::new(), ReplicaDecisionLog::new())
        } else {
            DecisionLogType::Replica(ReplicaDecisionLog::new())
        };
        HSDecision {
            view,
            node_id,
            current_state: DecisionState::Init,
            decision_queue: HotStuffTBOQueue::new(),
            msg_decision_log,
            decision_log: DecisionLog::new(decision_log_type),
            outbox: Vec::new(),
        }
    }

    pub fn view(&self) -> (v: &View)
        ensures
            *v == self.view,
    {
        &self.view
    }

    pub fn current_state(&self) -> (s: DecisionState)
        ensures
            s == self.current_state,
    {
        self.current_state
    }

    pub fn decision_log(&self) -> (l: &DecisionLog<D>)
        ensures
            *l == self.decision_log,
    {
        &self.decision_log
    }

    pub fn sequence_number(&self) -> (s: SeqNo)
        ensures
            s == self.spec_seq(),
    {
        self.view.sequence_number()
    }

    fn is_leader(&self) -> (b: bool)
        ensures
            b == self.spec_is_leader(),
    {
        self.view.primary() == self.node_id
    }

    fn leader(&self) -> (l: NodeId)
        ensures
            l == self.view.spec_leader(),
    {
        self.view.primary()
    }

    /// Hands out the actions the decision asked for, oldest first.
    pub fn take_actions(&mut self) -> (actions: Vec<DecisionAction<D>>)
        ensures
            actions@ == old(self).outbox@,
            final(self).outbox@.len() == 0,
            final(self).view == old(self).view,
            final(self).node_id == old(self).node_id,
            final(self).current_state == old(self).current_state,
            final(self).decision_queue == old(self).decision_queue,
            final(self).msg_decision_log == old(self).msg_decision_log,
            final(self).decision_log == old(self).decision_log,
    {
        let mut actions: Vec<DecisionAction<D>> = Vec::new();
        std::mem::swap(&mut actions, &mut self.outbox);
        actions
    }

    pub fn can_be_finalized(&self) -> (r: DecisionFinalizationResult)
        ensures
            r == match self.current_state {
                DecisionState::Finally => DecisionFinalizationResult::Finalized,
                DecisionState::NextView => DecisionFinalizationResult::NextView,
                _ => DecisionFinalizationResult::NotFinal,
            },
    {
        match self.current_state {
            DecisionState::Finally => DecisionFinalizationResult::Finalized,
            DecisionState::NextView => DecisionFinalizationResult::NextView,
            _ => DecisionFinalizationResult::NotFinal,
        }
    }

    pub fn next_view_received(&mut self)
        requires
            old(self).wf(),
        ensures
            final(self).wf(),
            final(self).current_state == DecisionState::NextView,
            final(self).view == old(self).view,
            final(self).node_id == old(self).node_id,
            final(self).decision_queue == old(self).decision_queue,
            final(self).msg_decision_log == old(self).msg_decision_log,
            final(self).decision_log == old(self).decision_log,
            final(self).outbox == old(self).outbox,
    {
        self.current_state = DecisionState::NextView;
    }

    /// Queue a message into this decision, so it can be polled later
    pub fn queue(&mut self, message: StoredMessage<HotFeOxMsg<D>>)
        ensures
            final(self).queued_by(old(self), message),
    {
        self.decision_queue.queue_message(message);
    }

    /// Poll this decision: a fresh decision asks to send its new view vote to
    /// the leader and starts preparing; a decision in a phase, when its queue
    /// was signalled, hands out the next message of the kinds of its phase.
    pub fn poll(&mut self, dec_handler: &DecisionHandler) -> (r: DecisionPollResult<D>)
        requires
            old(self).wf(),
        ensures
            final(self).wf(),
            hi_polled(*old(self), *final(self), *dec_handler, r),
    {
        match self.current_state {
            DecisionState::Init => {
                let latest_qc = dec_handler.latest_qc();
                self.outbox.push(
                    DecisionAction::SendVote {
                        view_seq: self.view.sequence_number(),
                        vote_type: VoteType::NewView(latest_qc),
                        target: self.view.primary(),
                    },
                );
                self.current_state = DecisionState::Prepare(false, 0);
                assert(self.outbox@.drop_last() =~= old(self).outbox@);
                DecisionPollResult::Recv
            },
            DecisionState::Finally => DecisionPollResult::Decided,
            DecisionState::Prepare(_, _) | DecisionState::PreCommit(_, _) | DecisionState::Commit(_, _)
            | DecisionState::Decide(_, _) => {
                if self.decision_queue.should_poll() {
                    let is_leader = self.is_leader();
                    let state = self.current_state;
                    let m = self.decision_queue.get_message_for(is_leader, &state);
                    proof {
                        let (p, v) = kinds_for(state).unwrap();
                        assert(taken_for(old(self).decision_queue, self.decision_queue, is_leader, p, v, m));
                    }
                    match m {
                        Some(message) => DecisionPollResult::NextMessage(message),
                        None => DecisionPollResult::Recv,
                    }
                } else {
                    DecisionPollResult::Recv
                }
            },
            DecisionState::NextView => DecisionPollResult::Recv,
        }
    }

    /// The decision a complete decision reached: the commands of its node,
    /// under its sequence number and the node's digest.
    pub fn finalize_decision(self) -> (d: ProtocolConsensusDecision<D>) where D: SessionBased
        requires
            self.decision_log.current_proposal is Some,
        ensures
            d.seq == self.spec_seq(),
            d.client_rq_infos@ == rq_infos_of(d.client_commands@),
            d.client_commands == self.decision_log.current_proposal->0.client_commands,
            d.batch_digest == self.decision_log.current_proposal->0.decision_header.current_block_digest,
    {
        let seq = self.view.sequence_number();
        let decision_node = match self.decision_log.into_current_proposal() {
            Some(n) => n,
            None => vstd::pervasive::unreached(),
        };
        let (header, client_commands) = decision_node.into_parts();
        ProtocolConsensusDecision::new(seq, client_commands, header.current_block_digest)
    }

    fn set_counts(&mut self, sent: bool, received: usize)
        requires
            old(self).wf(),
            is_phase(old(self).current_state),
        ensures
            final(self).wf(),
            final(self).current_state == with_counts(old(self).current_state, sent, received),
            final(self).view == old(self).view,
            final(self).node_id == old(self).node_id,
            final(self).decision_queue == old(self).decision_queue,
            final(self).msg_decision_log == old(self).msg_decision_log,
            final(self).decision_log == old(self).decision_log,
            final(self).outbox == old(self).outbox,
    {
        self.current_state = match self.current_state {
            DecisionState::Prepare(_, _) => DecisionState::Prepare(sent, received),
            DecisionState::PreCommit(_, _) => DecisionState::PreCommit(sent, received),
            DecisionState::Commit(_, _) => DecisionState::Commit(sent, received),
            DecisionState::Decide(_, _) => DecisionState::Decide(sent, received),
            s => s,
        };
    }

    /// The leader routine of a vote in a phase: record and count the vote;
    /// the vote that completes a quorum makes the leader broadcast the next
    /// proposal, built from the votes of the phase.
    fn process_message_leader<CP: CryptoProvider, RQA: ReqAggregator<D>>(
        &mut self,
        vote_message: StoredMessage<HotFeOxMsg<D>>,
        crypto: &CP,
        req_aggr: &RQA,
    ) -> (r: Result<DecisionResult<D>, DecisionError<CP::CombinationError>>)
        requires
            old(self).wf(),
            old(self).spec_is_leader(),
            is_phase(old(self).current_state),
            counts_of(old(self).current_state).1 < usize::MAX,
            vote_of(vote_message) is Some,
        ensures
            final(self).wf(),
            hi_leader_step(*old(self), *final(self), vote_message, *crypto, r),
            proposals_from_pool(old(self).outbox@, final(self).outbox@, *req_aggr),
    {
        let vote = match &vote_message.message.message {
            HotFeOxMsgType::Vote(v) => v.duplicate(),
            HotFeOxMsgType::Proposal(_) => vstd::pervasive::unreached(),
        };
        let ghost vote_view = vote.vote_type@;
        let from = vote_message.header.from;
        let (sent, received) = match self.current_state {
            DecisionState::Prepare(a, b) => (a, b),
            DecisionState::PreCommit(a, b) => (a, b),
            DecisionState::Commit(a, b) => (a, b),
            DecisionState::Decide(a, b) => (a, b),
            _ => vstd::pervasive::unreached(),
        };
        let received = received + 1;
        self.set_counts(sent, received);
        let is_new_view = match &vote.vote_type {
            VoteType::NewView(_) => true,
            _ => false,
        };
        let phase_type = match &vote.vote_type {
            VoteType::PrepareVote(_) => QCType::PrepareVote,
            VoteType::PreCommitVote(_) => QCType::PreCommitVote,
            _ => QCType::CommitVote,
        };
        let quorum = self.view.quorum();
        let leader_log = match &mut self.msg_decision_log {
            MsgDecisionLog::Leader(l) => l,
            MsgDecisionLog::Replica(_) => vstd::pervasive::unreached(),
        };
        if is_new_view {
            match leader_log.high_qc.accept_new_view(from, vote) {
                Ok(()) => {},
                Err(e) => {
                    return Err(DecisionError::NewViewAcceptError(e));
                },
            }
        } else {
            match leader_log.accept_vote(from, vote) {
                Ok(_) => {},
                Err(e) => {
                    return Err(DecisionError::VoteAcceptError(e));
                },
            }
        }
        if received >= quorum && !sent {
            let ghost mid = *self;
            let ghost mut g_header: DecisionNodeHeader = arbitrary();
            let ghost mut g_qc: QC = arbitrary();
            self.current_state = match self.current_state {
                DecisionState::Prepare(_, r) => DecisionState::Prepare(true, r),
                DecisionState::PreCommit(_, r) => DecisionState::PreCommit(true, r),
                DecisionState::Commit(_, r) => DecisionState::Commit(true, r),
                DecisionState::Decide(_, r) => DecisionState::Decide(true, r),
                s => s,
            };
            let leader_log = match &mut self.msg_decision_log {
                MsgDecisionLog::Leader(l) => l,
                MsgDecisionLog::Replica(_) => vstd::pervasive::unreached(),
            };
            let proposal_type = if is_new_view {
                let ghost store = leader_log.high_qc.new_view@;
                let high_qc = leader_log.high_qc.get_high_qc();
                let (pooled_request, digest) = req_aggr.take_pool_requests();
                let node = match high_qc {
                    Some(qc) => DecisionNode::create_leaf(&qc.decision_node, digest, pooled_request),
                    None => DecisionNode::create_root_leaf(&self.view, digest, pooled_request),
                };
                let header = node.decision_header;
                proof {
                    match high_qc {
                        Some(qc) => {
                            assert(store.dom().contains(Some(qc@)));
                        },
                        None => {},
                    }
                    assert(proposed_header(store, self.view.spec_seq(), header));
                }
                let new_qc = match leader_log.high_qc.create_new_qc(crypto, &header) {
                    Ok(q) => q,
                    Err(e) => {
                        proof {
                            let q = vote_view->NewView_0;
                            assert(store.dom().contains(q));
                        }
                        return Err(DecisionError::NewViewGenerateError(e));
                    },
                };
                proof {
                    g_header = header;
                    g_qc = new_qc;
                }
                ProposalType::Prepare(node, new_qc)
            } else {
                let qc = match leader_log.generate_qc(crypto, &self.view, phase_type) {
                    Ok(q) => q,
                    Err(e) => {
                        return Err(DecisionError::VoteStoreError(e));
                    },
                };
                proof {
                    g_qc = qc;
                }
                match phase_type {
                    QCType::PrepareVote => ProposalType::PreCommit(qc),
                    QCType::PreCommitVote => ProposalType::Commit(qc),
                    QCType::CommitVote => ProposalType::Decide(qc),
                }
            };
            let msg = HotFeOxMsgType::Proposal(ProposalMessage::new(proposal_type));
            let targets = self.view.quorum_members().clone();
            proof {
                assert(targets@ =~= self.view.spec_members());
            }
            self.outbox.push(
                DecisionAction::Broadcast { message: HotFeOxMsg::new(self.view.sequence_number(), msg), targets },
            );
            proof {
                assert(self.outbox@.drop_last() =~= old(self).outbox@);
                if is_new_view {
                    let store = self.leader_log().high_qc.new_view@;
                    assert(proposed_header(store, old(self).spec_seq(), g_header));
                    assert(new_view_qc_from(store, g_header, *crypto, Ok::<QC, NewViewGenerateError<CP::CombinationError>>(g_qc)));
                } else {
                    let t = phase_vote(vote_view_type(vote_message)).unwrap().0;
                    assert(t == phase_type);
                    assert(generated_from(self.leader_log().store_for(t).decision_nodes@, t, old(self).spec_seq(), *crypto, Ok(g_qc)));
                }
            }
            Ok(DecisionResult::DecisionProgressed(None, None, vote_message))
        } else if sent {
            Ok(DecisionResult::MessageIgnored)
        } else {
            Ok(DecisionResult::DecisionProgressed(None, None, vote_message))
        }
    }

    /// The replica routine of a proposal of its phase: a prepare proposal is
    /// voted for when the safety rule accepts its node, which becomes the
    /// proposal of the decision; a later proposal moves the decision on to the
    /// next phase and is voted for, until the decide proposal completes it.
    pub fn process_message_replica<CS>(
        &mut self,
        message: StoredMessage<HotFeOxMsg<D>>,
        dec_handler: &mut DecisionHandler,
    ) -> (r: Result<DecisionResult<D>, DecisionError<CS>>)
        requires
            old(self).wf(),
            is_phase(old(self).current_state),
            proposal_of(message) is Some,
            proposal_kind(proposal_of(message).unwrap()) == expected_proposal(old(self).current_state),
        ensures
            final(self).wf(),
            hi_replica_step(*old(self), *final(self), *old(dec_handler), *final(dec_handler), message, r),
    {
        let seq = self.view.sequence_number();
        let leader = self.view.primary();
        // 0: prepare, 1: pre-commit, 2: commit, 3: decide
        let (kind, qc) = match &message.message.message {
            HotFeOxMsgType::Proposal(p) => match &p.proposal_type {
                ProposalType::Prepare(node, qc) => {
                    if !dec_handler.safe_node(node, qc) {
                        return Err(DecisionError::InvalidDecisionNode);
                    }
                    self.decision_log.set_current_proposal(Some(node.duplicate()));
                    dec_handler.install_latest_prepare_qc(qc.duplicate());
                    (0u8, qc.duplicate())
                },
                ProposalType::PreCommit(qc) => (1u8, qc.duplicate()),
                ProposalType::Commit(qc) => (2u8, qc.duplicate()),
                ProposalType::Decide(qc) => (3u8, qc.duplicate()),
            },
            HotFeOxMsgType::Vote(_) => vstd::pervasive::unreached(),
        };
        let ghost node_header = match proposal_of(message).unwrap() {
            ProposalType::Prepare(n, _) => n.decision_header,
            _ => qc.decision_node,
        };
        if kind == 3 {
            self.current_state = DecisionState::Finally;
            return Ok(DecisionResult::Decided(Some(qc), message));
        }
        let vote_type = if kind == 0 {
            self.current_state = DecisionState::PreCommit(false, 0);
            let header = match &message.message.message {
                HotFeOxMsgType::Proposal(p) => match &p.proposal_type {
                    ProposalType::Prepare(node, _) => node.decision_header,
                    _ => vstd::pervasive::unreached(),
                },
                HotFeOxMsgType::Vote(_) => vstd::pervasive::unreached(),
            };
            VoteType::PrepareVote(header)
        } else if kind == 1 {
            self.current_state = DecisionState::Commit(false, 0);
            VoteType::PreCommitVote(qc.decision_node)
        } else {
            self.current_state = DecisionState::Decide(false, 0);
            VoteType::CommitVote(qc.decision_node)
        };
        self.outbox.push(DecisionAction::SendVote { view_seq: seq, vote_type, target: leader });
        proof {
            assert(self.outbox@.drop_last() =~= old(self).outbox@);
        }
        let node = if kind == 0 {
            Some(qc.decision_node)
        } else {
            None
        };
        Ok(DecisionResult::DecisionProgressed(Some(qc), node, message))
    }

    /// Process a given consensus message: a message of another view is
    /// ignored; a decision not started keeps it; in a phase, the leader takes
    /// the votes it gathers in that phase and every replica the proposal of
    /// the phase from its leader, while messages of later phases are kept.
    pub fn process_message<CP: CryptoProvider, RQA: ReqAggregator<D>>(
        &mut self,
        message: StoredMessage<HotFeOxMsg<D>>,
        dec_handler: &mut DecisionHandler,
        crypto: &CP,
        req_aggr: &RQA,
    ) -> (r: Result<DecisionResult<D>, DecisionError<CP::CombinationError>>)
        requires
            old(self).wf(),
            counts_of(old(self).current_state).1 < usize::MAX,
        ensures
            final(self).wf(),
            hi_step(*old(self), *final(self), *old(dec_handler), *final(dec_handler), message, *crypto, r),
            proposals_from_pool(old(self).outbox@, final(self).outbox@, *req_aggr),
    {
        if self.view.sequence_number() != message.message.curr_view {
            return Ok(DecisionResult::MessageIgnored);
        }
        let state = self.current_state;
        match state {
            DecisionState::Init => {
                self.decision_queue.queue_message(message);
                return Ok(DecisionResult::MessageQueued);
            },
            DecisionState::Finally | DecisionState::NextView => {
                return Ok(DecisionResult::MessageIgnored);
            },
            _ => {},
        }
        let is_leader = self.is_leader();
        // the kind of the message: votes 0..=3, proposals 4..=7
        let kind: u8 = match &message.message.message {
            HotFeOxMsgType::Vote(v) => match &v.vote_type {
                VoteType::NewView(_) => 0,
                VoteType::PrepareVote(_) => 1,
                VoteType::PreCommitVote(_) => 2,
                VoteType::CommitVote(_) => 3,
            },
            HotFeOxMsgType::Proposal(p) => match &p.proposal_type {
                ProposalType::Prepare(_, _) => 4,
                ProposalType::PreCommit(_) => 5,
                ProposalType::Commit(_) => 6,
                ProposalType::Decide(_) => 7,
            },
        };
        // 0: prepare, 1: pre-commit, 2: commit, 3: decide
        let phase: u8 = match state {
            DecisionState::Prepare(_, _) => 0,
            DecisionState::PreCommit(_, _) => 1,
            DecisionState::Commit(_, _) => 2,
            _ => 3,
        };
        if is_leader && kind < 4 {
            let gathered: u8 = if phase == 0 {
                0
            } else if phase == 1 {
                1
            } else if phase == 2 {
                2
            } else {
                3
            };
            if kind == gathered {
                return self.process_message_leader(message, crypto, req_aggr);
            }
            let keep = phase < 2 || (phase == 2 && kind != 1);
            if keep {
                self.decision_queue.queue_message(message);
                return Ok(DecisionResult::MessageQueued);
            }
            return Ok(DecisionResult::MessageIgnored);
        }
        if kind < 4 || message.header.from != self.leader() {
            return Ok(DecisionResult::MessageIgnored);
        }
        if kind == phase + 4 {
            return self.process_message_replica(message, dec_handler);
        }
        let keep = phase == 0 || (phase == 1 && kind >= 6) || (phase == 2 && kind == 7);
        if keep {
            self.decision_queue.queue_message(message);
            Ok(DecisionResult::MessageQueued)
        } else {
            Ok(DecisionResult::MessageIgnored)
        }
    }
}

} // verus!
