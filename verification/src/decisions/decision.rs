//! The state machine of one decision of the basic protocol. Each call takes the
//! decision from one state to the next; what must be signed and sent is left in
//! the decision's outbox for the caller to carry out.
use crate::crypto::{CryptoProvider, CryptoSignatureCombiner};
use crate::decision_tree::{
    node_copied, spec_header_from_previous, spec_root_header, DecisionNode, DecisionNodeHeader,
    ProtocolConsensusDecision, rq_infos_of, SessionBased, StoredMessage,
};
use crate::decisions::log::{
    accepted_into, generated_from, new_view_qc_from, new_view_qc_seq, DecisionLog, DecisionLogType,
    LeaderDecisionLog, MsgDecisionLog, MsgLeaderDecisionLog, MsgReplicaDecisionLog,
    NewViewAcceptError, NewViewGenerateError, ReplicaDecisionLog, VoteAcceptError, VoteStoreError,
};
use crate::decisions::msg_queue::{queue_of, HotStuffTBOQueue, PhaseQueue};
use crate::decisions::req_aggr::ReqAggregator;
use crate::decisions::{opt_qc_rank, opt_qc_view, safe_node_rule, DecisionHandler, QCType, QCView, QC};
use crate::messages::{
    HotFeOxMsg, HotFeOxMsgType, ProposalMessage, ProposalType, VoteMessage, VoteType, VoteTypeView,
};
use crate::ordering::{Digest, NodeId, SeqNo};
use crate::spec_quorum_for_n;
use crate::view::View;
use crate::vote_table::{has_voted, with_vote};
use vstd::prelude::*;
use vstd::view::View as _;

verus! {

#[derive(Debug, Clone, Copy, PartialEq, Eq, Structural)]
pub enum DecisionState {
    Init,
    /// Whether the leader sent its proposal, and how many votes it received
    Prepare(bool, usize),
    PreCommit(bool, usize),
    Commit(bool, usize),
    Decide(bool, usize),
    Finally,
    NextView,
}

#[derive(Debug, Clone, Copy, PartialEq, Eq, Structural)]
pub enum DecisionFinalizationResult {
    Finalized,
    NextView,
    NotFinal,
}

/// What a decision asks its caller to carry out.
#[derive(Debug)]
pub enum DecisionAction<D> {
    /// Sign the vote for the view and send it to the target.
    SendVote { view_seq: SeqNo, vote_type: VoteType, target: NodeId },
    /// Send the message to every target.
    Broadcast { message: HotFeOxMsg<D>, targets: Vec<NodeId> },
}

/// The decision for a given object
pub struct HSDecision<D> {
    pub view: View,
    pub node_id: NodeId,
    pub current_state: DecisionState,
    pub decision_queue: HotStuffTBOQueue<D>,
    pub msg_decision_log: MsgDecisionLog,
    pub decision_log: DecisionLog<D>,
    pub outbox: Vec<DecisionAction<D>>,
}

/// The result of the poll operation on the decision
#[derive(Debug)]
pub enum DecisionPollResult<D> {
    TryPropose,
    Recv,
    NextMessage(StoredMessage<HotFeOxMsg<D>>),
    Decided,
}

/// The decision of the poll operation on the decision
#[derive(Debug)]
pub enum DecisionResult<D> {
    DuplicateVote(NodeId),
    MessageIgnored,
    MessageQueued,
    DecisionProgressed(Option<QC>, Option<DecisionNodeHeader>, StoredMessage<HotFeOxMsg<D>>),
    Decided(Option<QC>, StoredMessage<HotFeOxMsg<D>>),
}

#[derive(Debug)]
pub enum DecisionError<CS> {
    PrepareMessageWithEmptyQC,
    NoQCAvailable,
    VoteAcceptError(VoteAcceptError),
    VoteStoreError(VoteStoreError<CS>),
    NewViewAcceptError(NewViewAcceptError),
    NewViewGenerateError(NewViewGenerateError<CS>),
    InvalidState,
}

/// The vote a message carries, when it is a vote.
pub open spec fn vote_of<D>(m: StoredMessage<HotFeOxMsg<D>>) -> Option<VoteMessage> {
    match m.message.message {
        HotFeOxMsgType::Vote(v) => Some(v),
        HotFeOxMsgType::Proposal(_) => None,
    }
}

/// The proposal a message carries, when it is a proposal.
pub open spec fn proposal_of<D>(m: StoredMessage<HotFeOxMsg<D>>) -> Option<ProposalType<D>> {
    match m.message.message {
        HotFeOxMsgType::Proposal(p) => Some(p.proposal_type),
        HotFeOxMsgType::Vote(_) => None,
    }
}

/// The phase votes, with the phase they belong to.
pub open spec fn phase_vote(v: VoteType) -> Option<(QCType, DecisionNodeHeader)> {
    match v {
        VoteType::PrepareVote(h) => Some((QCType::PrepareVote, h)),
        VoteType::PreCommitVote(h) => Some((QCType::PreCommitVote, h)),
        VoteType::CommitVote(h) => Some((QCType::CommitVote, h)),
        VoteType::NewView(_) => None,
    }
}

/// The certificate of the given phase a leader log holds.
pub open spec fn leader_qc_of(l: LeaderDecisionLog, t: QCType) -> Option<QCView> {
    match t {
        QCType::PrepareVote => opt_qc_view(l.prepare_qc),
        QCType::PreCommitVote => opt_qc_view(l.pre_commit_qc),
        QCType::CommitVote => opt_qc_view(l.commit_qc),
    }
}

/// The proposal that a leader's certificate of the given phase is broadcast in.
pub open spec fn proposal_carries<D>(t: QCType, p: ProposalType<D>, qc: QCView) -> bool {
    match t {
        QCType::PrepareVote => p matches ProposalType::PreCommit(q) && q@ == qc,
        QCType::PreCommitVote => p matches ProposalType::Commit(q) && q@ == qc,
        QCType::CommitVote => p matches ProposalType::Decide(q) && q@ == qc,
    }
}

/// `a` is the broadcast of the proposal `p` of view `seq` to `members`.
pub open spec fn is_broadcast<D>(
    a: DecisionAction<D>,
    seq: SeqNo,
    members: Seq<NodeId>,
    p: spec_fn(ProposalType<D>) -> bool,
) -> bool {
    match a {
        DecisionAction::Broadcast { message, targets } => message.curr_view == seq && targets@
            == members && match message.message {
            HotFeOxMsgType::Proposal(pm) => p(pm.proposal_type),
            _ => false,
        },
        _ => false,
    }
}

/// `a` broadcasts a prepare proposal.
pub open spec fn is_prepare_broadcast<D>(a: DecisionAction<D>) -> bool {
    &&& a matches DecisionAction::Broadcast { message, .. }
    &&& message.message matches HotFeOxMsgType::Proposal(pm)
    &&& pm.proposal_type is Prepare
}

/// `a` broadcasts a prepare proposal whose node carries a batch the pool `rqa`
/// hands out: its requests, in order, with their digest as the block digest.
pub open spec fn broadcasts_pooled<D, RQA: ReqAggregator<D>>(a: DecisionAction<D>, rqa: RQA) -> bool {
    &&& a matches DecisionAction::Broadcast { message, .. }
    &&& message.message matches HotFeOxMsgType::Proposal(pm)
    &&& pm.proposal_type matches ProposalType::Prepare(n, _)
    &&& rqa.hands_out(n.client_commands@, n.decision_header.current_block_digest)
}

/// Every prepare proposal added from `pre` to `post` proposes a batch the pool
/// `rqa` handed out, whole and in order.
pub open spec fn proposals_from_pool<D, RQA: ReqAggregator<D>>(
    pre: Seq<DecisionAction<D>>,
    post: Seq<DecisionAction<D>>,
    rqa: RQA,
) -> bool {
    forall|i: int| pre.len() <= i < post.len() && #[trigger] is_prepare_broadcast(post[i]) ==> broadcasts_pooled(post[i], rqa)
}

/// `a` asks to sign a vote of view `seq` for `vote` and send it to `target`.
pub open spec fn is_send_vote<D>(a: DecisionAction<D>, seq: SeqNo, vote: VoteTypeView, target: NodeId) -> bool {
    match a {
        DecisionAction::SendVote { view_seq, vote_type, target: t } => view_seq == seq && t
            == target && vote_type@ == vote,
        _ => false,
    }
}

/// The header a leader proposes after gathering new view votes: a leaf on the
/// block of a highest reported certificate, or a root node of the view when no
/// vote reported a certificate.
pub open spec fn proposed_header(
    store: Map<Option<QCView>, Map<NodeId, Seq<u8>>>,
    view_seq: SeqNo,
    h: DecisionNodeHeader,
) -> bool {
    ||| (forall|k: Option<QCView>| #[trigger] store.dom().contains(k) ==> k is None) && h
        == spec_root_header(view_seq, h.current_block_digest, h.contained_client_commands)
    ||| exists|q: QCView| #[trigger]
        store.dom().contains(Some(q)) && (forall|k: Option<QCView>| #[trigger]
            store.dom().contains(k) ==> opt_qc_rank(k) <= opt_qc_rank(Some(q))) && h
            == spec_header_from_previous(
            h.current_block_digest,
            q.decision_node,
            h.contained_client_commands,
        )
}

impl<D> HSDecision<D> {
    pub open spec fn spec_is_leader(&self) -> bool {
        self.view.spec_leader() == self.node_id
    }

    pub open spec fn spec_seq(&self) -> SeqNo {
        self.view.spec_seq()
    }

    pub open spec fn spec_quorum(&self) -> int {
        spec_quorum_for_n(self.view.spec_members().len() as int)
    }

    /// The leader log, when this replica leads the view.
    pub open spec fn leader_log(&self) -> MsgLeaderDecisionLog {
        self.msg_decision_log->Leader_0
    }

    pub open spec fn wf(&self) -> bool {
        &&& self.view.spec_members().len() > 0
        &&& self.spec_is_leader() == (self.msg_decision_log is Leader)
        &&& self.spec_is_leader() == (self.decision_log.decision_log_type is Leader)
        &&& self.msg_decision_log matches MsgDecisionLog::Leader(l) ==> l.wf()
        &&& past_prepare(self.current_state) ==> self.decision_log.current_proposal is Some
    }

    /// The number of votes received in the current phase, when counting.
    pub open spec fn received(&self) -> int {
        match self.current_state {
            DecisionState::Prepare(_, r) => r as int,
            DecisionState::PreCommit(_, r) => r as int,
            DecisionState::Commit(_, r) => r as int,
            DecisionState::Decide(_, r) => r as int,
            _ => 0,
        }
    }

    /// Everything but the queue is as it was.
    pub open spec fn same_but_queue(&self, other: &Self) -> bool {
        &&& self.view == other.view
        &&& self.node_id == other.node_id
        &&& self.current_state == other.current_state
        &&& self.msg_decision_log == other.msg_decision_log
        &&& self.decision_log == other.decision_log
        &&& self.outbox == other.outbox
    }

    /// The message was put in its phase queue and nothing else changed.
    pub open spec fn queued_by(&self, pre: &Self, message: StoredMessage<HotFeOxMsg<D>>) -> bool {
        &&& self.same_but_queue(pre)
        &&& self.decision_queue.get_queue
        &&& self.decision_queue.queue(queue_of(message.message.message)) == pre.decision_queue.queue(
            queue_of(message.message.message),
        ).push(message)
        &&& forall|p: PhaseQueue|
            p != queue_of(message.message.message) ==> #[trigger] self.decision_queue.queue(p)
                == pre.decision_queue.queue(p)
    }
}

/// The replica handling of a proposal in the prepare phase.
pub open spec fn replica_prepare_post<D: Clone>(
    pre: HSDecision<D>,
    post: HSDecision<D>,
    pre_h: DecisionHandler,
    post_h: DecisionHandler,
    message: StoredMessage<HotFeOxMsg<D>>,
    r: DecisionResult<D>,
) -> bool {
    if !(message.message.curr_view == pre.spec_seq() && message.header.from
        == pre.view.spec_leader() && proposal_of(message) is Some) {
        r is MessageIgnored && post == pre && post_h == pre_h
    } else {
        match proposal_of(message).unwrap() {
            ProposalType::Prepare(node, qc) => if !safe_node_rule(
                node.decision_header,
                qc@,
                opt_qc_view(pre_h.latest_qc),
            ) {
                r is MessageIgnored && post == pre && post_h == pre_h
            } else {
                &&& r == DecisionResult::DecisionProgressed(
                    None,
                    Some(node.decision_header),
                    message,
                )
                &&& post.current_state == DecisionState::PreCommit(false, 0)
                &&& post.decision_log.current_proposal matches Some(n) && node_copied(node, n)
                &&& post.decision_log.decision_log_type == pre.decision_log.decision_log_type
                &&& opt_qc_view(post_h.latest_prepare_qc) == Some(qc@)
                &&& post_h.latest_qc == pre_h.latest_qc
                &&& post_h.latest_locked_qc == pre_h.latest_locked_qc
                &&& post.outbox@ == pre.outbox@.push(post.outbox@.last())
                &&& is_send_vote(
                    post.outbox@.last(),
                    pre.spec_seq(),
                    VoteTypeView::PrepareVote(node.decision_header),
                    pre.view.spec_leader(),
                )
                &&& post.view == pre.view && post.node_id == pre.node_id
                &&& post.msg_decision_log == pre.msg_decision_log
                &&& post.decision_queue == pre.decision_queue
            },
            _ => r is MessageQueued && post.queued_by(&pre, message) && post_h == pre_h,
        }
    }
}

/// The replica handling of a proposal carrying a certificate of a later phase:
/// pre-commit (from the prepare phase's certificate), commit and decide.
pub open spec fn replica_phase_post<D>(
    pre: HSDecision<D>,
    post: HSDecision<D>,
    pre_h: DecisionHandler,
    post_h: DecisionHandler,
    message: StoredMessage<HotFeOxMsg<D>>,
    r: DecisionResult<D>,
    phase: PhaseQueue,
) -> bool {
    if !(message.message.curr_view == pre.spec_seq() && message.header.from
        == pre.view.spec_leader() && proposal_of(message) is Some) {
        r is MessageIgnored && post == pre && post_h == pre_h
    } else {
        let p = proposal_of(message).unwrap();
        match (phase, p) {
            (PhaseQueue::PreCommit, ProposalType::PreCommit(qc)) => {
                &&& (r matches DecisionResult::DecisionProgressed(Some(q), None, m) && q@ == qc@ && m
                    == message)
                &&& post.current_state == DecisionState::Commit(false, 0)
                &&& opt_qc_view(post.decision_log.decision_log_type.replica_part().prepare_qc) == Some(
                    qc@,
                )
                &&& post.decision_log.decision_log_type.replica_part().locked_qc
                    == pre.decision_log.decision_log_type.replica_part().locked_qc
                &&& opt_qc_view(post_h.latest_prepare_qc) == Some(qc@)
                &&& post_h.latest_qc == pre_h.latest_qc
                &&& post_h.latest_locked_qc == pre_h.latest_locked_qc
                &&& post.outbox@ == pre.outbox@.push(post.outbox@.last())
                &&& is_send_vote(
                    post.outbox@.last(),
                    pre.spec_seq(),
                    VoteTypeView::PreCommitVote(qc.decision_node),
                    pre.view.spec_leader(),
                )
                &&& post.same_frame(&pre)
            },
            (PhaseQueue::PreCommit, ProposalType::Prepare(_, _)) => r is MessageIgnored && post == pre
                && post_h == pre_h,
            (PhaseQueue::PreCommit, _) => r is MessageQueued && post.queued_by(&pre, message)
                && post_h == pre_h,
            (PhaseQueue::Commit, ProposalType::Commit(qc)) => {
                &&& (r matches DecisionResult::DecisionProgressed(Some(q), None, m) && q@ == qc@ && m
                    == message)
                &&& post.current_state == DecisionState::Decide(false, 0)
                &&& opt_qc_view(post.decision_log.decision_log_type.replica_part().locked_qc) == Some(
                    qc@,
                )
                &&& post.decision_log.decision_log_type.replica_part().prepare_qc
                    == pre.decision_log.decision_log_type.replica_part().prepare_qc
                &&& opt_qc_view(post_h.latest_locked_qc) == Some(qc@)
                &&& post_h.latest_qc == pre_h.latest_qc
                &&& post_h.latest_prepare_qc == pre_h.latest_prepare_qc
                &&& post.outbox@ == pre.outbox@.push(post.outbox@.last())
                &&& is_send_vote(
                    post.outbox@.last(),
                    pre.spec_seq(),
                    VoteTypeView::CommitVote(qc.decision_node),
                    pre.view.spec_leader(),
                )
                &&& post.same_frame(&pre)
            },
            (PhaseQueue::Commit, ProposalType::Decide(_)) => r is MessageQueued && post.queued_by(
                &pre,
                message,
            ) && post_h == pre_h,
            (PhaseQueue::Commit, _) => r is MessageIgnored && post == pre && post_h == pre_h,
            (PhaseQueue::Decide, ProposalType::Decide(qc)) => {
                &&& (r matches DecisionResult::Decided(Some(q), m) && q@ == qc@ && m == message)
                &&& post.current_state == DecisionState::Finally
                &&& opt_qc_view(post_h.latest_qc) == Some(qc@)
                &&& post_h.latest_prepare_qc == pre_h.latest_prepare_qc
                &&& post_h.latest_locked_qc == pre_h.latest_locked_qc
                &&& post.outbox == pre.outbox
                &&& post.decision_log == pre.decision_log
                &&& post.same_frame(&pre)
            },
            _ => r is MessageIgnored && post == pre && post_h == pre_h,
        }
    }
}

impl<D> HSDecision<D> {
    /// The view, node, queues and message log are as they were.
    pub open spec fn same_frame(&self, other: &Self) -> bool {
        &&& self.view == other.view
        &&& self.node_id == other.node_id
        &&& self.msg_decision_log == other.msg_decision_log
        &&& self.decision_queue == other.decision_queue
        &&& (self.decision_log.decision_log_type is Leader) == (
        other.decision_log.decision_log_type is Leader)
        &&& self.decision_log.current_proposal == other.decision_log.current_proposal
    }
}

/// The state in which a leader gathers the votes of phase `t`.
pub open spec fn phase_state(t: QCType, sent: bool, received: usize) -> DecisionState {
    match t {
        QCType::PrepareVote => DecisionState::PreCommit(sent, received),
        QCType::PreCommitVote => DecisionState::Commit(sent, received),
        QCType::CommitVote => DecisionState::Decide(sent, received),
    }
}

fn make_phase_state(t: QCType, sent: bool, received: usize) -> (s: DecisionState)
    ensures
        s == phase_state(t, sent, received),
{
    match t {
        QCType::PrepareVote => DecisionState::PreCommit(sent, received),
        QCType::PreCommitVote => DecisionState::Commit(sent, received),
        QCType::CommitVote => DecisionState::Decide(sent, received),
    }
}

/// The vote a participant sends on the proposal that carries the certificate
/// of phase `t` for `node` (prepare or pre-commit certificates).
pub open spec fn vote_on_certificate(t: QCType, node: DecisionNodeHeader) -> VoteTypeView {
    match t {
        QCType::PrepareVote => VoteTypeView::PreCommitVote(node),
        _ => VoteTypeView::CommitVote(node),
    }
}

/// What a participant records on the proposal that carries the certificate
/// `qc` of phase `t`: the prepare certificate, or the locked one after the
/// pre-commit phase, in its log (`pre_r` to `post_r`) and in its handler.
pub open spec fn certificate_taken(
    pre_r: ReplicaDecisionLog,
    post_r: ReplicaDecisionLog,
    pre_h: DecisionHandler,
    post_h: DecisionHandler,
    t: QCType,
    qc: QCView,
) -> bool {
    match t {
        QCType::PrepareVote => {
            &&& opt_qc_view(post_r.prepare_qc) == Some(qc)
            &&& post_r.locked_qc == pre_r.locked_qc
            &&& opt_qc_view(post_h.latest_prepare_qc) == Some(qc)
            &&& post_h.latest_qc == pre_h.latest_qc
            &&& post_h.latest_locked_qc == pre_h.latest_locked_qc
        },
        _ => {
            &&& opt_qc_view(post_r.locked_qc) == Some(qc)
            &&& post_r.prepare_qc == pre_r.prepare_qc
            &&& opt_qc_view(post_h.latest_locked_qc) == Some(qc)
            &&& post_h.latest_qc == pre_h.latest_qc
            &&& post_h.latest_prepare_qc == pre_h.latest_prepare_qc
        },
    }
}

/// The state a leader moves to once it broadcast the proposal built from the
/// votes of phase `t`: the next phase, or the end of the decision.
pub open spec fn phase_after(t: QCType) -> DecisionState {
    match t {
        QCType::PrepareVote => DecisionState::Commit(false, 0),
        QCType::PreCommitVote => DecisionState::Decide(false, 0),
        QCType::CommitVote => DecisionState::Finally,
    }
}

fn make_phase_after(t: QCType) -> (s: DecisionState)
    ensures
        s == phase_after(t),
{
    match t {
        QCType::PrepareVote => DecisionState::Commit(false, 0),
        QCType::PreCommitVote => DecisionState::Decide(false, 0),
        QCType::CommitVote => DecisionState::Finally,
    }
}

/// The leader handling of a phase vote (pre-commit, commit and decide phases):
/// `t` is the phase whose votes are gathered. With a quorum the leader
/// broadcasts the proposal carrying the phase's certificate and handles it
/// itself as every participant does: it records the certificate, sends its
/// own vote and moves on to the next phase.
pub open spec fn leader_phase_post<D, CP: CryptoSignatureCombiner>(
    pre: HSDecision<D>,
    post: HSDecision<D>,
    pre_h: DecisionHandler,
    post_h: DecisionHandler,
    message: StoredMessage<HotFeOxMsg<D>>,
    crypto: CP,
    r: Result<DecisionResult<D>, DecisionError<CP::CombinationError>>,
    t: QCType,
) -> bool {
    let sent = match pre.current_state {
        DecisionState::PreCommit(s, _) => s,
        DecisionState::Commit(s, _) => s,
        DecisionState::Decide(s, _) => s,
        _ => false,
    };
    if !(message.message.curr_view == pre.spec_seq() && vote_of(message) is Some) {
        r == Ok::<DecisionResult<D>, DecisionError<CP::CombinationError>>(DecisionResult::MessageIgnored) && post
            == pre && post_h == pre_h
    } else {
        let vote = vote_of(message).unwrap();
        match phase_vote(vote.vote_type) {
            Some((vt, node)) if vt == t => {
                let from = message.header.from;
                let received = (pre.received() + 1) as usize;
                &&& post.view == pre.view && post.node_id == pre.node_id
                &&& post.decision_queue == pre.decision_queue
                &&& post.decision_log.current_proposal == pre.decision_log.current_proposal
                &&& post.msg_decision_log is Leader
                &&& accepted_into(
                    pre.leader_log(),
                    post.leader_log(),
                    t,
                    node,
                    from,
                    vote.signature@,
                    Ok(!has_voted(pre.leader_log().store_for(t).decision_nodes@, node, from)),
                )
                &&& post.leader_log().high_qc == pre.leader_log().high_qc
                &&& if has_voted(pre.leader_log().store_for(t).decision_nodes@, node, from) {
                    &&& r == Ok::<DecisionResult<D>, DecisionError<CP::CombinationError>>(
                        DecisionResult::DuplicateVote(from),
                    )
                    &&& post.current_state == phase_state(t, sent, received)
                    &&& post.outbox == pre.outbox && post_h == pre_h
                    &&& post.decision_log == pre.decision_log
                } else if received >= pre.spec_quorum() && !sent {
                    match r {
                        Ok(DecisionResult::DecisionProgressed(Some(qc), None, m)) => t
                            != QCType::CommitVote && m == message
                            && post.current_state == phase_after(t)
                            && (post.decision_log.decision_log_type matches DecisionLogType::Leader(l, _)
                            && leader_qc_of(l, t) == Some(qc@))
                            && certificate_taken(
                            pre.decision_log.decision_log_type.replica_part(),
                            post.decision_log.decision_log_type.replica_part(),
                            pre_h,
                            post_h,
                            t,
                            qc@,
                        ) && generated_from(
                            post.leader_log().store_for(t).decision_nodes@,
                            t,
                            pre.spec_seq(),
                            crypto,
                            Ok(qc),
                        ) && post.outbox@.len() == pre.outbox@.len() + 2 && post.outbox@.take(
                            pre.outbox@.len() as int,
                        ) == pre.outbox@ && is_broadcast(
                            post.outbox@[pre.outbox@.len() as int],
                            pre.spec_seq(),
                            pre.view.spec_members(),
                            |p: ProposalType<D>| proposal_carries(t, p, qc@),
                        ) && is_send_vote(
                            post.outbox@.last(),
                            pre.spec_seq(),
                            vote_on_certificate(t, qc.decision_node),
                            pre.view.spec_leader(),
                        ),
                        Ok(DecisionResult::Decided(Some(qc), m)) => t == QCType::CommitVote && m
                            == message && post.current_state == phase_after(t)
                            && post.decision_log.decision_log_type.replica_part()
                            == pre.decision_log.decision_log_type.replica_part()
                            && (post.decision_log.decision_log_type matches DecisionLogType::Leader(l, _)
                            && leader_qc_of(l, t) == Some(qc@)) && generated_from(
                            post.leader_log().store_for(t).decision_nodes@,
                            t,
                            pre.spec_seq(),
                            crypto,
                            Ok(qc),
                        ) && opt_qc_view(post_h.latest_qc) == Some(qc@)
                            && post_h.latest_prepare_qc == pre_h.latest_prepare_qc
                            && post_h.latest_locked_qc == pre_h.latest_locked_qc
                            && post.outbox@.len() == pre.outbox@.len() + 1 && post.outbox@.drop_last()
                            == pre.outbox@ && is_broadcast(
                            post.outbox@.last(),
                            pre.spec_seq(),
                            pre.view.spec_members(),
                            |p: ProposalType<D>| proposal_carries(t, p, qc@),
                        ),
                        Err(DecisionError::VoteStoreError(
                            VoteStoreError::FailedToCreateCombinedSignature(e),
                        )) => post.current_state == phase_state(t, true, received) && post.outbox == pre.outbox
                            && post_h == pre_h && post.decision_log == pre.decision_log && generated_from(
                            post.leader_log().store_for(t).decision_nodes@,
                            t,
                            pre.spec_seq(),
                            crypto,
                            Err(VoteStoreError::FailedToCreateCombinedSignature(e)),
                        ),
                        _ => false,
                    }
                } else {
                    &&& r == Ok::<DecisionResult<D>, DecisionError<CP::CombinationError>>(
                        DecisionResult::DecisionProgressed(None, None, message),
                    )
                    &&& post.current_state == phase_state(t, sent, received)
                    &&& post.outbox == pre.outbox && post_h == pre_h
                    &&& post.decision_log == pre.decision_log
                }
            },
            Some((vt, _)) if (t == QCType::PreCommitVote && vt == QCType::PrepareVote) || t
                == QCType::CommitVote => r == Ok::<DecisionResult<D>, DecisionError<CP::CombinationError>>(
                DecisionResult::MessageIgnored,
            ) && post == pre && post_h == pre_h,
            None if t == QCType::CommitVote => r == Ok::<DecisionResult<D>, DecisionError<CP::CombinationError>>(
                DecisionResult::MessageIgnored,
            ) && post == pre && post_h == pre_h,
            _ => r == Ok::<DecisionResult<D>, DecisionError<CP::CombinationError>>(DecisionResult::MessageQueued)
                && post.queued_by(&pre, message) && post_h == pre_h,
        }
    }
}


/// The leader handling of a new view vote in the prepare phase: once a quorum
/// of votes arrived, the leader proposes a node on the highest reported
/// certificate, justified by a certificate built from those votes. It then
/// takes part in its own round as every participant does: when the safety
/// rule accepts its node, it records the certificate, votes for the node and
/// moves on to the pre-commit phase; otherwise it stays, marked as having
/// proposed. When the votes cannot be combined it stays, marked as having
/// tried.
pub open spec fn leader_prepare_post<D: Clone, CP: CryptoSignatureCombiner>(
    pre: HSDecision<D>,
    post: HSDecision<D>,
    pre_h: DecisionHandler,
    post_h: DecisionHandler,
    message: StoredMessage<HotFeOxMsg<D>>,
    crypto: CP,
    r: Result<DecisionResult<D>, DecisionError<CP::CombinationError>>,
) -> bool {
    let sent = match pre.current_state {
        DecisionState::Prepare(s, _) => s,
        _ => false,
    };
    if !(message.message.curr_view == pre.spec_seq() && vote_of(message) is Some) {
        r == Ok::<DecisionResult<D>, DecisionError<CP::CombinationError>>(DecisionResult::MessageIgnored) && post
            == pre && post_h == pre_h
    } else {
        let vote = vote_of(message).unwrap();
        match vote.vote_type {
            VoteType::NewView(reported) => {
                let from = message.header.from;
                let received = (pre.received() + 1) as usize;
                let store = with_vote(
                    pre.leader_log().high_qc.new_view@,
                    opt_qc_view(reported),
                    from,
                    vote.signature@,
                );
                &&& post.view == pre.view && post.node_id == pre.node_id
                &&& post.decision_queue == pre.decision_queue
                &&& post.msg_decision_log is Leader
                &&& post.leader_log().high_qc.new_view@ == store
                &&& post.leader_log().prepare_qc == pre.leader_log().prepare_qc
                &&& post.leader_log().pre_commit_qc == pre.leader_log().pre_commit_qc
                &&& post.leader_log().commit_qc == pre.leader_log().commit_qc
                &&& post.decision_log.decision_log_type == pre.decision_log.decision_log_type
                &&& if received >= pre.spec_quorum() && !sent {
                    &&& post.decision_log.current_proposal is Some
                    &&& proposed_header(
                        store,
                        pre.spec_seq(),
                        post.decision_log.current_proposal->0.decision_header,
                    )
                    &&& match r {
                        Ok(DecisionResult::DecisionProgressed(Some(qc), Some(h), m)) => {
                            &&& m == message
                            &&& h == post.decision_log.current_proposal->0.decision_header
                            &&& new_view_qc_from(store, h, crypto, Ok(qc))
                            &&& post.outbox@.take(pre.outbox@.len() as int) == pre.outbox@
                            &&& if safe_node_rule(h, qc@, opt_qc_view(pre_h.latest_qc)) {
                                &&& post.current_state == DecisionState::PreCommit(false, 0)
                                &&& opt_qc_view(post_h.latest_prepare_qc) == Some(qc@)
                                &&& post_h.latest_qc == pre_h.latest_qc
                                &&& post_h.latest_locked_qc == pre_h.latest_locked_qc
                                &&& post.outbox@.len() == pre.outbox@.len() + 2
                                &&& is_send_vote(
                                    post.outbox@.last(),
                                    pre.spec_seq(),
                                    VoteTypeView::PrepareVote(h),
                                    pre.view.spec_leader(),
                                )
                            } else {
                                &&& post.current_state == DecisionState::Prepare(true, received)
                                &&& post_h == pre_h
                                &&& post.outbox@.len() == pre.outbox@.len() + 1
                            }
                            &&& is_broadcast(
                                post.outbox@[pre.outbox@.len() as int],
                                pre.spec_seq(),
                                pre.view.spec_members(),
                                |p: ProposalType<D>|
                                    (p matches ProposalType::Prepare(n, q) && n.decision_header == h
                                        && q@ == qc@ && node_copied(n, post.decision_log.current_proposal->0)),
                            )
                        },
                        Err(
                            DecisionError::NewViewGenerateError(
                                NewViewGenerateError::FailedToCombinePartialSignatures(e),
                            ),
                        ) => post.current_state == DecisionState::Prepare(true, received) && post.outbox
                            == pre.outbox && post_h == pre_h && new_view_qc_from(
                            store,
                            post.decision_log.current_proposal->0.decision_header,
                            crypto,
                            Err(NewViewGenerateError::FailedToCombinePartialSignatures(e)),
                        ),
                        _ => false,
                    }
                } else {
                    &&& post.current_state == DecisionState::Prepare(sent, received)
                    &&& r == Ok::<DecisionResult<D>, DecisionError<CP::CombinationError>>(
                        DecisionResult::DecisionProgressed(None, None, message),
                    )
                    &&& post.outbox == pre.outbox
                    &&& post.decision_log == pre.decision_log
                    &&& post_h == pre_h
                }
            },
            _ => r == Ok::<DecisionResult<D>, DecisionError<CP::CombinationError>>(DecisionResult::MessageQueued)
                && post.queued_by(&pre, message) && post_h == pre_h,
        }
    }
}

/// The states reached only once a proposal was accepted.
pub open spec fn past_prepare(s: DecisionState) -> bool {
    s is PreCommit || s is Commit || s is Decide || s is Finally
}

/// The phase queue a decision reads from in a given state.
pub open spec fn state_queue(s: DecisionState) -> Option<PhaseQueue> {
    match s {
        DecisionState::Prepare(_, _) => Some(PhaseQueue::Prepare),
        DecisionState::PreCommit(_, _) => Some(PhaseQueue::PreCommit),
        DecisionState::Commit(_, _) => Some(PhaseQueue::Commit),
        DecisionState::Decide(_, _) => Some(PhaseQueue::Decide),
        _ => None,
    }
}

/// One poll of a decision.
pub open spec fn poll_step<D>(pre: HSDecision<D>, post: HSDecision<D>, h: DecisionHandler, r: DecisionPollResult<D>) -> bool {
    &&& post.view == pre.view
    &&& post.node_id == pre.node_id
    &&& post.msg_decision_log == pre.msg_decision_log
    &&& post.decision_log == pre.decision_log
    &&& match pre.current_state {
        DecisionState::Init => {
            &&& r is Recv
            &&& post.current_state == DecisionState::Prepare(false, 0)
            &&& post.decision_queue == pre.decision_queue
            &&& post.outbox@.len() == pre.outbox@.len() + 1
            &&& post.outbox@.drop_last() == pre.outbox@
            &&& is_send_vote(
                post.outbox@.last(),
                pre.spec_seq(),
                VoteTypeView::NewView(opt_qc_view(h.latest_qc)),
                pre.view.spec_leader(),
            )
        },
        DecisionState::Finally => r is Decided && post == pre,
        _ => {
            &&& post.current_state == pre.current_state
            &&& post.outbox == pre.outbox
            &&& post.decision_queue.get_queue == pre.decision_queue.get_queue
            &&& match state_queue(pre.current_state) {
                Some(q) if pre.decision_queue.get_queue => {
                    &&& forall|p: PhaseQueue|
                        p != q ==> #[trigger] post.decision_queue.queue(p) == pre.decision_queue.queue(p)
                    &&& if pre.decision_queue.queue(q).len() == 0 {
                        r is Recv && post.decision_queue.queue(q)
                            == pre.decision_queue.queue(q)
                    } else {
                        r == DecisionPollResult::NextMessage(
                            pre.decision_queue.queue(q)[0],
                        ) && post.decision_queue.queue(q) == pre.decision_queue.queue(q).drop_first()
                    }
                },
                _ => r is Recv && post.decision_queue == pre.decision_queue,
            }
        },
    }
}

/// One step of a decision on a message, by the state the decision was in.
pub open spec fn decision_step<D: Clone, CP: CryptoSignatureCombiner>(
    pre: HSDecision<D>,
    post: HSDecision<D>,
    pre_h: DecisionHandler,
    post_h: DecisionHandler,
    message: StoredMessage<HotFeOxMsg<D>>,
    crypto: CP,
    r: Result<DecisionResult<D>, DecisionError<CP::CombinationError>>,
) -> bool {
    match pre.current_state {
        DecisionState::Init => if message.message.curr_view == pre.spec_seq() {
            r == Ok::<DecisionResult<D>, DecisionError<CP::CombinationError>>(
                DecisionResult::MessageQueued,
            ) && post.queued_by(&pre, message) && post_h == pre_h
        } else {
            r == Ok::<DecisionResult<D>, DecisionError<CP::CombinationError>>(
                DecisionResult::MessageIgnored,
            ) && post == pre && post_h == pre_h
        },
        DecisionState::Finally | DecisionState::NextView => r == Ok::<
            DecisionResult<D>,
            DecisionError<CP::CombinationError>,
        >(DecisionResult::MessageIgnored) && post == pre && post_h == pre_h,
        DecisionState::Prepare(_, _) => if pre.spec_is_leader()
            && message.message.message is Vote {
            leader_prepare_post(
                pre,
                post,
                pre_h,
                post_h,
                message,
                crypto,
                r,
            )
        } else {
            r matches Ok(rr) && replica_prepare_post(
                pre,
                post,
                pre_h,
                post_h,
                message,
                rr,
            )
        },
        DecisionState::PreCommit(_, _) => if pre.spec_is_leader()
            && message.message.message is Vote {
            leader_phase_post(
                pre,
                post,
                pre_h,
                post_h,
                message,
                crypto,
                r,
                QCType::PrepareVote,
            )
        } else {
            r matches Ok(rr) && replica_phase_post(
                pre,
                post,
                pre_h,
                post_h,
                message,
                rr,
                PhaseQueue::PreCommit,
            )
        },
        DecisionState::Commit(_, _) => if pre.spec_is_leader()
            && message.message.message is Vote {
            leader_phase_post(
                pre,
                post,
                pre_h,
                post_h,
                message,
                crypto,
                r,
                QCType::PreCommitVote,
            )
        } else {
            r matches Ok(rr) && replica_phase_post(
                pre,
                post,
                pre_h,
                post_h,
                message,
                rr,
                PhaseQueue::Commit,
            )
        },
        DecisionState::Decide(_, _) => if pre.spec_is_leader()
            && message.message.message is Vote {
            leader_phase_post(
                pre,
                post,
                pre_h,
                post_h,
                message,
                crypto,
                r,
                QCType::CommitVote,
            )
        } else {
            r matches Ok(rr) && replica_phase_post(
                pre,
                post,
                pre_h,
                post_h,
                message,
                rr,
                PhaseQueue::Decide,
            )
        },
    }
}

/// How far a decision has gone: the phase first, then whether the leader
/// already proposed in it, then how many votes it counted.
pub open spec fn phase_rank(s: DecisionState) -> int {
    match s {
        DecisionState::Init => 0,
        DecisionState::Prepare(_, _) => 1,
        DecisionState::PreCommit(_, _) => 2,
        DecisionState::Commit(_, _) => 3,
        DecisionState::Decide(_, _) => 4,
        DecisionState::Finally => 5,
        DecisionState::NextView => 6,
    }
}

/// Whether the leader already proposed in the state's phase.
pub open spec fn state_sent(s: DecisionState) -> bool {
    match s {
        DecisionState::Prepare(b, _) => b,
        DecisionState::PreCommit(b, _) => b,
        DecisionState::Commit(b, _) => b,
        DecisionState::Decide(b, _) => b,
        _ => false,
    }
}

/// The number of votes counted in the state's phase.
pub open spec fn state_received(s: DecisionState) -> int {
    match s {
        DecisionState::Prepare(_, r) => r as int,
        DecisionState::PreCommit(_, r) => r as int,
        DecisionState::Commit(_, r) => r as int,
        DecisionState::Decide(_, r) => r as int,
        _ => 0,
    }
}

/// `b` is at least as far as `a`.
pub open spec fn not_behind(a: DecisionState, b: DecisionState) -> bool {
    ||| phase_rank(a) < phase_rank(b)
    ||| {
        &&& phase_rank(a) == phase_rank(b)
        &&& state_sent(a) ==> state_sent(b)
        &&& state_received(a) <= state_received(b)
    }
}

/// A decision never goes back: handling a message leaves it in the same
/// phase or a later one, a leader that proposed in a phase stays so, and the
/// count of votes of the phase never drops.
pub proof fn lemma_step_never_goes_back<D: Clone, CP: CryptoSignatureCombiner>(
    pre: HSDecision<D>,
    post: HSDecision<D>,
    pre_h: DecisionHandler,
    post_h: DecisionHandler,
    message: StoredMessage<HotFeOxMsg<D>>,
    crypto: CP,
    r: Result<DecisionResult<D>, DecisionError<CP::CombinationError>>,
)
    requires
        decision_step(pre, post, pre_h, post_h, message, crypto, r),
        pre.received() < usize::MAX,
    ensures
        not_behind(pre.current_state, post.current_state),
{
    match pre.current_state {
        DecisionState::Prepare(_, _) => {
            if pre.spec_is_leader() && message.message.message is Vote {
                assert(leader_prepare_post(pre, post, pre_h, post_h, message, crypto, r));
            } else {
                assert(r matches Ok(rr) && replica_prepare_post(pre, post, pre_h, post_h, message, rr));
            }
        },
        DecisionState::PreCommit(_, _) => {
            if pre.spec_is_leader() && message.message.message is Vote {
                assert(leader_phase_post(pre, post, pre_h, post_h, message, crypto, r, QCType::PrepareVote));
            }
        },
        DecisionState::Commit(_, _) => {
            if pre.spec_is_leader() && message.message.message is Vote {
                assert(leader_phase_post(pre, post, pre_h, post_h, message, crypto, r, QCType::PreCommitVote));
            }
        },
        DecisionState::Decide(_, _) => {
            if pre.spec_is_leader() && message.message.message is Vote {
                assert(leader_phase_post(pre, post, pre_h, post_h, message, crypto, r, QCType::CommitVote));
            }
        },
        _ => {},
    }
}

/// Polling a decision never takes it back either.
pub proof fn lemma_poll_never_goes_back<D>(
    pre: HSDecision<D>,
    post: HSDecision<D>,
    h: DecisionHandler,
    r: DecisionPollResult<D>,
)
    requires
        poll_step(pre, post, h, r),
    ensures
        not_behind(pre.current_state, post.current_state),
{
}

/// A message sent for another view's sequence number is ignored and changes
/// neither the decision nor the handler's certificates.
pub proof fn lemma_other_view_ignored<D: Clone, CP: CryptoSignatureCombiner>(
    pre: HSDecision<D>,
    post: HSDecision<D>,
    pre_h: DecisionHandler,
    post_h: DecisionHandler,
    message: StoredMessage<HotFeOxMsg<D>>,
    crypto: CP,
    r: Result<DecisionResult<D>, DecisionError<CP::CombinationError>>,
)
    requires
        decision_step(pre, post, pre_h, post_h, message, crypto, r),
        message.message.curr_view != pre.spec_seq(),
    ensures
        r == Ok::<DecisionResult<D>, DecisionError<CP::CombinationError>>(DecisionResult::MessageIgnored),
        post == pre,
        post_h == pre_h,
{
}

/// A replica votes for at most one node per decision: once the decision left
/// the prepare phase, another prepare proposal is ignored and changes nothing.
pub proof fn lemma_one_prepare_vote<D: Clone, CP: CryptoSignatureCombiner>(
    pre: HSDecision<D>,
    post: HSDecision<D>,
    pre_h: DecisionHandler,
    post_h: DecisionHandler,
    message: StoredMessage<HotFeOxMsg<D>>,
    crypto: CP,
    r: Result<DecisionResult<D>, DecisionError<CP::CombinationError>>,
)
    requires
        decision_step(pre, post, pre_h, post_h, message, crypto, r),
        phase_rank(pre.current_state) > phase_rank(DecisionState::Prepare(false, 0)),
        proposal_of(message) matches Some(ProposalType::Prepare(_, _)),
    ensures
        r == Ok::<DecisionResult<D>, DecisionError<CP::CombinationError>>(DecisionResult::MessageIgnored),
        post == pre,
        post_h == pre_h,
{
}

/// Once a decision has started, a proposal that does not come from the view's
/// leader is ignored and changes nothing.
pub proof fn lemma_foreign_proposal_ignored<D: Clone, CP: CryptoSignatureCombiner>(
    pre: HSDecision<D>,
    post: HSDecision<D>,
    pre_h: DecisionHandler,
    post_h: DecisionHandler,
    message: StoredMessage<HotFeOxMsg<D>>,
    crypto: CP,
    r: Result<DecisionResult<D>, DecisionError<CP::CombinationError>>,
)
    requires
        decision_step(pre, post, pre_h, post_h, message, crypto, r),
        pre.current_state != DecisionState::Init,
        message.message.message is Proposal,
        message.header.from != pre.view.spec_leader(),
    ensures
        r == Ok::<DecisionResult<D>, DecisionError<CP::CombinationError>>(DecisionResult::MessageIgnored),
        post == pre,
        post_h == pre_h,
{
}

impl<D: Clone> HSDecision<D> {
    pub fn new(view: View, node_id: NodeId) -> (d: HSDecision<D>)
        requires
            view.spec_members().len() > 0,
        ensures
            d.wf(),
            d.view == view,
            d.node_id == node_id,
            d.current_state == DecisionState::Init,
            !d.decision_queue.get_queue,
            forall|p: PhaseQueue| #[trigger] d.decision_queue.queue(p).len() == 0,
            d.decision_log.current_proposal is None,
            d.outbox@.len() == 0,
            d.msg_decision_log matches MsgDecisionLog::Leader(l) ==> l.high_qc.new_view@.dom()
                =~= Set::empty(),
    {
        let is_leader = view.primary() == node_id;
        let msg_decision_log = if is_leader {
            MsgDecisionLog::Leader(MsgLeaderDecisionLog::new())
        } else {
            MsgDecisionLog::Replica(MsgReplicaDecisionLog::new())
        };
        let decision_log_type = if is_leader {
            DecisionLogType::Leader(LeaderDecisionLog::new(), ReplicaDecisionLog::new())
        } else {
            DecisionLogType::Replica(ReplicaDecisionLog::new())
        };
        HSDecision {
            view,
            node_id,
            current_state: DecisionState::Init,
            decision_queue: HotStuffTBOQueue::new(),
            msg_decision_log,
            decision_log: DecisionLog::new(decision_log_type),
            outbox: Vec::new(),
        }
    }

    pub fn view(&self) -> (v: &View)
        ensures
            *v == self.view,
    {
        &self.view
    }

    pub fn current_state(&self) -> (s: DecisionState)
        ensures
            s == self.current_state,
    {
        self.current_state
    }

    pub fn set_current_state(&mut self, state: DecisionState)
        requires
            old(self).wf(),
            past_prepare(state) ==> old(self).decision_log.current_proposal is Some,
        ensures
            final(self).wf(),
            final(self).current_state == state,
            final(self).view == old(self).view,
            final(self).node_id == old(self).node_id,
            final(self).decision_queue == old(self).decision_queue,
            final(self).msg_decision_log == old(self).msg_decision_log,
            final(self).decision_log == old(self).decision_log,
            final(self).outbox == old(self).outbox,
    {
        self.current_state = state;
    }

    pub fn decision_log(&self) -> (l: &DecisionLog<D>)
        ensures
            *l == self.decision_log,
    {
        &self.decision_log
    }

    pub fn sequence_number(&self) -> (s: SeqNo)
        ensures
            s == self.spec_seq(),
    {
        self.view.sequence_number()
    }

    /// Hands out the actions the decision asked for, oldest first.
    pub fn take_actions(&mut self) -> (actions: Vec<DecisionAction<D>>)
        ensures
            actions@ == old(self).outbox@,
            final(self).outbox@.len() == 0,
            final(self).view == old(self).view,
            final(self).node_id == old(self).node_id,
            final(self).current_state == old(self).current_state,
            final(self).decision_queue == old(self).decision_queue,
            final(self).msg_decision_log == old(self).msg_decision_log,
            final(self).decision_log == old(self).decision_log,
    {
        let mut actions: Vec<DecisionAction<D>> = Vec::new();
        std::mem::swap(&mut actions, &mut self.outbox);
        actions
    }

    /// Are we the leader of the current view
    pub fn is_leader(&self) -> (b: bool)
        ensures
            b == self.spec_is_leader(),
    {
        self.view.primary() == self.node_id
    }

    pub fn leader(&self) -> (l: NodeId)
        ensures
            l == self.view.spec_leader(),
    {
        self.view.primary()
    }

    pub fn can_be_finalized(&self) -> (r: DecisionFinalizationResult)
        ensures
            r == match self.current_state {
                DecisionState::Finally => DecisionFinalizationResult::Finalized,
                DecisionState::NextView => DecisionFinalizationResult::NextView,
                _ => DecisionFinalizationResult::NotFinal,
            },
    {
        match self.current_state {
            DecisionState::Finally => DecisionFinalizationResult::Finalized,
            DecisionState::NextView => DecisionFinalizationResult::NextView,
            _ => DecisionFinalizationResult::NotFinal,
        }
    }

    pub fn next_view_received(&mut self)
        requires
            old(self).wf(),
        ensures
            final(self).wf(),
            final(self).current_state == DecisionState::NextView,
            final(self).view == old(self).view,
            final(self).node_id == old(self).node_id,
            final(self).decision_queue == old(self).decision_queue,
            final(self).msg_decision_log == old(self).msg_decision_log,
            final(self).decision_log == old(self).decision_log,
            final(self).outbox == old(self).outbox,
    {
        self.current_state = DecisionState::NextView;
    }

    /// Queue a message into this decision, so it can be polled later
    pub fn queue(&mut self, message: StoredMessage<HotFeOxMsg<D>>)
        ensures
            final(self).queued_by(old(self), message),
    {
        self.decision_queue.queue_message(message);
    }

    /// Poll this decision: a fresh decision asks to send its new view vote to
    /// the leader; a running one hands out the oldest queued message of its
    /// phase when its queue was signalled.
    pub fn poll(&mut self, dec_handler: &DecisionHandler) -> (r: DecisionPollResult<D>)
        requires
            old(self).wf(),
        ensures
            final(self).wf(),
            poll_step(*old(self), *final(self), *dec_handler, r),
    {
        match self.current_state {
            DecisionState::Init => {
                let latest_qc = dec_handler.latest_qc();
                self.outbox.push(
                    DecisionAction::SendVote {
                        view_seq: self.view.sequence_number(),
                        vote_type: VoteType::NewView(latest_qc),
                        target: self.view.primary(),
                    },
                );
                self.current_state = DecisionState::Prepare(false, 0);
                assert(self.outbox@.drop_last() =~= old(self).outbox@);
                DecisionPollResult::Recv
            },
            DecisionState::Finally => DecisionPollResult::Decided,
            _ => {
                let q = match self.current_state {
                    DecisionState::Prepare(_, _) => PhaseQueue::Prepare,
                    DecisionState::PreCommit(_, _) => PhaseQueue::PreCommit,
                    DecisionState::Commit(_, _) => PhaseQueue::Commit,
                    DecisionState::Decide(_, _) => PhaseQueue::Decide,
                    _ => {
                        return DecisionPollResult::Recv;
                    },
                };
                if self.decision_queue.should_poll() {
                    match self.decision_queue.pop_front(q) {
                        Some(message) => DecisionPollResult::NextMessage(message),
                        None => DecisionPollResult::Recv,
                    }
                } else {
                    DecisionPollResult::Recv
                }
            },
        }
    }

    /// Process a given consensus message
    pub fn process_message<CP: CryptoProvider, RQA: ReqAggregator<D>>(
        &mut self,
        message: StoredMessage<HotFeOxMsg<D>>,
        dec_handler: &mut DecisionHandler,
        crypto: &CP,
        req_aggr: &RQA,
    ) -> (r: Result<DecisionResult<D>, DecisionError<CP::CombinationError>>)
        requires
            old(self).wf(),
            old(self).received() < usize::MAX,
        ensures
            final(self).wf(),
            decision_step(*old(self), *final(self), *old(dec_handler), *final(dec_handler), message, *crypto, r),
            proposals_from_pool(old(self).outbox@, final(self).outbox@, *req_aggr),
    {
        let is_leader = self.is_leader();
        let is_vote = match &message.message.message {
            HotFeOxMsgType::Vote(_) => true,
            HotFeOxMsgType::Proposal(_) => false,
        };
        match self.current_state {
            DecisionState::Init => {
                if self.view.sequence_number() == message.message.curr_view {
                    self.decision_queue.queue_message(message);
                    Ok(DecisionResult::MessageQueued)
                } else {
                    Ok(DecisionResult::MessageIgnored)
                }
            },
            DecisionState::Finally | DecisionState::NextView => Ok(DecisionResult::MessageIgnored),
            DecisionState::Prepare(_, _) => if is_leader && is_vote {
                self.process_message_prepare_leader(message, dec_handler, crypto, req_aggr)
            } else {
                Ok(self.process_message_prepare(message, dec_handler))
            },
            DecisionState::PreCommit(_, _) => if is_leader && is_vote {
                self.process_message_leader_phase(message, dec_handler, crypto, QCType::PrepareVote)
            } else {
                Ok(self.process_message_replica_phase(message, dec_handler, PhaseQueue::PreCommit))
            },
            DecisionState::Commit(_, _) => if is_leader && is_vote {
                self.process_message_leader_phase(message, dec_handler, crypto, QCType::PreCommitVote)
            } else {
                Ok(self.process_message_replica_phase(message, dec_handler, PhaseQueue::Commit))
            },
            DecisionState::Decide(_, _) => if is_leader && is_vote {
                self.process_message_leader_phase(message, dec_handler, crypto, QCType::CommitVote)
            } else {
                Ok(self.process_message_replica_phase(message, dec_handler, PhaseQueue::Decide))
            },
        }
    }

    /// A replica votes for a prepare proposal of the leader when the safety
    /// rule accepts it.
    fn process_message_prepare(
        &mut self,
        message: StoredMessage<HotFeOxMsg<D>>,
        dec_handler: &mut DecisionHandler,
    ) -> (r: DecisionResult<D>)
        requires
            old(self).wf(),
            old(self).current_state is Prepare,
        ensures
            final(self).wf(),
            replica_prepare_post(
                *old(self),
                *final(self),
                *old(dec_handler),
                *final(dec_handler),
                message,
                r,
            ),
    {
        if !(message.message.curr_view == self.view.sequence_number() && message.header.from
            == self.view.primary()) {
            return DecisionResult::MessageIgnored;
        }
        let kind: u8 = match &message.message.message {
            HotFeOxMsgType::Proposal(prop) => match &prop.proposal_type {
                ProposalType::Prepare(_, _) => 1,
                _ => 2,
            },
            HotFeOxMsgType::Vote(_) => 0,
        };
        if kind == 0 {
            return DecisionResult::MessageIgnored;
        }
        if kind == 2 {
            self.decision_queue.queue_message(message);
            return DecisionResult::MessageQueued;
        }
        let (node, qc) = match &message.message.message {
            HotFeOxMsgType::Proposal(prop) => match &prop.proposal_type {
                ProposalType::Prepare(node, qc) => (node.duplicate(), qc.duplicate()),
                _ => vstd::pervasive::unreached(),
            },
            HotFeOxMsgType::Vote(_) => vstd::pervasive::unreached(),
        };
        if !dec_handler.safe_node(&node, &qc) {
            return DecisionResult::MessageIgnored;
        }
        let header = node.decision_header;
        self.decision_log.set_current_proposal(Some(node));
        dec_handler.install_latest_prepare_qc(qc);
        self.outbox.push(
            DecisionAction::SendVote {
                view_seq: self.view.sequence_number(),
                vote_type: VoteType::PrepareVote(header),
                target: self.view.primary(),
            },
        );
        self.current_state = DecisionState::PreCommit(false, 0);
        DecisionResult::DecisionProgressed(None, Some(header), message)
    }

    /// A replica handles a proposal of a later phase: it records the
    /// certificate the proposal carries and votes for the next phase, or, on
    /// the decide proposal, completes the decision.
    fn process_message_replica_phase(
        &mut self,
        message: StoredMessage<HotFeOxMsg<D>>,
        dec_handler: &mut DecisionHandler,
        phase: PhaseQueue,
    ) -> (r: DecisionResult<D>)
        requires
            old(self).wf(),
            phase == PhaseQueue::PreCommit || phase == PhaseQueue::Commit || phase
                == PhaseQueue::Decide,
            state_queue(old(self).current_state) == Some(phase),
        ensures
            final(self).wf(),
            replica_phase_post(
                *old(self),
                *final(self),
                *old(dec_handler),
                *final(dec_handler),
                message,
                r,
                phase,
            ),
    {
        if !(message.message.curr_view == self.view.sequence_number() && message.header.from
            == self.view.primary()) {
            return DecisionResult::MessageIgnored;
        }
        // 0: ignore, 1: handle, 2: queue
        let kind: u8 = match &message.message.message {
            HotFeOxMsgType::Proposal(prop) => match (phase, &prop.proposal_type) {
                (PhaseQueue::PreCommit, ProposalType::PreCommit(_)) => 1,
                (PhaseQueue::PreCommit, ProposalType::Prepare(_, _)) => 0,
                (PhaseQueue::PreCommit, _) => 2,
                (PhaseQueue::Commit, ProposalType::Commit(_)) => 1,
                (PhaseQueue::Commit, ProposalType::Decide(_)) => 2,
                (PhaseQueue::Decide, ProposalType::Decide(_)) => 1,
                _ => 0,
            },
            HotFeOxMsgType::Vote(_) => 0,
        };
        if kind == 0 {
            return DecisionResult::MessageIgnored;
        }
        if kind == 2 {
            self.decision_queue.queue_message(message);
            return DecisionResult::MessageQueued;
        }
        let qc = match &message.message.message {
            HotFeOxMsgType::Proposal(prop) => match &prop.proposal_type {
                ProposalType::PreCommit(qc) => qc.duplicate(),
                ProposalType::Commit(qc) => qc.duplicate(),
                ProposalType::Decide(qc) => qc.duplicate(),
                ProposalType::Prepare(_, _) => vstd::pervasive::unreached(),
            },
            HotFeOxMsgType::Vote(_) => vstd::pervasive::unreached(),
        };
        let returned_qc = qc.duplicate();
        match phase {
            PhaseQueue::PreCommit => {
                self.decision_log.set_replica_prepare_qc(qc.duplicate());
                let node = qc.decision_node;
                dec_handler.install_latest_prepare_qc(qc);
                self.outbox.push(
                    DecisionAction::SendVote {
                        view_seq: self.view.sequence_number(),
                        vote_type: VoteType::PreCommitVote(node),
                        target: self.view.primary(),
                    },
                );
                self.current_state = DecisionState::Commit(false, 0);
                DecisionResult::DecisionProgressed(Some(returned_qc), None, message)
            },
            PhaseQueue::Commit => {
                self.decision_log.set_replica_locked_qc(qc.duplicate());
                let node = qc.decision_node;
                dec_handler.install_latest_locked_qc(qc);
                self.outbox.push(
                    DecisionAction::SendVote {
                        view_seq: self.view.sequence_number(),
                        vote_type: VoteType::CommitVote(node),
                        target: self.view.primary(),
                    },
                );
                self.current_state = DecisionState::Decide(false, 0);
                DecisionResult::DecisionProgressed(Some(returned_qc), None, message)
            },
            _ => {
                self.current_state = DecisionState::Finally;
                dec_handler.install_latest_qc(qc);
                DecisionResult::Decided(Some(returned_qc), message)
            },
        }
    }

    /// The leader gathers new view votes; with a quorum it proposes and, when
    /// the safety rule accepts its own node, votes for it and moves on to
    /// gather the votes of the pre-commit phase.
    fn process_message_prepare_leader<CP: CryptoProvider, RQA: ReqAggregator<D>>(
        &mut self,
        message: StoredMessage<HotFeOxMsg<D>>,
        dec_handler: &mut DecisionHandler,
        crypto: &CP,
        req_aggr: &RQA,
    ) -> (r: Result<DecisionResult<D>, DecisionError<CP::CombinationError>>)
        requires
            old(self).wf(),
            old(self).spec_is_leader(),
            old(self).current_state is Prepare,
            old(self).received() < usize::MAX,
        ensures
            final(self).wf(),
            leader_prepare_post(
                *old(self),
                *final(self),
                *old(dec_handler),
                *final(dec_handler),
                message,
                *crypto,
                r,
            ),
            proposals_from_pool(old(self).outbox@, final(self).outbox@, *req_aggr),
    {
        let kind: u8 = match &message.message.message {
            HotFeOxMsgType::Vote(v) => if message.message.curr_view == self.view.sequence_number() {
                match &v.vote_type {
                    VoteType::NewView(_) => 1,
                    _ => 2,
                }
            } else {
                0
            },
            HotFeOxMsgType::Proposal(_) => 0,
        };
        if kind == 0 {
            return Ok(DecisionResult::MessageIgnored);
        }
        if kind == 2 {
            self.decision_queue.queue_message(message);
            return Ok(DecisionResult::MessageQueued);
        }
        let vote_message = match &message.message.message {
            HotFeOxMsgType::Vote(v) => v.duplicate(),
            HotFeOxMsgType::Proposal(_) => vstd::pervasive::unreached(),
        };
        let from = message.header.from;
        let (sent, received) = match self.current_state {
            DecisionState::Prepare(s, r) => (s, r + 1),
            _ => vstd::pervasive::unreached(),
        };
        self.current_state = DecisionState::Prepare(sent, received);
        let quorum = self.view.quorum();
        let leader_log = match &mut self.msg_decision_log {
            MsgDecisionLog::Leader(l) => l,
            MsgDecisionLog::Replica(_) => vstd::pervasive::unreached(),
        };
        let ghost reported = match vote_message.vote_type@ {
            VoteTypeView::NewView(q) => q,
            _ => None,
        };
        match leader_log.high_qc.accept_new_view(from, vote_message) {
            Ok(()) => {},
            Err(e) => {
                return Err(DecisionError::NewViewAcceptError(e));
            },
        }
        proof {
            assert(leader_log.high_qc.new_view@.dom().contains(reported));
        }
        if received >= quorum && !sent {
            self.current_state = DecisionState::Prepare(true, received);
            let high_qc = leader_log.high_qc.get_high_qc();
            let (pooled_request, digest) = req_aggr.take_pool_requests();
            let node = match high_qc {
                Some(qc) => {
                    let n = DecisionNode::create_leaf(&qc.decision_node, digest, pooled_request);
                    proof {
                        let q = qc@;
                        assert(leader_log.high_qc.new_view@.dom().contains(Some(q)));
                        assert(n.decision_header == spec_header_from_previous(
                            n.decision_header.current_block_digest,
                            q.decision_node,
                            n.decision_header.contained_client_commands,
                        ));
                    }
                    n
                },
                None => DecisionNode::create_root_leaf(&self.view, digest, pooled_request),
            };
            let header = node.decision_header;
            self.decision_log.set_current_proposal(Some(node.duplicate()));
            let new_qc = match leader_log.high_qc.create_new_qc(crypto, &header) {
                Ok(q) => q,
                Err(e) => {
                    proof {
                        assert(leader_log.high_qc.new_view@.dom().contains(reported));
                        assert(!(leader_log.high_qc.new_view@.dom() =~= Set::empty()));
                    }
                    return Err(DecisionError::NewViewGenerateError(e));
                },
            };
            let own_safe = dec_handler.safe_node(&node, &new_qc);
            let msg = HotFeOxMsgType::Proposal(
                ProposalMessage::new(ProposalType::Prepare(node, new_qc.duplicate())),
            );
            let targets = self.view.quorum_members().clone();
            proof {
                assert(targets@ =~= self.view.spec_members());
            }
            self.outbox.push(
                DecisionAction::Broadcast {
                    message: HotFeOxMsg::new(self.view.sequence_number(), msg),
                    targets,
                },
            );
            proof {
                assert(self.outbox@.take(old(self).outbox@.len() as int) =~= old(self).outbox@);
            }
            // The leader takes part in its own round: it handles the proposal it
            // broadcast as every participant does.
            if own_safe {
                dec_handler.install_latest_prepare_qc(new_qc.duplicate());
                self.outbox.push(
                    DecisionAction::SendVote {
                        view_seq: self.view.sequence_number(),
                        vote_type: VoteType::PrepareVote(header),
                        target: self.view.primary(),
                    },
                );
                proof {
                    assert(self.outbox@.take(old(self).outbox@.len() as int) =~= old(self).outbox@);
                }
                self.current_state = DecisionState::PreCommit(false, 0);
            }
            Ok(DecisionResult::DecisionProgressed(Some(new_qc), Some(header), message))
        } else {
            Ok(DecisionResult::DecisionProgressed(None, None, message))
        }
    }

    /// The leader gathers the votes of a phase; with a quorum it builds the
    /// certificate of the phase, broadcasts the next proposal and, taking part
    /// in its own round, records the certificate, votes on it and moves on to
    /// the next phase (the commit votes complete the decision).
    fn process_message_leader_phase<CP: CryptoProvider>(
        &mut self,
        message: StoredMessage<HotFeOxMsg<D>>,
        dec_handler: &mut DecisionHandler,
        crypto: &CP,
        t: QCType,
    ) -> (r: Result<DecisionResult<D>, DecisionError<CP::CombinationError>>)
        requires
            old(self).wf(),
            old(self).spec_is_leader(),
            old(self).received() < usize::MAX,
            state_queue(old(self).current_state) == Some(
                match t {
                    QCType::PrepareVote => PhaseQueue::PreCommit,
                    QCType::PreCommitVote => PhaseQueue::Commit,
                    QCType::CommitVote => PhaseQueue::Decide,
                },
            ),
        ensures
            final(self).wf(),
            leader_phase_post(
                *old(self),
                *final(self),
                *old(dec_handler),
                *final(dec_handler),
                message,
                *crypto,
                r,
                t,
            ),
    {
        let kind: u8 = match &message.message.message {
            HotFeOxMsgType::Vote(v) => if message.message.curr_view == self.view.sequence_number() {
                match (t, &v.vote_type) {
                    (QCType::PrepareVote, VoteType::PrepareVote(_)) => 1,
                    (QCType::PreCommitVote, VoteType::PreCommitVote(_)) => 1,
                    (QCType::CommitVote, VoteType::CommitVote(_)) => 1,
                    (QCType::PreCommitVote, VoteType::PrepareVote(_)) => 0,
                    (QCType::CommitVote, _) => 0,
                    _ => 2,
                }
            } else {
                0
            },
            HotFeOxMsgType::Proposal(_) => 0,
        };
        if kind == 0 {
            return Ok(DecisionResult::MessageIgnored);
        }
        if kind == 2 {
            self.decision_queue.queue_message(message);
            return Ok(DecisionResult::MessageQueued);
        }
        let vote_message = match &message.message.message {
            HotFeOxMsgType::Vote(v) => v.duplicate(),
            HotFeOxMsgType::Proposal(_) => vstd::pervasive::unreached(),
        };
        let from = message.header.from;
        let (sent, received) = match self.current_state {
            DecisionState::PreCommit(s, r) => (s, r + 1),
            DecisionState::Commit(s, r) => (s, r + 1),
            DecisionState::Decide(s, r) => (s, r + 1),
            _ => vstd::pervasive::unreached(),
        };
        self.current_state = make_phase_state(t, sent, received);
        let quorum = self.view.quorum();
        let leader_log = match &mut self.msg_decision_log {
            MsgDecisionLog::Leader(l) => l,
            MsgDecisionLog::Replica(_) => vstd::pervasive::unreached(),
        };
        let ghost voted = match vote_message.vote_type@ {
            VoteTypeView::PrepareVote(h) => h,
            VoteTypeView::PreCommitVote(h) => h,
            VoteTypeView::CommitVote(h) => h,
            VoteTypeView::NewView(_) => arbitrary(),
        };
        let accepted = match leader_log.accept_vote(from, vote_message) {
            Ok(b) => b,
            Err(e) => {
                return Err(DecisionError::VoteAcceptError(e));
            },
        };
        if !accepted {
            return Ok(DecisionResult::DuplicateVote(from));
        }
        if received >= quorum && !sent {
            self.current_state = make_phase_state(t, true, received);
            let created_qc = match leader_log.generate_qc(crypto, &self.view, t) {
                Ok(q) => q,
                Err(e) => {
                    proof {
                        assert(leader_log.store_for(t).decision_nodes@.dom().contains(voted));
                        assert(!(leader_log.store_for(t).decision_nodes@.dom() =~= Set::empty()));
                    }
                    return Err(DecisionError::VoteStoreError(e));
                },
            };
            self.decision_log.set_leader_qc(t, created_qc.duplicate());
            let prop = match t {
                QCType::PrepareVote => ProposalType::PreCommit(created_qc.duplicate()),
                QCType::PreCommitVote => ProposalType::Commit(created_qc.duplicate()),
                QCType::CommitVote => ProposalType::Decide(created_qc.duplicate()),
            };
            let msg = HotFeOxMsgType::Proposal(ProposalMessage::new(prop));
            let targets = self.view.quorum_members().clone();
            proof {
                assert(targets@ =~= self.view.spec_members());
            }
            self.outbox.push(
                DecisionAction::Broadcast {
                    message: HotFeOxMsg::new(self.view.sequence_number(), msg),
                    targets,
                },
            );
            proof {
                assert(self.outbox@.drop_last() =~= old(self).outbox@);
            }
            self.current_state = make_phase_after(t);
            // The leader takes part in its own round: it handles the proposal it
            // broadcast as every participant does.
            match t {
                QCType::PrepareVote => {
                    self.decision_log.set_replica_prepare_qc(created_qc.duplicate());
                    dec_handler.install_latest_prepare_qc(created_qc.duplicate());
                    self.outbox.push(
                        DecisionAction::SendVote {
                            view_seq: self.view.sequence_number(),
                            vote_type: VoteType::PreCommitVote(created_qc.decision_node),
                            target: self.view.primary(),
                        },
                    );
                    proof {
                        assert(self.outbox@.take(old(self).outbox@.len() as int) =~= old(self).outbox@);
                    }
                    Ok(DecisionResult::DecisionProgressed(Some(created_qc), None, message))
                },
                QCType::PreCommitVote => {
                    self.decision_log.set_replica_locked_qc(created_qc.duplicate());
                    dec_handler.install_latest_locked_qc(created_qc.duplicate());
                    self.outbox.push(
                        DecisionAction::SendVote {
                            view_seq: self.view.sequence_number(),
                            vote_type: VoteType::CommitVote(created_qc.decision_node),
                            target: self.view.primary(),
                        },
                    );
                    proof {
                        assert(self.outbox@.take(old(self).outbox@.len() as int) =~= old(self).outbox@);
                    }
                    Ok(DecisionResult::DecisionProgressed(Some(created_qc), None, message))
                },
                QCType::CommitVote => {
                    dec_handler.install_latest_qc(created_qc.duplicate());
                    Ok(DecisionResult::Decided(Some(created_qc), message))
                },
            }
        } else {
            Ok(DecisionResult::DecisionProgressed(None, None, message))
        }
    }

    pub fn finalize_decision(self) -> (d: ProtocolConsensusDecision<D>) where D: SessionBased
        requires
            self.decision_log.current_proposal is Some,
        ensures
            d.seq == self.spec_seq(),
            d.client_rq_infos@ == rq_infos_of(d.client_commands@),
            d.client_commands == self.decision_log.current_proposal->0.client_commands,
            d.batch_digest == self.decision_log.current_proposal->0.decision_header.current_block_digest,
    {
        let seq = self.view.sequence_number();
        let decision_node = match self.decision_log.into_current_proposal() {
            Some(n) => n,
            None => vstd::pervasive::unreached(),
        };
        let (header, client_commands) = decision_node.into_parts();
        ProtocolConsensusDecision::new(seq, client_commands, header.current_block_digest)
    }
}

} // verus!
