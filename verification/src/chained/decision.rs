//! One decision of the chained protocol. The leader of a view proposes once a
//! quorum of new view messages arrived; replicas vote for a safe proposal and
//! send the vote to the leader of the next view, which builds the certificate
//! the next proposal carries. What must be signed and sent is left in the
//! decision's outbox for the caller to carry out.
use crate::chained::chained_decision_tree::{ChainedDecisionNode, PendingDecisionNodes};
use crate::chained::log::{
    is_high_qc, quorum_qc_from, ChainedQCGenerateError, DecisionLog, NewViewGenerateError,
    NewViewStore, VoteStore,
};
use crate::chained::messages::{
    justify_rank, IronChainMessage, IronChainMessageType, NewViewMessage, ProposalMessage,
    VoteDetails, VoteDetailsView,
};
use crate::chained::metrics::ConsensusMetric;
use crate::chained::msg_queue::ChainedHotStuffMsgQueue;
use crate::chained::{
    chained_safe_node_rule, duplicate_opt_chained, opt_chained_view, ChainedDecisionHandler,
    ChainedQC, ChainedQCView,
};
use crate::decision_tree::{node_copied, DecisionNode, DecisionNodeHeader, StoredMessage};
use crate::decisions::req_aggr::ReqAggregator;
use crate::crypto::{CryptoProvider, CryptoSignatureCombiner};
use crate::ordering::{spec_next_seq, Digest, NodeId, SeqNo};
use crate::spec_quorum_for_n;
use crate::view::leader_allocation::spec_round_robin_leader;
use crate::view::View;
use crate::vote_table::{has_voted, vote_count, with_vote};
use vstd::prelude::*;
use vstd::view::View as _;

verus! {

#[derive(Debug, Clone, Copy, PartialEq, Eq, Structural)]
pub enum ChainedDecisionState {
    Init,
    /// The new view messages received, and whether the proposal was made.
    Prepare(usize, bool),
    PreCommit,
    Commit,
    Decide,
    Finalized,
}

/// The position of a state in the order the states follow each other.
pub open spec fn state_rank(s: ChainedDecisionState) -> nat {
    match s {
        ChainedDecisionState::Init => 0,
        ChainedDecisionState::Prepare(_, _) => 1,
        ChainedDecisionState::PreCommit => 2,
        ChainedDecisionState::Commit => 3,
        ChainedDecisionState::Decide => 4,
        ChainedDecisionState::Finalized => 5,
    }
}

/// `a` comes after `b`: a later state, or, in the prepare state, more new
/// view messages, or as many and the proposal made.
pub open spec fn state_after(a: ChainedDecisionState, b: ChainedDecisionState) -> bool {
    if state_rank(a) != state_rank(b) {
        state_rank(a) > state_rank(b)
    } else {
        match (a, b) {
            (ChainedDecisionState::Prepare(ra, pa), ChainedDecisionState::Prepare(rb, pb)) => ra > rb
                || (ra == rb && pa && !pb),
            _ => false,
        }
    }
}

/// Whether `a` comes after `b`.
pub fn is_after(a: ChainedDecisionState, b: ChainedDecisionState) -> (r: bool)
    ensures
        r == state_after(a, b),
{
    let ra: u8 = match a {
        ChainedDecisionState::Init => 0,
        ChainedDecisionState::Prepare(_, _) => 1,
        ChainedDecisionState::PreCommit => 2,
        ChainedDecisionState::Commit => 3,
        ChainedDecisionState::Decide => 4,
        ChainedDecisionState::Finalized => 5,
    };
    let rb: u8 = match b {
        ChainedDecisionState::Init => 0,
        ChainedDecisionState::Prepare(_, _) => 1,
        ChainedDecisionState::PreCommit => 2,
        ChainedDecisionState::Commit => 3,
        ChainedDecisionState::Decide => 4,
        ChainedDecisionState::Finalized => 5,
    };
    if ra != rb {
        return ra > rb;
    }
    match (a, b) {
        (ChainedDecisionState::Prepare(xa, pa), ChainedDecisionState::Prepare(xb, pb)) => xa > xb || (
        xa == xb && pa && !pb),
        _ => false,
    }
}

/// What a chained decision asks its caller to carry out.
#[derive(Debug)]
pub enum ChainedAction<D> {
    /// Sign a new view message of the view reporting `qc` and send it to `target`.
    SendNewView { seq: SeqNo, qc: Option<ChainedQC>, target: NodeId },
    /// Sign a vote of the view for `details` and send it to `target`.
    SendVote { seq: SeqNo, details: VoteDetails, target: NodeId },
    /// Sign the message and send it to every target.
    BroadcastProposal { message: IronChainMessage<D>, targets: Vec<NodeId> },
}

pub enum ChainedDecisionResult<D> {
    ProposalGenerated(DecisionNodeHeader, StoredMessage<IronChainMessage<D>>),
    VoteGenerated(ChainedDecisionNode<D>, StoredMessage<IronChainMessage<D>>),
    MessageIgnored,
    MessageQueued,
    MessageProcessed(StoredMessage<IronChainMessage<D>>),
    NextLeaderMessages(StoredMessage<IronChainMessage<D>>, ChainedQC),
}

pub enum ChainedDecisionPollResult<D> {
    Exec(StoredMessage<IronChainMessage<D>>),
    ReceiveMsg,
    Decided,
}

#[derive(Debug, Clone, Copy, PartialEq, Eq, Structural)]
pub enum FinalizeDecisionError {
    FailedToFinalizeDecisionMissingDigest,
}

pub struct ChainedDecision<D> {
    pub view: View,
    pub node_id: NodeId,
    pub state: ChainedDecisionState,
    pub decision_node_digest: Option<Digest>,
    pub decision_qc: Option<ChainedQC>,
    pub msg_queue: ChainedHotStuffMsgQueue<D>,
    pub decision_log: DecisionLog,
    pub metrics: ConsensusMetric,
    pub outbox: Vec<ChainedAction<D>>,
}

/// The leader of the view after `v`.
pub open spec fn next_leader_of(v: View) -> NodeId {
    spec_round_robin_leader(v.spec_members(), spec_next_seq(v.spec_seq()))
}

/// The header of the node a proposal of view `seq` justified by `high` gets:
/// a leaf on the node of `high`, or a root node without one.
pub open spec fn proposal_header_fits(h: DecisionNodeHeader, seq: SeqNo, high: Option<ChainedQCView>) -> bool {
    &&& h.view_no == seq
    &&& match high {
        Some(q) => h.previous_block == Some(q.decision_node.current_block_digest),
        None => h.previous_block is None,
    }
}

/// `a` broadcasts, to `members`, a proposal of view `seq` for a node with
/// header `h` justified by `high`.
pub open spec fn is_proposal_broadcast<D>(
    a: ChainedAction<D>,
    seq: SeqNo,
    members: Seq<NodeId>,
    h: DecisionNodeHeader,
    high: Option<ChainedQCView>,
) -> bool {
    match a {
        ChainedAction::BroadcastProposal { message, targets } => {
            &&& message.seq_no == seq
            &&& targets@ == members
            &&& message.message matches IronChainMessageType::Proposal(p)
            &&& p.proposal.decision_node.decision_header == h
            &&& opt_chained_view(p.proposal.justify) == high
        },
        _ => false,
    }
}

/// The proposal a message of view `seq` carries, if it is one.
pub open spec fn proposal_in<D>(m: StoredMessage<IronChainMessage<D>>) -> Option<ChainedDecisionNode<D>> {
    match m.message.message {
        IronChainMessageType::Proposal(p) => Some(p.proposal),
        _ => None,
    }
}

impl<D> ChainedDecision<D> {
    pub open spec fn spec_seq(&self) -> SeqNo {
        self.view.spec_seq()
    }

    pub open spec fn spec_is_leader(&self) -> bool {
        self.node_id == self.view.spec_leader()
    }

    pub open spec fn spec_is_next_leader(&self) -> bool {
        self.node_id == next_leader_of(self.view)
    }

    pub open spec fn wf(&self) -> bool {
        &&& self.view.spec_members().len() > 0
        &&& self.decision_log.wf()
        &&& self.spec_is_leader() <==> self.decision_log is Leader
        &&& (!self.spec_is_leader() && self.spec_is_next_leader()) <==> self.decision_log is NextLeader
    }

    /// The votes received while preparing, when preparing.
    pub open spec fn received(&self) -> int {
        match self.state {
            ChainedDecisionState::Prepare(r, _) => r as int,
            _ => 0,
        }
    }

    /// Only the message queue changed.
    pub open spec fn same_but_queue(&self, other: &Self) -> bool {
        &&& self.view == other.view
        &&& self.node_id == other.node_id
        &&& self.state == other.state
        &&& self.decision_node_digest == other.decision_node_digest
        &&& self.decision_qc == other.decision_qc
        &&& self.decision_log == other.decision_log
        &&& self.metrics == other.metrics
        &&& self.outbox == other.outbox
    }

    /// The view, node, role log and metrics are as they were.
    pub open spec fn same_frame(&self, other: &Self) -> bool {
        &&& self.view == other.view
        &&& self.node_id == other.node_id
        &&& self.metrics == other.metrics
    }
}

impl<D> ChainedDecision<D> {
    fn new_internal(view: View, node_id: NodeId, state: ChainedDecisionState) -> (d: ChainedDecision<D>)
        requires
            view.spec_members().len() > 0,
        ensures
            d.wf(),
            d.view == view,
            d.node_id == node_id,
            d.state == state,
            d.decision_node_digest is None,
            d.decision_qc is None,
            !d.msg_queue.get_queue,
            d.msg_queue.pending_messages@.len() == 0,
            d.outbox@.len() == 0,
            d.decision_log matches DecisionLog::Leader(s) ==> s.new_view@.dom() =~= Set::empty(),
            d.decision_log matches DecisionLog::NextLeader(s) ==> s.votes@.dom() =~= Set::empty() && !s.proposed,
    {
        let is_leader = node_id == view.primary();
        let next = view.next_view();
        let is_next_leader = node_id == next.primary();
        let (decision_log, metrics) = if is_leader {
            (DecisionLog::Leader(NewViewStore::new()), ConsensusMetric::leader_decision())
        } else if is_next_leader {
            (DecisionLog::NextLeader(VoteStore::new()), ConsensusMetric::next_leader_decision())
        } else {
            (DecisionLog::Replica, ConsensusMetric::replica_consensus_decision())
        };
        ChainedDecision {
            view,
            node_id,
            state,
            decision_node_digest: None,
            decision_qc: None,
            msg_queue: ChainedHotStuffMsgQueue::new(),
            decision_log,
            metrics,
            outbox: Vec::new(),
        }
    }

    /// A decision that starts preparing right away.
    pub fn new(view: View, node_id: NodeId) -> (d: ChainedDecision<D>)
        requires
            view.spec_members().len() > 0,
        ensures
            d.wf(),
            d.view == view,
            d.node_id == node_id,
            d.state == ChainedDecisionState::Prepare(0, false),
            d.decision_node_digest is None,
            d.decision_qc is None,
            !d.msg_queue.get_queue,
            d.msg_queue.pending_messages@.len() == 0,
            d.outbox@.len() == 0,
            d.decision_log matches DecisionLog::Leader(s) ==> s.new_view@.dom() =~= Set::empty(),
            d.decision_log matches DecisionLog::NextLeader(s) ==> s.votes@.dom() =~= Set::empty() && !s.proposed,
    {
        Self::new_internal(view, node_id, ChainedDecisionState::Prepare(0, false))
    }

    /// The first decision of a view: its leader prepares right away, the
    /// others first send their new view message.
    pub fn new_first_view(view: View, node_id: NodeId) -> (d: ChainedDecision<D>)
        requires
            view.spec_members().len() > 0,
        ensures
            d.wf(),
            d.view == view,
            d.node_id == node_id,
            d.state == (if node_id == view.spec_leader() {
                ChainedDecisionState::Prepare(0, false)
            } else {
                ChainedDecisionState::Init
            }),
            d.decision_node_digest is None,
            d.decision_qc is None,
            !d.msg_queue.get_queue,
            d.msg_queue.pending_messages@.len() == 0,
            d.outbox@.len() == 0,
            d.decision_log matches DecisionLog::Leader(s) ==> s.new_view@.dom() =~= Set::empty(),
            d.decision_log matches DecisionLog::NextLeader(s) ==> s.votes@.dom() =~= Set::empty() && !s.proposed,
    {
        if view.primary() == node_id {
            Self::new(view, node_id)
        } else {
            Self::new_internal(view, node_id, ChainedDecisionState::Init)
        }
    }

    pub fn view(&self) -> (v: &View)
        ensures
            *v == self.view,
    {
        &self.view
    }

    pub fn node_id(&self) -> (n: NodeId)
        ensures
            n == self.node_id,
    {
        self.node_id
    }

    pub fn state(&self) -> (s: ChainedDecisionState)
        ensures
            s == self.state,
    {
        self.state
    }

    pub fn decision_node_digest(&self) -> (d: Option<Digest>)
        ensures
            d == self.decision_node_digest,
    {
        self.decision_node_digest
    }

    pub fn sequence_number(&self) -> (s: SeqNo)
        ensures
            s == self.spec_seq(),
    {
        self.view.sequence_number()
    }

    fn is_leader(&self) -> (b: bool)
        ensures
            b == self.spec_is_leader(),
    {
        self.node_id == self.view.primary()
    }

    fn is_next_leader(&self) -> (b: bool)
        requires
            self.view.spec_members().len() > 0,
        ensures
            b == self.spec_is_next_leader(),
    {
        self.node_id == self.view.next_view().primary()
    }

    /// Hands out the actions the decision asked for, oldest first.
    pub fn take_actions(&mut self) -> (actions: Vec<ChainedAction<D>>)
        ensures
            actions@ == old(self).outbox@,
            final(self).outbox@.len() == 0,
            final(self).view == old(self).view,
            final(self).node_id == old(self).node_id,
            final(self).state == old(self).state,
            final(self).decision_node_digest == old(self).decision_node_digest,
            final(self).decision_qc == old(self).decision_qc,
            final(self).msg_queue == old(self).msg_queue,
            final(self).decision_log == old(self).decision_log,
            final(self).metrics == old(self).metrics,
    {
        let mut actions: Vec<ChainedAction<D>> = Vec::new();
        std::mem::swap(&mut actions, &mut self.outbox);
        actions
    }

    /// Move the decision on to `state` if that comes after its current state.
    /// Reaching the pre-commit state installs the certificate of the decision as
    /// the latest prepared one, reaching the commit state as the latest locked
    /// one, when the decision has one.
    pub fn advance_state(&mut self, state: ChainedDecisionState, decision_handler: &mut ChainedDecisionHandler)
        requires
            old(self).wf(),
        ensures
            final(self).wf(),
            advanced(*old(self), *final(self), state, *old(decision_handler), *final(decision_handler)),
    {
        if is_after(state, self.state) {
            self.state = state;
            match state {
                ChainedDecisionState::PreCommit => {
                    match &self.decision_qc {
                        Some(qc) => decision_handler.install_latest_prepare_qc(qc.duplicate()),
                        None => {},
                    }
                },
                ChainedDecisionState::Commit => {
                    match &self.decision_qc {
                        Some(qc) => decision_handler.install_latest_locked_qc(qc.duplicate()),
                        None => {},
                    }
                },
                _ => {},
            }
        }
    }

    pub fn queue_message(&mut self, message: StoredMessage<IronChainMessage<D>>)
        ensures
            final(self).same_but_queue(old(self)),
            final(self).msg_queue.get_queue,
            final(self).msg_queue.pending_messages@ == old(self).msg_queue.pending_messages@.push(message),
    {
        self.msg_queue.queue_message(message);
    }

    /// Poll this decision: a decision not started yet asks to send its new
    /// view message, reporting the latest locked certificate, to the leader and
    /// starts preparing; a running one hands out its oldest queued message,
    /// when its queue was signalled.
    pub fn poll(&mut self, decision_handler: &ChainedDecisionHandler) -> (r: ChainedDecisionPollResult<D>)
        requires
            old(self).wf(),
        ensures
            final(self).wf(),
            chained_polled(*old(self), *final(self), *decision_handler, r),
    {
        match self.state {
            ChainedDecisionState::Init => {
                let qc = duplicate_opt_chained(&decision_handler.latest_locked_qc);
                self.outbox.push(
                    ChainedAction::SendNewView {
                        seq: self.view.sequence_number(),
                        qc,
                        target: self.view.primary(),
                    },
                );
                self.state = ChainedDecisionState::Prepare(0, false);
                assert(self.outbox@.drop_last() =~= old(self).outbox@);
                ChainedDecisionPollResult::ReceiveMsg
            },
            ChainedDecisionState::Finalized => ChainedDecisionPollResult::Decided,
            _ => {
                if self.msg_queue.should_poll() {
                    match self.msg_queue.pop_message() {
                        Some(message) => {
                            return ChainedDecisionPollResult::Exec(message);
                        },
                        None => {},
                    }
                }
                ChainedDecisionPollResult::ReceiveMsg
            },
        }
    }

    /// The digest of the decided node, which a decision that voted knows.
    pub fn finalize(self) -> (r: Result<Digest, FinalizeDecisionError>)
        ensures
            match self.decision_node_digest {
                Some(d) => r == Ok::<Digest, FinalizeDecisionError>(d),
                None => r == Err::<Digest, FinalizeDecisionError>(
                    FinalizeDecisionError::FailedToFinalizeDecisionMissingDigest,
                ),
            },
    {
        match self.decision_node_digest {
            Some(d) => Ok(d),
            None => Err(FinalizeDecisionError::FailedToFinalizeDecisionMissingDigest),
        }
    }
}

/// `a` broadcasts a proposal whose node carries a batch the pool `rqa` hands
/// out: its requests, in order, with their digest as the node's block digest.
pub open spec fn broadcasts_pooled<D, RQA: ReqAggregator<D>>(a: ChainedAction<D>, rqa: RQA) -> bool {
    &&& a matches ChainedAction::BroadcastProposal { message, .. }
    &&& message.message matches IronChainMessageType::Proposal(p)
    &&& rqa.hands_out(
        p.proposal.decision_node.client_commands@,
        p.proposal.decision_node.decision_header.current_block_digest,
    )
}

impl<D: Clone> ChainedDecision<D> {
    /// Take the pooled requests and broadcast a proposal of a node on the node
    /// of `previous_high_qc` (a root node without one), justified by it.
    fn generate_and_send_proposal<RQA: ReqAggregator<D>>(
        &mut self,
        rq_aggr: &RQA,
        previous_high_qc: &Option<ChainedQC>,
    ) -> (h: DecisionNodeHeader)
        requires
            old(self).wf(),
        ensures
            final(self).wf(),
            proposal_header_fits(h, old(self).spec_seq(), opt_chained_view(*previous_high_qc)),
            final(self).outbox@.len() == old(self).outbox@.len() + 1,
            final(self).outbox@.drop_last() == old(self).outbox@,
            is_proposal_broadcast(
                final(self).outbox@.last(),
                old(self).spec_seq(),
                old(self).view.spec_members(),
                h,
                opt_chained_view(*previous_high_qc),
            ),
            broadcasts_pooled(final(self).outbox@.last(), *rq_aggr),
            final(self).view == old(self).view,
            final(self).node_id == old(self).node_id,
            final(self).state == old(self).state,
            final(self).decision_node_digest == old(self).decision_node_digest,
            final(self).decision_qc == old(self).decision_qc,
            final(self).msg_queue == old(self).msg_queue,
            final(self).decision_log == old(self).decision_log,
            final(self).metrics == old(self).metrics,
    {
        let (requests, digest) = rq_aggr.take_pool_requests();
        let decision_node = match previous_high_qc {
            Some(qc) => ChainedDecisionNode::create_leaf(
                self.view.sequence_number(),
                qc.decision_node(),
                digest,
                requests,
                qc.duplicate(),
            ),
            None => ChainedDecisionNode::create_root(&self.view, digest, requests),
        };
        let decision_node_header = decision_node.decision_node.decision_header;
        let proposal = ProposalMessage::new(decision_node);
        let message = IronChainMessage::new(self.view.sequence_number(), IronChainMessageType::Proposal(proposal));
        let targets = self.view.quorum_members().clone();
        self.outbox.push(ChainedAction::BroadcastProposal { message, targets });
        assert(self.outbox@.drop_last() =~= old(self).outbox@);
        decision_node_header
    }

    /// The leader of the next view gathered a quorum for the previous node:
    /// propose the next node on it.
    pub fn handle_previous_node_completed_leader<RQA: ReqAggregator<D>>(
        &mut self,
        rq_aggr: &RQA,
        previous_high_qc: &ChainedQC,
    ) -> (h: DecisionNodeHeader)
        requires
            old(self).wf(),
        ensures
            final(self).wf(),
            proposal_header_fits(h, old(self).spec_seq(), Some(previous_high_qc@)),
            final(self).outbox@.len() == old(self).outbox@.len() + 1,
            final(self).outbox@.drop_last() == old(self).outbox@,
            is_proposal_broadcast(
                final(self).outbox@.last(),
                old(self).spec_seq(),
                old(self).view.spec_members(),
                h,
                Some(previous_high_qc@),
            ),
            broadcasts_pooled(final(self).outbox@.last(), *rq_aggr),
            final(self).view == old(self).view,
            final(self).node_id == old(self).node_id,
            final(self).state == old(self).state,
            final(self).decision_node_digest == old(self).decision_node_digest,
            final(self).decision_qc == old(self).decision_qc,
            final(self).msg_queue == old(self).msg_queue,
            final(self).decision_log == old(self).decision_log,
            final(self).metrics == old(self).metrics,
    {
        let high = Some(previous_high_qc.duplicate());
        self.generate_and_send_proposal(rq_aggr, &high)
    }

    /// Process a message: the leader takes new view messages, the leader of the
    /// next view takes votes, and every replica takes proposals.
    pub fn process_message<CP: CryptoProvider, RQA: ReqAggregator<D>>(
        &mut self,
        rq_aggr: &RQA,
        decision_handler: &mut ChainedDecisionHandler,
        crypto: &CP,
        pending_decision_nodes: &PendingDecisionNodes<D>,
        message: StoredMessage<IronChainMessage<D>>,
    ) -> (r: Result<ChainedDecisionResult<D>, NewViewGenerateError<CP::CombinationError>>)
        requires
            old(self).wf(),
            old(self).received() < usize::MAX,
            old(self).spec_is_next_leader() && message.message.message is Vote ==> !old(self).spec_is_leader()
                && message.message.seq_no == old(self).spec_seq(),
        ensures
            final(self).wf(),
            chained_step(*old(self), *final(self), *old(decision_handler), *final(decision_handler), message, *crypto, r),
            r matches Ok(ChainedDecisionResult::ProposalGenerated(_, _)) ==> broadcasts_pooled(
                final(self).outbox@.last(),
                *rq_aggr,
            ),
    {
        let is_new_view = match &message.message.message {
            IronChainMessageType::NewView(_) => true,
            _ => false,
        };
        let is_vote = match &message.message.message {
            IronChainMessageType::Vote(_) => true,
            _ => false,
        };
        if self.is_leader() && is_new_view {
            self.process_message_leader(rq_aggr, message)
        } else if self.is_next_leader() && is_vote {
            self.process_message_next_leader(decision_handler, crypto, message)
        } else {
            Ok(self.process_message_replica(decision_handler, pending_decision_nodes, message))
        }
    }

    /// The leader gathers new view messages of its view; once a quorum arrived
    /// it proposes a node on the newest certificate they report.
    pub fn process_message_leader<CS, RQA: ReqAggregator<D>>(
        &mut self,
        rq_aggr: &RQA,
        message: StoredMessage<IronChainMessage<D>>,
    ) -> (r: Result<ChainedDecisionResult<D>, NewViewGenerateError<CS>>)
        requires
            old(self).wf(),
            old(self).spec_is_leader(),
            old(self).received() < usize::MAX,
        ensures
            final(self).wf(),
            leader_step(*old(self), *final(self), message, r),
            r matches Ok(ChainedDecisionResult::ProposalGenerated(_, _)) ==> broadcasts_pooled(
                final(self).outbox@.last(),
                *rq_aggr,
            ),
    {
        let seq = self.view.sequence_number();
        let from = message.header.from;
        match &message.message.message {
            IronChainMessageType::NewView(new_view) => {
                if message.message.seq_no != seq {
                    return Ok(ChainedDecisionResult::MessageIgnored);
                }
                let nv = NewViewMessage { qc: duplicate_opt_chained(&new_view.qc), signature: new_view.signature.duplicate() };
                let accepted = self.decision_log.as_mut_leader().accept_new_view(from, nv);
                if !accepted {
                    return Ok(ChainedDecisionResult::MessageIgnored);
                }
            },
            _ => {
                return Ok(ChainedDecisionResult::MessageIgnored);
            },
        }
        let (received, proposed) = match self.state {
            ChainedDecisionState::Prepare(received, proposed) => (received, proposed),
            _ => {
                self.queue_message(message);
                return Ok(ChainedDecisionResult::MessageQueued);
            },
        };
        let received = received + 1;
        if received >= self.view.quorum() && !proposed {
            proof {
                assert(self.decision_log->Leader_0.new_view@.dom().contains(
                    opt_chained_view(message.message.message->NewView_0.qc),
                ));
            }
            let high = match self.decision_log.as_mut_leader().get_high_qc() {
                Ok(h) => h,
                Err(e) => {
                    self.state = ChainedDecisionState::Prepare(received, proposed);
                    return Err(NewViewGenerateError::FailedToGenerateNewViewQC(e));
                },
            };
            self.state = ChainedDecisionState::Prepare(received, true);
            let header = self.generate_and_send_proposal(rq_aggr, high.high_qc());
            Ok(ChainedDecisionResult::ProposalGenerated(header, message))
        } else {
            self.state = ChainedDecisionState::Prepare(received, proposed);
            Ok(ChainedDecisionResult::MessageProcessed(message))
        }
    }

    /// The leader of the next view gathers the votes for this view's node; once
    /// a quorum arrived it builds their certificate, which becomes the latest
    /// prepared one (or the newest justification voted for, when that is newer
    /// than the lock).
    pub fn process_message_next_leader<CP: CryptoProvider>(
        &mut self,
        decision_handler: &mut ChainedDecisionHandler,
        crypto: &CP,
        message: StoredMessage<IronChainMessage<D>>,
    ) -> (r: Result<ChainedDecisionResult<D>, NewViewGenerateError<CP::CombinationError>>)
        requires
            old(self).wf(),
            old(self).spec_is_next_leader(),
            !old(self).spec_is_leader(),
            message.message.message is Vote,
            message.message.seq_no == old(self).spec_seq(),
        ensures
            final(self).wf(),
            next_leader_step(*old(self), *final(self), *old(decision_handler), *final(decision_handler), message, *crypto, r),
    {
        let from = message.header.from;
        let vote = match &message.message.message {
            IronChainMessageType::Vote(v) => crate::chained::messages::VoteMessage {
                vote_details: v.vote_details.duplicate(),
                signature: v.signature.duplicate(),
            },
            _ => vstd::pervasive::unreached(),
        };
        let vote_count = match self.decision_log.as_mut_next_leader().accept_vote(from, vote) {
            Some(votes) => votes,
            None => {
                return Ok(ChainedDecisionResult::MessageIgnored);
            },
        };
        let quorum = self.view.quorum();
        if vote_count >= quorum && !self.decision_log.as_mut_next_leader().is_proposed() {
            self.decision_log.as_mut_next_leader().set_proposed(true);
            assert(self.decision_log->NextLeader_0.proposed);
            let qc = match self.decision_log.as_mut_next_leader().get_quorum_qc(&self.view, crypto) {
                Ok(qc) => qc,
                Err(e) => {
                    return Err(NewViewGenerateError::FailedToGenerateQC(e));
                },
            };
            assert(self.decision_log->NextLeader_0.proposed);
            decision_handler.install_latest_prepare_qc(qc.duplicate());
            let high_justify = match &self.decision_log {
                DecisionLog::NextLeader(store) => match store.get_high_justify_qc() {
                    Some(d) => duplicate_opt_chained(&d.justify),
                    None => None,
                },
                _ => vstd::pervasive::unreached(),
            };
            let newer = match (&high_justify, &decision_handler.latest_locked_qc) {
                (Some(j), Some(locked)) => j.seq_no.0 > locked.seq_no.0,
                _ => false,
            };
            if newer {
                match high_justify {
                    Some(j) => decision_handler.install_latest_prepare_qc(j),
                    None => {},
                }
            }
            Ok(ChainedDecisionResult::NextLeaderMessages(message, qc))
        } else {
            Ok(ChainedDecisionResult::MessageProcessed(message))
        }
    }

    /// A replica votes for a proposal of its view whose justification the
    /// safety rule accepts (a root proposal, without one, is always voted
    /// for); the vote goes to the leader of the next view.
    pub fn process_message_replica(
        &mut self,
        decision_handler: &ChainedDecisionHandler,
        pending_decision_nodes: &PendingDecisionNodes<D>,
        message: StoredMessage<IronChainMessage<D>>,
    ) -> (r: ChainedDecisionResult<D>)
        requires
            old(self).wf(),
        ensures
            final(self).wf(),
            replica_step(*old(self), *final(self), *decision_handler, message, r),
    {
        let proposal = match &message.message.message {
            IronChainMessageType::Proposal(p) => {
                if message.message.seq_no != self.view.sequence_number() {
                    return ChainedDecisionResult::MessageIgnored;
                }
                p.proposal.duplicate()
            },
            _ => {
                return ChainedDecisionResult::MessageIgnored;
            },
        };
        match &proposal.justify {
            Some(qc) => {
                if !decision_handler.safe_node(&proposal.decision_node.decision_header, qc) {
                    return ChainedDecisionResult::MessageIgnored;
                }
                self.decision_qc = Some(qc.duplicate());
            },
            None => {},
        }
        let header = proposal.decision_node.decision_header;
        self.decision_node_digest = Some(header.current_block_digest);
        let details = VoteDetails::new(header, duplicate_opt_chained(&proposal.justify));
        let target = self.view.next_view().primary();
        self.outbox.push(ChainedAction::SendVote { seq: self.view.sequence_number(), details, target });
        assert(self.outbox@.drop_last() =~= old(self).outbox@);
        ChainedDecisionResult::VoteGenerated(proposal, message)
    }
}

/// A step of a decision on a message, by who the replica is in the view.
pub open spec fn chained_step<D: Clone, CP: CryptoSignatureCombiner>(
    pre: ChainedDecision<D>,
    post: ChainedDecision<D>,
    pre_h: ChainedDecisionHandler,
    post_h: ChainedDecisionHandler,
    message: StoredMessage<IronChainMessage<D>>,
    crypto: CP,
    r: Result<ChainedDecisionResult<D>, NewViewGenerateError<CP::CombinationError>>,
) -> bool {
    if pre.spec_is_leader() && message.message.message is NewView {
        leader_step(pre, post, message, r) && post_h == pre_h
    } else if pre.spec_is_next_leader() && message.message.message is Vote {
        next_leader_step(pre, post, pre_h, post_h, message, crypto, r)
    } else {
        r matches Ok(rr) && replica_step(pre, post, pre_h, message, rr) && post_h == pre_h
    }
}

/// The leader's handling of a message.
pub open spec fn leader_step<D, CS>(
    pre: ChainedDecision<D>,
    post: ChainedDecision<D>,
    message: StoredMessage<IronChainMessage<D>>,
    r: Result<ChainedDecisionResult<D>, NewViewGenerateError<CS>>,
) -> bool {
    match message.message.message {
        IronChainMessageType::NewView(nv) if message.message.seq_no == pre.spec_seq() => {
            let store_pre = pre.decision_log->Leader_0.new_view@;
            let reported = opt_chained_view(nv.qc);
            let from = message.header.from;
            if has_voted(store_pre, reported, from) {
                r == Ok::<ChainedDecisionResult<D>, NewViewGenerateError<CS>>(ChainedDecisionResult::MessageIgnored)
                    && post == pre
            } else {
                let store = with_vote(store_pre, reported, from, nv.signature@);
                &&& post.same_frame(&pre)
                &&& post.decision_node_digest == pre.decision_node_digest
                &&& post.decision_qc == pre.decision_qc
                &&& post.decision_log matches DecisionLog::Leader(s) && s.new_view@ == store
                &&& match pre.state {
                    ChainedDecisionState::Prepare(received, proposed) => {
                        let rec = (received + 1) as usize;
                        if rec >= spec_quorum_for_n(pre.view.spec_members().len() as int) && !proposed {
                            &&& post.state == ChainedDecisionState::Prepare(rec, true)
                            &&& post.msg_queue == pre.msg_queue
                            &&& r matches Ok(ChainedDecisionResult::ProposalGenerated(h, m)) && m == message
                                && exists|high: Option<ChainedQCView>| #[trigger] is_high_qc(store, high)
                                && proposal_header_fits(h, pre.spec_seq(), high) && post.outbox@.len()
                                == pre.outbox@.len() + 1 && post.outbox@.drop_last() == pre.outbox@
                                && is_proposal_broadcast(post.outbox@.last(), pre.spec_seq(), pre.view.spec_members(), h, high)
                        } else {
                            &&& post.state == ChainedDecisionState::Prepare(rec, proposed)
                            &&& post.msg_queue == pre.msg_queue
                            &&& post.outbox == pre.outbox
                            &&& r == Ok::<ChainedDecisionResult<D>, NewViewGenerateError<CS>>(
                                ChainedDecisionResult::MessageProcessed(message),
                            )
                        }
                    },
                    _ => {
                        &&& post.state == pre.state
                        &&& post.outbox == pre.outbox
                        &&& post.msg_queue.pending_messages@ == pre.msg_queue.pending_messages@.push(message)
                        &&& post.msg_queue.get_queue
                        &&& r == Ok::<ChainedDecisionResult<D>, NewViewGenerateError<CS>>(ChainedDecisionResult::MessageQueued)
                    },
                }
            }
        },
        _ => r == Ok::<ChainedDecisionResult<D>, NewViewGenerateError<CS>>(ChainedDecisionResult::MessageIgnored)
            && post == pre,
    }
}

/// The certificate that ends up as the latest prepared one when the leader
/// of the next view built `qc` from `store`: the justification voted for with
/// the newest certificate, when that is newer than the lock, or `qc`.
pub open spec fn next_prepared(
    store: Map<VoteDetailsView, Map<crate::ordering::NodeId, Seq<u8>>>,
    qc: ChainedQCView,
    locked: Option<ChainedQCView>,
    prepared: Option<ChainedQCView>,
) -> bool {
    exists|d: VoteDetailsView| #[trigger] store.dom().contains(d) && (forall|k: VoteDetailsView| #[trigger]
        store.dom().contains(k) ==> justify_rank(k) <= justify_rank(d)) && prepared == (match (d.justify, locked) {
        (Some(j), Some(l)) => if j.seq_no.0 > l.seq_no.0 { Some(j) } else { Some(qc) },
        _ => Some(qc),
    })
}

/// The handling of a vote by the leader of the next view.
pub open spec fn next_leader_step<D, CP: CryptoSignatureCombiner>(
    pre: ChainedDecision<D>,
    post: ChainedDecision<D>,
    pre_h: ChainedDecisionHandler,
    post_h: ChainedDecisionHandler,
    message: StoredMessage<IronChainMessage<D>>,
    crypto: CP,
    r: Result<ChainedDecisionResult<D>, NewViewGenerateError<CP::CombinationError>>,
) -> bool {
    let vote = message.message.message->Vote_0;
    let store_pre = pre.decision_log->NextLeader_0.votes@;
    let proposed_pre = pre.decision_log->NextLeader_0.proposed;
    let from = message.header.from;
    let details = vote.vote_details@;
    if has_voted(store_pre, details, from) {
        r == Ok::<ChainedDecisionResult<D>, NewViewGenerateError<CP::CombinationError>>(ChainedDecisionResult::MessageIgnored)
            && post == pre && post_h == pre_h
    } else {
        let store = with_vote(store_pre, details, from, vote.signature@);
        let quorum = spec_quorum_for_n(pre.view.spec_members().len() as int);
        &&& post.same_frame(&pre)
        &&& post.state == pre.state
        &&& post.decision_node_digest == pre.decision_node_digest
        &&& post.decision_qc == pre.decision_qc
        &&& post.msg_queue == pre.msg_queue
        &&& post.outbox == pre.outbox
        &&& post.decision_log matches DecisionLog::NextLeader(s) && s.votes@ == store
        &&& if vote_count(store, details) >= quorum && !proposed_pre {
            &&& post.decision_log->NextLeader_0.proposed
            &&& match r {
                Ok(ChainedDecisionResult::NextLeaderMessages(m, qc)) => {
                    &&& m == message
                    &&& quorum_qc_from(store, pre.spec_seq(), quorum, crypto, Ok::<ChainedQC, ChainedQCGenerateError<CP::CombinationError>>(qc))
                    &&& next_prepared(store, qc@, opt_chained_view(pre_h.latest_locked_qc), opt_chained_view(post_h.latest_prepare_qc))
                    &&& post_h.latest_locked_qc == pre_h.latest_locked_qc
                },
                Err(NewViewGenerateError::FailedToGenerateQC(e)) => quorum_qc_from(
                    store,
                    pre.spec_seq(),
                    quorum,
                    crypto,
                    Err::<ChainedQC, ChainedQCGenerateError<CP::CombinationError>>(e),
                ) && post_h == pre_h,
                _ => false,
            }
        } else {
            &&& post.decision_log->NextLeader_0.proposed == proposed_pre
            &&& post_h == pre_h
            &&& r == Ok::<ChainedDecisionResult<D>, NewViewGenerateError<CP::CombinationError>>(
                ChainedDecisionResult::MessageProcessed(message),
            )
        }
    }
}

/// A replica's handling of a message.
pub open spec fn replica_step<D: Clone>(
    pre: ChainedDecision<D>,
    post: ChainedDecision<D>,
    h: ChainedDecisionHandler,
    message: StoredMessage<IronChainMessage<D>>,
    r: ChainedDecisionResult<D>,
) -> bool {
    match proposal_in(message) {
        Some(node) if message.message.seq_no == pre.spec_seq() => {
            let header = node.decision_node.decision_header;
            match node.justify {
                Some(qc) if !chained_safe_node_rule(header, qc@, opt_chained_view(h.latest_locked_qc)) => r is MessageIgnored
                    && post == pre,
                _ => {
                    &&& post.same_frame(&pre)
                    &&& post.state == pre.state
                    &&& post.msg_queue == pre.msg_queue
                    &&& post.decision_log == pre.decision_log
                    &&& post.decision_node_digest == Some(header.current_block_digest)
                    &&& opt_chained_view(post.decision_qc) == (if node.justify is Some {
                        opt_chained_view(node.justify)
                    } else {
                        opt_chained_view(pre.decision_qc)
                    })
                    &&& post.outbox@.len() == pre.outbox@.len() + 1
                    &&& post.outbox@.drop_last() == pre.outbox@
                    &&& post.outbox@.last() matches ChainedAction::SendVote { seq, details, target } && seq
                        == pre.spec_seq() && details@ == (VoteDetailsView {
                        node: header,
                        justify: opt_chained_view(node.justify),
                    }) && target == next_leader_of(pre.view)
                    &&& r matches ChainedDecisionResult::VoteGenerated(n, m) && m == message
                        && node_copied(node.decision_node, n.decision_node) && opt_chained_view(n.justify)
                        == opt_chained_view(node.justify)
                },
            }
        },
        _ => r is MessageIgnored && post == pre,
    }
}

/// `post` is `pre` moved on to `target` when that comes after its state, with
/// the certificates learned on the way.
pub open spec fn advanced<D>(
    pre: ChainedDecision<D>,
    post: ChainedDecision<D>,
    target: ChainedDecisionState,
    pre_h: ChainedDecisionHandler,
    post_h: ChainedDecisionHandler,
) -> bool {
    &&& post.view == pre.view
    &&& post.node_id == pre.node_id
    &&& post.decision_node_digest == pre.decision_node_digest
    &&& post.decision_qc == pre.decision_qc
    &&& post.msg_queue == pre.msg_queue
    &&& post.decision_log == pre.decision_log
    &&& post.metrics == pre.metrics
    &&& post.outbox == pre.outbox
    &&& if state_after(target, pre.state) {
        &&& post.state == target
        &&& match (target, pre.decision_qc) {
            (ChainedDecisionState::PreCommit, Some(qc)) => opt_chained_view(post_h.latest_prepare_qc)
                == Some(qc@) && post_h.latest_locked_qc == pre_h.latest_locked_qc,
            (ChainedDecisionState::Commit, Some(qc)) => opt_chained_view(post_h.latest_locked_qc)
                == Some(qc@) && post_h.latest_prepare_qc == pre_h.latest_prepare_qc,
            _ => post_h == pre_h,
        }
    } else {
        post.state == pre.state && post_h == pre_h
    }
}

/// One poll of a chained decision.
pub open spec fn chained_polled<D>(
    pre: ChainedDecision<D>,
    post: ChainedDecision<D>,
    h: ChainedDecisionHandler,
    r: ChainedDecisionPollResult<D>,
) -> bool {
    &&& post.view == pre.view
    &&& post.node_id == pre.node_id
    &&& post.decision_node_digest == pre.decision_node_digest
    &&& post.decision_qc == pre.decision_qc
    &&& post.decision_log == pre.decision_log
    &&& post.metrics == pre.metrics
    &&& match pre.state {
        ChainedDecisionState::Init => {
            &&& r is ReceiveMsg
            &&& post.state == ChainedDecisionState::Prepare(0, false)
            &&& post.msg_queue == pre.msg_queue
            &&& post.outbox@.len() == pre.outbox@.len() + 1
            &&& post.outbox@.drop_last() == pre.outbox@
            &&& post.outbox@.last() matches ChainedAction::SendNewView { seq, qc, target }
                && seq == pre.spec_seq() && opt_chained_view(qc) == opt_chained_view(h.latest_locked_qc)
                && target == pre.view.spec_leader()
        },
        ChainedDecisionState::Finalized => r is Decided && post == pre,
        _ => {
            &&& post.state == pre.state
            &&& post.outbox == pre.outbox
            &&& if pre.msg_queue.get_queue && pre.msg_queue.pending_messages@.len() > 0 {
                &&& r == ChainedDecisionPollResult::Exec(pre.msg_queue.pending_messages@[0])
                &&& post.msg_queue.get_queue
                &&& post.msg_queue.pending_messages@ == pre.msg_queue.pending_messages@.drop_first()
            } else {
                &&& r is ReceiveMsg
                &&& post.msg_queue.pending_messages@ == pre.msg_queue.pending_messages@
                &&& post.msg_queue.get_queue == (pre.msg_queue.get_queue && pre.msg_queue.pending_messages@.len() > 0)
            }
        },
    }
}

/// Handling a message never takes a decision back: it stays in its state or
/// moves to a later one.
pub proof fn lemma_chained_step_never_goes_back<D: Clone, CP: CryptoSignatureCombiner>(
    pre: ChainedDecision<D>,
    post: ChainedDecision<D>,
    pre_h: ChainedDecisionHandler,
    post_h: ChainedDecisionHandler,
    message: StoredMessage<IronChainMessage<D>>,
    crypto: CP,
    r: Result<ChainedDecisionResult<D>, NewViewGenerateError<CP::CombinationError>>,
)
    requires
        chained_step(pre, post, pre_h, post_h, message, crypto, r),
        pre.received() < usize::MAX,
    ensures
        post.state == pre.state || state_after(post.state, pre.state),
{
}

/// A vote or new view message from a replica whose message of the same
/// content was already counted is ignored and changes nothing.
pub proof fn lemma_repeated_vote_ignored<D: Clone, CP: CryptoSignatureCombiner>(
    pre: ChainedDecision<D>,
    post: ChainedDecision<D>,
    pre_h: ChainedDecisionHandler,
    post_h: ChainedDecisionHandler,
    message: StoredMessage<IronChainMessage<D>>,
    crypto: CP,
    r: Result<ChainedDecisionResult<D>, NewViewGenerateError<CP::CombinationError>>,
)
    requires
        chained_step(pre, post, pre_h, post_h, message, crypto, r),
        ({
            ||| pre.spec_is_leader() && (message.message.message matches IronChainMessageType::NewView(nv)
                && message.message.seq_no == pre.spec_seq() && has_voted(
                pre.decision_log->Leader_0.new_view@,
                opt_chained_view(nv.qc),
                message.header.from,
            ))
            ||| !(pre.spec_is_leader() && message.message.message is NewView) && pre.spec_is_next_leader()
                && (message.message.message matches IronChainMessageType::Vote(v) && has_voted(
                pre.decision_log->NextLeader_0.votes@,
                v.vote_details@,
                message.header.from,
            ))
        }),
    ensures
        r == Ok::<ChainedDecisionResult<D>, NewViewGenerateError<CP::CombinationError>>(ChainedDecisionResult::MessageIgnored),
        post == pre,
        post_h == pre_h,
{
}

/// Moving a decision on never takes it back: it ends in the later of its
/// state and the target.
pub proof fn lemma_advance_is_monotone<D>(
    pre: ChainedDecision<D>,
    post: ChainedDecision<D>,
    target: ChainedDecisionState,
    pre_h: ChainedDecisionHandler,
    post_h: ChainedDecisionHandler,
)
    requires
        advanced(pre, post, target, pre_h, post_h),
    ensures
        post.state == pre.state || state_after(post.state, pre.state),
        post.state == target || !state_after(target, pre.state),
        state_rank(post.state) >= state_rank(pre.state),
        state_rank(post.state) >= state_rank(target) || post.state == pre.state,
{
}

} // verus!
