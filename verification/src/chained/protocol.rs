//! The chained protocol across decisions: a window of decisions in flight,
//! the nodes not decided yet, and the three-chain rule that decides them.
use crate::chained::chained_decision_tree::{node_digest, ChainedDecisionNode, PendingDecisionNodes};
use crate::chained::decision::{
    advanced, chained_polled, chained_step, replica_step, is_proposal_broadcast, proposal_header_fits, ChainedDecision, ChainedDecisionPollResult,
    ChainedDecisionResult, ChainedDecisionState, FinalizeDecisionError,
};
use crate::chained::log::{DecisionLog, NewViewGenerateError};
use crate::chained::messages::{IronChainMessage, IronChainMessageType};
use crate::chained::{opt_chained_view, ChainedDecisionHandler, ChainedQC, ChainedQCView};
use crate::crypto::{CryptoProvider, CryptoSignatureCombiner};
use crate::decision_tree::{DecisionNodeHeader, ProtocolConsensusDecision, rq_infos_of, SessionBased, StoredMessage};
use crate::decisions::hotstuff::{at_or_after, same_view, seq_plus, Signals};
use crate::decisions::req_aggr::ReqAggregator;
use crate::ordering::{spec_next_seq, spec_seq_index, Digest, NodeId, SeqNo};
use crate::view::View;
use vstd::prelude::*;
use vstd::view::View as _;

verus! {

pub const PROTOCOL_PHASES: usize = 4;

/// A decision as the chained protocol reports it to its user.
pub enum IronChainDecision<D> {
    /// The decision of a sequence number is complete.
    Completed { seq: SeqNo, decision: ProtocolConsensusDecision<D> },
    /// The decision of a sequence number progressed on a node.
    Info {
        seq: SeqNo,
        header: DecisionNodeHeader,
        qcs: Vec<ChainedQC>,
        messages: Vec<StoredMessage<IronChainMessage<D>>>,
    },
}

pub enum IronChainResult<D> {
    MessageQueued,
    MessageDropped,
    MessageProcessedNoUpdate,
    ProgressedDecision(Vec<IronChainDecision<D>>),
}

pub enum IronChainPollResult<D> {
    ReceiveMsg,
    Exec(StoredMessage<IronChainMessage<D>>),
    ProgressedDecision(Vec<IronChainDecision<D>>),
}

#[derive(Debug)]
pub enum IronChainProcessError<CS> {
    ProcessChain(ChainConstructionError),
    FinalizeDecisions(FinalizeDecisionsError),
    NewViewError(NewViewGenerateError<CS>),
    GetDecision(usize),
}

#[derive(Debug, Clone, Copy, PartialEq, Eq, Structural)]
pub enum ChainConstructionError {
    MissingLinkNode(Digest, DecisionNodeHeader),
    FailedToGetDecisionNode(Digest),
    FailedToGetB1Node,
    FailedToGetBNode,
    FailedToGetB2Justify,
}

#[derive(Debug, Clone, Copy, PartialEq, Eq, Structural)]
pub enum FinalizeDecisionsError {
    FailedToFinalizeDecision(FinalizeDecisionError),
    FailedToGetNode(Digest),
}

#[derive(Debug)]
pub enum InstallViewError {
    ViewInPast(View, View),
}

pub struct ChainedHotStuffProtocol<D, RQA> {
    pub node_id: NodeId,
    pub request_aggr: RQA,
    pub decision_list: Vec<ChainedDecision<D>>,
    pub signals: Signals,
    pub pending_nodes: PendingDecisionNodes<D>,
    pub curr_view: View,
    pub last_decided_view: Option<View>,
}

/// A decision that has not started, with nothing queued, voted or sent, in
/// the given state.
pub open spec fn fresh_chained<D>(d: ChainedDecision<D>, node_id: NodeId, state: ChainedDecisionState) -> bool {
    &&& d.wf()
    &&& d.node_id == node_id
    &&& d.state == state
    &&& d.decision_node_digest is None
    &&& d.decision_qc is None
    &&& !d.msg_queue.get_queue
    &&& d.msg_queue.pending_messages@.len() == 0
    &&& d.outbox@.len() == 0
    &&& d.decision_log matches DecisionLog::Leader(s) ==> s.new_view@.dom() =~= Set::empty()
    &&& d.decision_log matches DecisionLog::NextLeader(s) ==> s.votes@.dom() =~= Set::empty() && !s.proposed
}

/// The `j`-th decision opened from `view`: the first one is the view's own
/// first decision, the others prepare right away on the views that follow.
pub open spec fn opened_from<D>(d: ChainedDecision<D>, view: View, j: nat, node_id: NodeId) -> bool {
    if j == 0 {
        &&& same_view(d.view, view)
        &&& fresh_chained(d, node_id, if node_id == view.spec_leader() {
            ChainedDecisionState::Prepare(0, false)
        } else {
            ChainedDecisionState::Init
        })
    } else {
        &&& d.view.is_round_robin_view(seq_plus(view.spec_seq(), j), view.spec_members())
        &&& fresh_chained(d, node_id, ChainedDecisionState::Prepare(0, false))
    }
}

/// The report of a completed decision whose node is `node`.
pub open spec fn completed_chained<D: SessionBased>(r: IronChainDecision<D>, d: ChainedDecision<D>, node: ChainedDecisionNode<D>) -> bool {
    r matches IronChainDecision::Completed { seq, decision } && seq == d.spec_seq() && decision.seq
        == d.spec_seq() && decision.client_commands == node.decision_node.client_commands
        && decision.client_rq_infos@ == rq_infos_of(decision.client_commands@)
        && decision.batch_digest == node_digest(node)
}

impl<D, RQA> ChainedHotStuffProtocol<D, RQA> {
    pub open spec fn spec_seq(&self) -> SeqNo {
        self.curr_view.spec_seq()
    }

    pub open spec fn wf(&self) -> bool {
        &&& self.curr_view.spec_members().len() > 0
        &&& self.signals.wf()
        &&& self.pending_nodes.wf()
        &&& forall|i: int| 0 <= i < self.decision_list@.len() ==> (#[trigger] self.decision_list@[i]).wf()
    }

    pub open spec fn spec_can_finalize(&self) -> bool {
        self.decision_list@.len() > 0 && self.decision_list@[0].state == ChainedDecisionState::Finalized
    }
}

impl<D: Clone, RQA: ReqAggregator<D>> ChainedHotStuffProtocol<D, RQA> {
    /// Open a decision of the given view and one of each of the views that
    /// follow it, one per phase of the chain.
    pub fn new(node_id: NodeId, rq_aggr: RQA, curr_view: View) -> (p: Self)
        requires
            curr_view.spec_members().len() > 0,
        ensures
            p.wf(),
            p.node_id == node_id,
            p.request_aggr == rq_aggr,
            p.curr_view == curr_view,
            p.decision_list@.len() == PROTOCOL_PHASES,
            forall|j: int| 0 <= j < PROTOCOL_PHASES ==> opened_from(#[trigger] p.decision_list@[j], curr_view, j as nat, node_id),
            p.signals.spec_signals() =~= set![curr_view.spec_seq()],
            p.pending_nodes.spec_map() =~= Map::empty(),
            p.last_decided_view is None,
    {
        let mut decision_list: Vec<ChainedDecision<D>> = Vec::new();
        let mut signals = Signals::new();
        signals.push_signalled(curr_view.sequence_number());
        let first = ChainedDecision::new_first_view(curr_view.duplicate(), node_id);
        decision_list.push(first);
        let mut current = curr_view.next_view();
        assert(seq_plus(curr_view.spec_seq(), 1) == spec_next_seq(seq_plus(curr_view.spec_seq(), 0)));
        let mut i: usize = 1;
        while i < PROTOCOL_PHASES
            invariant
                1 <= i <= PROTOCOL_PHASES,
                decision_list@.len() == i,
                curr_view.spec_members().len() > 0,
                current.is_round_robin_view(seq_plus(curr_view.spec_seq(), i as nat), curr_view.spec_members()),
                forall|j: int| 0 <= j < i ==> opened_from(#[trigger] decision_list@[j], curr_view, j as nat, node_id),
            decreases PROTOCOL_PHASES - i,
        {
            let next = current.next_view();
            assert(seq_plus(curr_view.spec_seq(), (i + 1) as nat) == spec_next_seq(seq_plus(curr_view.spec_seq(), i as nat)));
            decision_list.push(ChainedDecision::new(current, node_id));
            current = next;
            i = i + 1;
        }
        ChainedHotStuffProtocol {
            node_id,
            request_aggr: rq_aggr,
            decision_list,
            signals,
            pending_nodes: PendingDecisionNodes::new(),
            curr_view,
            last_decided_view: None,
        }
    }

    /// The position in the window of the decision of `seq_no`, if it lies in
    /// the window.
    fn get_decision(&self, seq_no: SeqNo) -> (r: Option<usize>)
        ensures
            match r {
                Some(i) => spec_seq_index(seq_no, self.spec_seq()) == Ok::<usize, crate::ordering::InvalidSeqNo>(i)
                    && i < self.decision_list@.len(),
                None => !(spec_seq_index(seq_no, self.spec_seq()) matches Ok(i) && i < self.decision_list@.len()),
            },
    {
        match seq_no.index(self.curr_view.sequence_number()) {
            Ok(index) => if index < self.decision_list.len() {
                Some(index)
            } else {
                None
            },
            Err(_) => None,
        }
    }

    pub fn view(&self) -> (v: &View)
        ensures
            *v == self.curr_view,
    {
        &self.curr_view
    }

    pub fn sequence_number(&self) -> (s: SeqNo)
        ensures
            s == self.spec_seq(),
    {
        self.curr_view.sequence_number()
    }

    /// Move to a view that does not lie in the past. The decisions before it
    /// leave the window; when the view lies beyond the window, the window is
    /// opened anew from it, otherwise as many decisions as left are opened from
    /// it. Only the new view stays signalled.
    pub fn install_view(&mut self, view: View) -> (r: Result<(), InstallViewError>)
        requires
            old(self).wf(),
            spec_seq_index(view.spec_seq(), old(self).spec_seq()) is Ok ==> view.spec_members().len() > 0,
        ensures
            final(self).wf(),
            installed(*old(self), *final(self), view, r),
    {
        let index = match view.sequence_number().index(self.curr_view.sequence_number()) {
            Ok(index) => index,
            Err(_) => {
                return Err(InstallViewError::ViewInPast(view, self.curr_view.duplicate()));
            },
        };
        let ghost pre = self.decision_list@;
        let phases_to_create = if index >= self.decision_list.len() {
            self.decision_list.clear();
            PROTOCOL_PHASES
        } else {
            let mut k: usize = 0;
            while k < index
                invariant
                    0 <= k <= index,
                    index < pre.len(),
                    self.decision_list@ == pre.skip(k as int),
                    self.node_id == old(self).node_id,
                    self.request_aggr == old(self).request_aggr,
                    self.signals == old(self).signals,
                    self.pending_nodes == old(self).pending_nodes,
                    self.curr_view == old(self).curr_view,
                    self.last_decided_view == old(self).last_decided_view,
                decreases index - k,
            {
                self.decision_list.remove(0);
                k = k + 1;
                assert(self.decision_list@ =~= pre.skip(k as int));
            }
            index
        };
        let ghost kept = self.decision_list@;
        let mut current = view.duplicate();
        let mut i: usize = 0;
        while i < phases_to_create
            invariant
                0 <= i <= phases_to_create,
                self.decision_list@.len() == kept.len() + i,
                self.decision_list@.subrange(0, kept.len() as int) == kept,
                view.spec_members().len() > 0,
                self.node_id == old(self).node_id,
                self.request_aggr == old(self).request_aggr,
                self.signals == old(self).signals,
                self.pending_nodes == old(self).pending_nodes,
                self.curr_view == old(self).curr_view,
                self.last_decided_view == old(self).last_decided_view,
                i == 0 ==> same_view(current, view),
                i > 0 ==> current.is_round_robin_view(seq_plus(view.spec_seq(), i as nat), view.spec_members()),
                forall|j: int| 0 <= j < i ==> opened_from(#[trigger] self.decision_list@[kept.len() + j], view, j as nat, old(self).node_id),
            decreases phases_to_create - i,
        {
            let next = current.next_view();
            assert(seq_plus(view.spec_seq(), (i + 1) as nat) == spec_next_seq(seq_plus(view.spec_seq(), i as nat)));
            assert(seq_plus(view.spec_seq(), 0) == view.spec_seq());
            let decision = if i == 0 {
                ChainedDecision::new_first_view(current, self.node_id)
            } else {
                ChainedDecision::new(current, self.node_id)
            };
            self.decision_list.push(decision);
            current = next;
            i = i + 1;
        }
        self.signals.clear();
        self.signals.push_signalled(view.sequence_number());
        self.curr_view = view;
        proof {
            assert forall|j: int| 0 <= j < self.decision_list@.len() implies (#[trigger] self.decision_list@[j]).wf() by {
                if j < kept.len() {
                    assert(self.decision_list@.subrange(0, kept.len() as int)[j] == kept[j]);
                    if index < pre.len() {
                        assert(kept[j] == pre[j + index]);
                    }
                } else {
                    assert(opened_from(self.decision_list@[kept.len() + (j - kept.len())], view, (j - kept.len()) as nat, old(self).node_id));
                }
            }
        }
        Ok(())
    }

    pub fn can_finalize(&self) -> (b: bool)
        ensures
            b == self.spec_can_finalize(),
    {
        if self.decision_list.len() == 0 {
            return false;
        }
        match self.decision_list[0].state() {
            ChainedDecisionState::Finalized => true,
            _ => false,
        }
    }
}

impl<D: Clone + SessionBased, RQA: ReqAggregator<D>> ChainedHotStuffProtocol<D, RQA> {
    /// Open a fresh decision at the back of the window, for the sequence number
    /// after the last decision (after the view's, when the window is empty).
    fn populate_decision(&mut self)
        requires
            old(self).wf(),
        ensures
            final(self).wf(),
            final(self).decision_list@.len() == old(self).decision_list@.len() + 1,
            final(self).decision_list@.drop_last() == old(self).decision_list@,
            fresh_chained(final(self).decision_list@.last(), old(self).node_id, ChainedDecisionState::Prepare(0, false)),
            final(self).decision_list@.last().view.is_round_robin_view(
                spec_next_seq(if old(self).decision_list@.len() > 0 {
                    old(self).decision_list@.last().spec_seq()
                } else {
                    old(self).spec_seq()
                }),
                old(self).curr_view.spec_members(),
            ),
            final(self).node_id == old(self).node_id,
            final(self).request_aggr == old(self).request_aggr,
            final(self).signals == old(self).signals,
            final(self).pending_nodes == old(self).pending_nodes,
            final(self).curr_view == old(self).curr_view,
            final(self).last_decided_view == old(self).last_decided_view,
    {
        let back = if self.decision_list.len() > 0 {
            self.decision_list[self.decision_list.len() - 1].sequence_number()
        } else {
            self.curr_view.sequence_number()
        };
        let to_create = back.next();
        let view = self.curr_view.with_new_seq(to_create);
        let decision = ChainedDecision::new(view, self.node_id);
        self.decision_list.push(decision);
        proof {
            assert(self.decision_list@.drop_last() =~= old(self).decision_list@);
            assert forall|j: int| 0 <= j < self.decision_list@.len() implies (#[trigger] self.decision_list@[j]).wf() by {
                if j < old(self).decision_list@.len() {
                    assert(self.decision_list@[j] == old(self).decision_list@[j]);
                }
            }
        }
    }

    /// Take the first decision out of the window, moving the view on by one,
    /// and open a fresh decision at the back.
    fn pop_decision(&mut self) -> (d: ChainedDecision<D>)
        requires
            old(self).wf(),
            old(self).decision_list@.len() > 0,
        ensures
            final(self).wf(),
            d == old(self).decision_list@[0],
            final(self).decision_list@.len() == old(self).decision_list@.len(),
            final(self).decision_list@.drop_last() == old(self).decision_list@.drop_first(),
            fresh_chained(final(self).decision_list@.last(), old(self).node_id, ChainedDecisionState::Prepare(0, false)),
            final(self).decision_list@.last().view.spec_members() == old(self).curr_view.spec_members(),
            old(self).decision_list@.len() > 1 ==> final(self).decision_list@.last().spec_seq() == spec_next_seq(
                old(self).decision_list@.last().spec_seq(),
            ),
            final(self).curr_view.is_round_robin_view(spec_next_seq(old(self).spec_seq()), old(self).curr_view.spec_members()),
            final(self).node_id == old(self).node_id,
            final(self).request_aggr == old(self).request_aggr,
            final(self).signals == old(self).signals,
            final(self).pending_nodes == old(self).pending_nodes,
            final(self).last_decided_view == old(self).last_decided_view,
    {
        let ghost pre = self.decision_list@;
        let decision = self.decision_list.remove(0);
        self.curr_view = self.curr_view.next_view();
        proof {
            assert(self.decision_list@ =~= pre.drop_first());
            assert forall|j: int| 0 <= j < self.decision_list@.len() implies (#[trigger] self.decision_list@[j]).wf() by {
                assert(self.decision_list@[j] == pre[j + 1]);
            }
            if pre.len() > 1 {
                assert(self.decision_list@.last() == pre.last());
            }
        }
        self.populate_decision();
        decision
    }

    /// Take every complete decision off the front of the window, in order, and
    /// report each with the commands of its node, which leaves the pending nodes.
    pub fn finalize(&mut self) -> (r: Result<Vec<IronChainDecision<D>>, FinalizeDecisionsError>)
        requires
            old(self).wf(),
        ensures
            final(self).wf(),
            final(self).decision_list@.len() == old(self).decision_list@.len(),
            final(self).node_id == old(self).node_id,
            final(self).request_aggr == old(self).request_aggr,
            final(self).signals == old(self).signals,
            r matches Ok(out) ==> chained_finalized(*old(self), *final(self), out@),
            r matches Err(e) ==> exists|j: int, digs: Seq<Digest>| #[trigger] finalize_failed(
                old(self).decision_list@,
                old(self).pending_nodes.spec_map(),
                j,
                digs,
                e,
            ) && window_popped(
                old(self).decision_list@,
                old(self).curr_view,
                old(self).pending_nodes.spec_map(),
                old(self).node_id,
                final(self).decision_list@,
                final(self).curr_view,
                final(self).pending_nodes.spec_map(),
                final(self).last_decided_view,
                j + 1,
                digs,
            ),
    {
        let ghost pre = *self;
        let ghost n = self.decision_list@.len();
        let ghost members = self.curr_view.spec_members();
        let ghost mut digs: Seq<Digest> = Seq::empty();
        let mut out: Vec<IronChainDecision<D>> = Vec::new();
        while self.can_finalize()
            invariant
                pre == *old(self),
                n == pre.decision_list@.len(),
                self.wf(),
                out@.len() <= n,
                digs.len() == out@.len(),
                self.decision_list@.len() == n,
                members == pre.curr_view.spec_members(),
                members.len() > 0,
                self.node_id == pre.node_id,
                self.request_aggr == pre.request_aggr,
                self.signals == pre.signals,
                forall|x: int| 0 <= x < n - out@.len() ==> #[trigger] self.decision_list@[x] == pre.decision_list@[x + out@.len()],
                forall|x: int| n - out@.len() <= x < n ==> fresh_chained(#[trigger] self.decision_list@[x], pre.node_id, ChainedDecisionState::Prepare(0, false))
                    && self.decision_list@[x].view.spec_members() == members,
                forall|j: int| 0 <= j < out@.len() ==> (#[trigger] pre.decision_list@[j]).state == ChainedDecisionState::Finalized
                    && pre.decision_list@[j].decision_node_digest == Some(digs[j])
                    && pre.pending_nodes.spec_map().dom().contains(digs[j]),
                forall|j: int| 0 <= j < out@.len() ==> completed_chained(#[trigger] out@[j], pre.decision_list@[j], pre.pending_nodes.spec_map()[digs[j]]),
                forall|a: int, b: int| 0 <= a < b < digs.len() ==> #[trigger] digs[a] != #[trigger] digs[b],
                self.pending_nodes.spec_map() == pre.pending_nodes.spec_map().remove_keys(digs.to_set()),
                out@.len() > 0 ==> self.curr_view.is_round_robin_view(seq_plus(pre.spec_seq(), out@.len()), members),
                out@.len() == 0 ==> self.curr_view == pre.curr_view,
                out@.len() > 0 ==> (self.last_decided_view matches Some(v) && same_view(v, pre.decision_list@[out@.len() - 1].view)),
                out@.len() == 0 ==> self.last_decided_view == pre.last_decided_view,
            decreases n - out@.len(),
        {
            let ghost j = out@.len();
            let ghost before = self.decision_list@;
            let ghost cur = self.curr_view.spec_seq();
            let ghost pending_before = self.pending_nodes.spec_map();
            proof {
                if j == n {
                    assert(fresh_chained(self.decision_list@[0], pre.node_id, ChainedDecisionState::Prepare(0, false)));
                }
                assert(j < n);
                assert(self.decision_list@[0] == pre.decision_list@[0 + j as int]);
                if j > 0 {
                    assert(cur == seq_plus(pre.spec_seq(), j));
                } else {
                    assert(cur == seq_plus(pre.spec_seq(), 0));
                }
            }
            let decision = self.pop_decision();
            self.last_decided_view = Some(decision.view().duplicate());
            let decision_seq = decision.sequence_number();
            proof {
                assert(digs.no_duplicates()) by {
                    assert forall|a: int, b: int| 0 <= a < digs.len() && 0 <= b < digs.len() && a != b implies digs[a]
                        != digs[b] by {
                        if a < b {
                            assert(digs[a] != digs[b]);
                        } else {
                            assert(digs[b] != digs[a]);
                        }
                    }
                }
                assert forall|i: int| 0 <= i <= j implies (#[trigger] pre.decision_list@[i]).state
                    == ChainedDecisionState::Finalized by {
                    if i == j {
                        assert(before[0] == pre.decision_list@[0 + j as int]);
                    }
                }
                let after = self.decision_list@;
                assert forall|x: int| 0 <= x < n - (j + 1) implies #[trigger] after[x] == pre.decision_list@[x + (j + 1)] by {
                    assert(after[x] == after.drop_last()[x]);
                    assert(after.drop_last()[x] == before.drop_first()[x]);
                }
                assert forall|x: int| n - (j + 1) <= x < n implies fresh_chained(#[trigger] after[x], pre.node_id, ChainedDecisionState::Prepare(0, false))
                    && after[x].view.spec_members() == members by {
                    if x < n - 1 {
                        assert(after[x] == after.drop_last()[x]);
                        assert(after.drop_last()[x] == before.drop_first()[x]);
                        assert(before[x + 1] == after[x]);
                    } else {
                        assert(after.last() == after[x]);
                    }
                }
                assert(seq_plus(pre.spec_seq(), (j + 1) as nat) == spec_next_seq(seq_plus(pre.spec_seq(), j)));
                assert(before[0] == pre.decision_list@[0 + j as int]);
            }
            let digest = match decision.finalize() {
                Ok(d) => d,
                Err(e) => {
                    proof {
                        assert(finalize_failed(
                            pre.decision_list@,
                            pre.pending_nodes.spec_map(),
                            j as int,
                            digs,
                            FinalizeDecisionsError::FailedToFinalizeDecision(e),
                        ));
                        assert(window_popped(
                            pre.decision_list@,
                            pre.curr_view,
                            pre.pending_nodes.spec_map(),
                            pre.node_id,
                            self.decision_list@,
                            self.curr_view,
                            self.pending_nodes.spec_map(),
                            self.last_decided_view,
                            (j + 1) as int,
                            digs,
                        ));
                    }
                    return Err(FinalizeDecisionsError::FailedToFinalizeDecision(e));
                },
            };
            let node = match self.pending_nodes.remove(&digest) {
                Some(n) => n,
                None => {
                    proof {
                        assert(!pre.pending_nodes.spec_map().dom().contains(digest) || digs.contains(digest)) by {
                            if pre.pending_nodes.spec_map().dom().contains(digest) && !digs.contains(digest) {
                                assert(!digs.to_set().contains(digest));
                                assert(pending_before.dom().contains(digest));
                            }
                        }
                        assert(finalize_failed(
                            pre.decision_list@,
                            pre.pending_nodes.spec_map(),
                            j as int,
                            digs,
                            FinalizeDecisionsError::FailedToGetNode(digest),
                        ));
                        assert(self.pending_nodes.spec_map() =~= pending_before);
                        assert(window_popped(
                            pre.decision_list@,
                            pre.curr_view,
                            pre.pending_nodes.spec_map(),
                            pre.node_id,
                            self.decision_list@,
                            self.curr_view,
                            self.pending_nodes.spec_map(),
                            self.last_decided_view,
                            (j + 1) as int,
                            digs,
                        ));
                    }
                    return Err(FinalizeDecisionsError::FailedToGetNode(digest));
                },
            };
            let commands = node.into_decision_node().into_commands();
            let finalized = IronChainDecision::Completed {
                seq: decision_seq,
                decision: ProtocolConsensusDecision::new(decision_seq, commands, digest),
            };
            let ghost old_out = out@;
            let ghost old_digs = digs;
            out.push(finalized);
            proof {
                digs = digs.push(digest);
                let after = self.decision_list@;
                assert(pending_before.dom().contains(digest));
                assert(!old_digs.contains(digest)) by {
                    if old_digs.contains(digest) {
                        let a = choose|a: int| 0 <= a < old_digs.len() && old_digs[a] == digest;
                        assert(old_digs.to_set().contains(digest));
                    }
                }
                assert(pre.pending_nodes.spec_map().dom().contains(digest));
                assert(pending_before[digest] == pre.pending_nodes.spec_map()[digest]);
                assert forall|jj: int| 0 <= jj < out@.len() implies (#[trigger] pre.decision_list@[jj]).state
                    == ChainedDecisionState::Finalized && pre.decision_list@[jj].decision_node_digest == Some(digs[jj])
                    && pre.pending_nodes.spec_map().dom().contains(digs[jj]) by {
                    if jj < j {
                        assert(digs[jj] == old_digs[jj]);
                    }
                }
                assert forall|jj: int| 0 <= jj < out@.len() implies completed_chained(#[trigger] out@[jj], pre.decision_list@[jj],
                    pre.pending_nodes.spec_map()[digs[jj]]) by {
                    if jj < j {
                        assert(out@[jj] == old_out[jj]);
                        assert(digs[jj] == old_digs[jj]);
                    }
                }
                assert forall|a: int, b: int| 0 <= a < b < digs.len() implies #[trigger] digs[a] != #[trigger] digs[b] by {
                    if b == j {
                        assert(old_digs.contains(digs[a]));
                    }
                }
                assert(self.pending_nodes.spec_map() =~= pre.pending_nodes.spec_map().remove_keys(digs.to_set())) by {
                    old_digs.lemma_push_to_set_commute(digest);
                    assert(digs.to_set() =~= old_digs.to_set().insert(digest));
                }
            }
        }
        proof {
            if out@.len() < n {
                assert(self.decision_list@[0] == pre.decision_list@[0 + out@.len() as int]);
            }
        }
        Ok(out)
    }
}

/// The first `k` decisions of the window `pre` were taken off: the rest moved
/// to the front, fresh decisions of the same members filled the back, the view
/// moved on by `k`, the last one taken off is the last decided, and the nodes
/// `digs` left the pending ones.
pub open spec fn window_popped<D>(
    pre: Seq<ChainedDecision<D>>,
    pre_view: View,
    pre_pending: Map<Digest, ChainedDecisionNode<D>>,
    node_id: NodeId,
    post: Seq<ChainedDecision<D>>,
    post_view: View,
    post_pending: Map<Digest, ChainedDecisionNode<D>>,
    post_last: Option<View>,
    k: int,
    digs: Seq<Digest>,
) -> bool {
    let n = pre.len();
    &&& 0 < k <= n
    &&& post.len() == n
    &&& forall|x: int| 0 <= x < n - k ==> #[trigger] post[x] == pre[x + k]
    &&& forall|x: int| n - k <= x < n ==> fresh_chained(#[trigger] post[x], node_id, ChainedDecisionState::Prepare(0, false))
        && post[x].view.spec_members() == pre_view.spec_members()
    &&& post_view.is_round_robin_view(seq_plus(pre_view.spec_seq(), k as nat), pre_view.spec_members())
    &&& post_last matches Some(v) && same_view(v, pre[k - 1].view)
    &&& post_pending == pre_pending.remove_keys(digs.to_set())
}

/// Finalizing failed on the decision at `j`: the decisions up to it are
/// complete, those before it were taken off with the pending nodes `digs`, and
/// the one at `j` knows no node (`FailedToFinalizeDecision`) or one that is no
/// longer pending (`FailedToGetNode`).
pub open spec fn finalize_failed<D>(
    pre: Seq<ChainedDecision<D>>,
    pending: Map<Digest, ChainedDecisionNode<D>>,
    j: int,
    digs: Seq<Digest>,
    e: FinalizeDecisionsError,
) -> bool {
    &&& 0 <= j < pre.len()
    &&& digs.len() == j
    &&& digs.no_duplicates()
    &&& forall|i: int| 0 <= i <= j ==> (#[trigger] pre[i]).state == ChainedDecisionState::Finalized
    &&& forall|i: int| 0 <= i < j ==> (#[trigger] pre[i]).decision_node_digest == Some(digs[i]) && pending.dom().contains(digs[i])
    &&& match e {
        FinalizeDecisionsError::FailedToFinalizeDecision(_) => pre[j].decision_node_digest is None,
        FinalizeDecisionsError::FailedToGetNode(d) => pre[j].decision_node_digest == Some(d) && (!pending.dom().contains(d)
            || digs.contains(d)),
    }
}

/// A decision is reported complete only when the protocol votes for a proposed
/// node that closes a chain of three certified links through the pending
/// nodes: no other message completes a decision.
pub proof fn lemma_completion_needs_three_chain<D: Clone + SessionBased, RQA, CP: CryptoSignatureCombiner>(
    pre: ChainedHotStuffProtocol<D, RQA>,
    post: ChainedHotStuffProtocol<D, RQA>,
    pre_h: ChainedDecisionHandler,
    post_h: ChainedDecisionHandler,
    message: StoredMessage<IronChainMessage<D>>,
    crypto: CP,
    r: Result<IronChainResult<D>, IronChainProcessError<CP::CombinationError>>,
    k: int,
)
    requires
        chained_processed(pre, post, pre_h, post_h, message, crypto, r),
        r matches Ok(IronChainResult::ProgressedDecision(v)) && 0 <= k < v@.len() && v@[k] is Completed,
    ensures
        message.message.message matches IronChainMessageType::Proposal(p) && chain_depth(
            links_with(pre.pending_nodes.spec_map(), p.proposal),
            p.proposal.decision_node.decision_header,
        ) == 3,
{
    let i = spec_seq_index(message.message.seq_no, pre.spec_seq())->Ok_0 as int;
    let (d, h, rr) = choose|d: ChainedDecision<D>, h: ChainedDecisionHandler, rr: Result<ChainedDecisionResult<D>, NewViewGenerateError<CP::CombinationError>>|
        #[trigger] chained_step(pre.decision_list@[i], d, pre_h, h, message, crypto, rr)
            && chained_outcome(pre, post, i, d, h, post_h, rr, r);
    let pd = pre.decision_list@[i];
    match rr {
        Ok(ChainedDecisionResult::VoteGenerated(node, m)) => {
            assert(!(pd.spec_is_leader() && message.message.message is NewView));
            assert(!(pd.spec_is_next_leader() && message.message.message is Vote));
            assert(replica_step(pd, d, pre_h, message, ChainedDecisionResult::VoteGenerated(node, m)));
            let p = message.message.message->Proposal_0;
            let mid = pre.decision_list@.update(i, d);
            let pending = pre.pending_nodes.spec_map().insert(node_digest(node), node);
            assert(node_links(pending) =~= links_with(pre.pending_nodes.spec_map(), p.proposal));
            assert(vote_handled(pre, mid, h, post, post_h, i, node, m, r));
        },
        _ => {},
    }
}

/// What following the justification of a node through the pending nodes finds.
pub enum ChainLink {
    /// The node with this digest is not pending.
    Missing(Digest),
    /// The node is a root node: no justification and no previous block.
    Root,
    /// The node's previous block is not the node its justification certifies.
    Broken,
    /// The header of the node the justification certifies.
    Parent(DecisionNodeHeader),
}

/// The header and the justification of every pending node, by digest.
pub open spec fn node_links<D>(pending: Map<Digest, ChainedDecisionNode<D>>) -> Map<Digest, (DecisionNodeHeader, Option<ChainedQCView>)> {
    Map::new(
        |d: Digest| pending.dom().contains(d),
        |d: Digest| (pending[d].decision_node.decision_header, opt_chained_view(pending[d].justify)),
    )
}

/// The link from the node with header `h` to the node its justification certifies.
pub open spec fn link_of(links: Map<Digest, (DecisionNodeHeader, Option<ChainedQCView>)>, h: DecisionNodeHeader) -> ChainLink {
    let d = h.current_block_digest;
    if !links.dom().contains(d) {
        ChainLink::Missing(d)
    } else {
        let (header, justify) = links[d];
        match (justify, header.previous_block) {
            (Some(j), Some(prev)) => if prev == j.decision_node.current_block_digest {
                let pd = j.decision_node.current_block_digest;
                if links.dom().contains(pd) {
                    ChainLink::Parent(links[pd].0)
                } else {
                    ChainLink::Missing(pd)
                }
            } else {
                ChainLink::Broken
            },
            (None, None) => ChainLink::Root,
            _ => ChainLink::Broken,
        }
    }
}

/// How many links, up to three, lead back from `h` through the pending nodes.
pub open spec fn chain_depth(pending: Map<Digest, (DecisionNodeHeader, Option<ChainedQCView>)>, h: DecisionNodeHeader) -> nat {
    match link_of(pending, h) {
        ChainLink::Parent(b2) => match link_of(pending, b2) {
            ChainLink::Parent(b1) => match link_of(pending, b1) {
                ChainLink::Parent(_) => 3,
                _ => 2,
            },
            _ => 1,
        },
        _ => 0,
    }
}

/// No link up to the chain's depth is broken, and the window holds a
/// decision before `idx` for every link found.
pub open spec fn chain_safe(pending: Map<Digest, (DecisionNodeHeader, Option<ChainedQCView>)>, h: DecisionNodeHeader, idx: int) -> bool {
    &&& !(link_of(pending, h) is Broken)
    &&& link_of(pending, h) matches ChainLink::Parent(b2) ==> {
        &&& idx >= 1
        &&& !(link_of(pending, b2) is Broken)
        &&& link_of(pending, b2) matches ChainLink::Parent(b1) ==> {
            &&& idx >= 2
            &&& !(link_of(pending, b1) is Broken)
            &&& link_of(pending, b1) is Parent ==> idx >= 3
        }
    }
}

/// `post` is `pre` in the finalized state, and otherwise as it was.
pub open spec fn finalized_from<D>(pre: ChainedDecision<D>, post: ChainedDecision<D>) -> bool {
    &&& post.state == ChainedDecisionState::Finalized
    &&& post.view == pre.view
    &&& post.node_id == pre.node_id
    &&& post.decision_node_digest == pre.decision_node_digest
    &&& post.decision_qc == pre.decision_qc
    &&& post.msg_queue == pre.msg_queue
    &&& post.decision_log == pre.decision_log
    &&& post.metrics == pre.metrics
    &&& post.outbox == pre.outbox
}

/// The three-chain rule applied from the decision at `idx`, whose chain is
/// `depth` links deep: one link moves the decision before it to pre-commit,
/// two move the one before that to commit, and three finalize every decision
/// from the third one before on.
pub open spec fn chain_applied<D>(
    pre: Seq<ChainedDecision<D>>,
    post: Seq<ChainedDecision<D>>,
    pre_h: ChainedDecisionHandler,
    post_h: ChainedDecisionHandler,
    depth: nat,
    idx: int,
) -> bool {
    &&& post.len() == pre.len()
    &&& depth == 0 ==> post == pre && post_h == pre_h
    &&& depth == 1 ==> advanced(pre[idx - 1], post[idx - 1], ChainedDecisionState::PreCommit, pre_h, post_h)
        && forall|j: int| 0 <= j < pre.len() && j != idx - 1 ==> #[trigger] post[j] == pre[j]
    &&& depth >= 2 ==> exists|mid_h: ChainedDecisionHandler| #[trigger] advanced(pre[idx - 1], post[idx - 1], ChainedDecisionState::PreCommit, pre_h, mid_h)
        && advanced(pre[idx - 2], post[idx - 2], ChainedDecisionState::Commit, mid_h, post_h)
    &&& depth == 2 ==> forall|j: int| 0 <= j < pre.len() && j != idx - 1 && j != idx - 2 ==> #[trigger] post[j] == pre[j]
    &&& depth == 3 ==> forall|j: int| 0 <= j <= idx - 3 ==> finalized_from(pre[j], #[trigger] post[j])
    &&& depth == 3 ==> forall|j: int| idx <= j < pre.len() ==> #[trigger] post[j] == pre[j]
}

impl<D: Clone, RQA: ReqAggregator<D>> ChainedHotStuffProtocol<D, RQA> {
    /// Follow the justification of the node with header `first_link_header` to
    /// the node it certifies.
    fn chain_link(&self, first_link_header: DecisionNodeHeader) -> (r: Result<Option<DecisionNodeHeader>, ChainConstructionError>)
        requires
            self.wf(),
            !(link_of(node_links(self.pending_nodes.spec_map()), first_link_header) is Broken),
        ensures
            match link_of(node_links(self.pending_nodes.spec_map()), first_link_header) {
                ChainLink::Missing(d) => r == Err::<Option<DecisionNodeHeader>, ChainConstructionError>(
                    ChainConstructionError::FailedToGetDecisionNode(d),
                ),
                ChainLink::Root => r == Ok::<Option<DecisionNodeHeader>, ChainConstructionError>(None),
                ChainLink::Parent(p) => r == Ok::<Option<DecisionNodeHeader>, ChainConstructionError>(Some(p)),
                ChainLink::Broken => false,
            },
    {
        let digest = first_link_header.current_block_digest;
        let first_link = match self.pending_nodes.get(&digest) {
            Some(n) => n,
            None => {
                return Err(ChainConstructionError::FailedToGetDecisionNode(digest));
            },
        };
        match (&first_link.justify, first_link.decision_node.decision_header.previous_block) {
            (Some(next_link), Some(previous)) => {
                let pd = next_link.decision_node.current_block_digest;
                if previous == pd {
                    match self.pending_nodes.get(&pd) {
                        Some(b_2) => Ok(Some(b_2.decision_node.decision_header)),
                        None => Err(ChainConstructionError::FailedToGetDecisionNode(pd)),
                    }
                } else {
                    vstd::pervasive::unreached()
                }
            },
            (None, None) => Ok(None),
            _ => vstd::pervasive::unreached(),
        }
    }

    /// Apply the three-chain rule from the decision at `decision_index`, whose
    /// node has header `current_node`. Returns how far the chain got (one more
    /// than the links found) when it is shorter than three links.
    fn node_chain(
        &mut self,
        current_node: &DecisionNodeHeader,
        decision_index: usize,
        decision_handler: &mut ChainedDecisionHandler,
    ) -> (r: Result<(), usize>)
        requires
            old(self).wf(),
            decision_index < old(self).decision_list@.len(),
            chain_safe(node_links(old(self).pending_nodes.spec_map()), *current_node, decision_index as int),
        ensures
            final(self).wf(),
            chain_applied(
                old(self).decision_list@,
                final(self).decision_list@,
                *old(decision_handler),
                *final(decision_handler),
                chain_depth(node_links(old(self).pending_nodes.spec_map()), *current_node),
                decision_index as int,
            ),
            chain_depth(node_links(old(self).pending_nodes.spec_map()), *current_node) < 3 ==> r == Err::<(), usize>(
                (chain_depth(node_links(old(self).pending_nodes.spec_map()), *current_node) + 1) as usize,
            ),
            chain_depth(node_links(old(self).pending_nodes.spec_map()), *current_node) == 3 ==> r is Ok,
            final(self).node_id == old(self).node_id,
            final(self).request_aggr == old(self).request_aggr,
            final(self).signals == old(self).signals,
            final(self).pending_nodes == old(self).pending_nodes,
            final(self).curr_view == old(self).curr_view,
            final(self).last_decided_view == old(self).last_decided_view,
    {
        let ghost pre = self.decision_list@;
        let ghost h0 = *decision_handler;
        let b_2 = match self.chain_link(*current_node) {
            Ok(Some(node)) => node,
            _ => {
                return Err(1);
            },
        };
        self.decision_list[decision_index - 1].advance_state(ChainedDecisionState::PreCommit, decision_handler);
        let ghost h1 = *decision_handler;
        let ghost ds1 = self.decision_list@;
        proof {
            self.lemma_updated_wf(pre, decision_index - 1);
        }
        let b_1 = match self.chain_link(b_2) {
            Ok(Some(node)) => node,
            _ => {
                proof {
                    assert forall|j: int| 0 <= j < pre.len() && j != decision_index - 1 implies #[trigger] self.decision_list@[j] == pre[j] by {}
                }
                return Err(2);
            },
        };
        self.decision_list[decision_index - 2].advance_state(ChainedDecisionState::Commit, decision_handler);
        let ghost ds2 = self.decision_list@;
        proof {
            self.lemma_updated_wf(ds1, decision_index - 2);
            assert(advanced(pre[decision_index - 1], self.decision_list@[decision_index - 1], ChainedDecisionState::PreCommit, h0, h1));
        }
        match self.chain_link(b_1) {
            Ok(Some(_)) => {},
            _ => {
                proof {
                    assert forall|j: int| 0 <= j < pre.len() && j != decision_index - 1 && j != decision_index - 2
                        implies #[trigger] self.decision_list@[j] == pre[j] by {}
                }
                return Err(3);
            },
        }
        let ghost h2 = *decision_handler;
        self.decision_list[decision_index - 3].advance_state(ChainedDecisionState::Decide, decision_handler);
        proof {
            self.lemma_updated_wf(ds2, decision_index - 3);
        }
        let mut index: usize = decision_index - 3;
        loop
            invariant_except_break
                self.wf(),
                index <= decision_index - 3,
                decision_index < pre.len(),
                self.decision_list@.len() == pre.len(),
                *decision_handler == h2,
                self.node_id == old(self).node_id,
                self.request_aggr == old(self).request_aggr,
                self.signals == old(self).signals,
                self.pending_nodes == old(self).pending_nodes,
                self.curr_view == old(self).curr_view,
                self.last_decided_view == old(self).last_decided_view,
                self.decision_list@[decision_index - 1] == ds2[decision_index - 1],
                self.decision_list@[decision_index - 2] == ds2[decision_index - 2],
                forall|j: int| index < j <= decision_index - 3 ==> finalized_from(pre[j], #[trigger] self.decision_list@[j]),
                index < decision_index - 3 ==> finalized_from(pre[decision_index - 3], self.decision_list@[decision_index - 3]),
                index == decision_index - 3 ==> (self.decision_list@[index as int].state == ChainedDecisionState::Decide
                    || self.decision_list@[index as int].state == ChainedDecisionState::Finalized)
                    && self.decision_list@[index as int].view == pre[index as int].view
                    && self.decision_list@[index as int].node_id == pre[index as int].node_id
                    && self.decision_list@[index as int].decision_node_digest == pre[index as int].decision_node_digest
                    && self.decision_list@[index as int].decision_qc == pre[index as int].decision_qc
                    && self.decision_list@[index as int].msg_queue == pre[index as int].msg_queue
                    && self.decision_list@[index as int].decision_log == pre[index as int].decision_log
                    && self.decision_list@[index as int].metrics == pre[index as int].metrics
                    && self.decision_list@[index as int].outbox == pre[index as int].outbox,
                forall|j: int| 0 <= j <= index && j != decision_index - 3 ==> #[trigger] self.decision_list@[j] == pre[j],
                forall|j: int| decision_index <= j < pre.len() ==> #[trigger] self.decision_list@[j] == pre[j],
            ensures
                self.wf(),
                self.decision_list@.len() == pre.len(),
                *decision_handler == h2,
                self.node_id == old(self).node_id,
                self.request_aggr == old(self).request_aggr,
                self.signals == old(self).signals,
                self.pending_nodes == old(self).pending_nodes,
                self.curr_view == old(self).curr_view,
                self.last_decided_view == old(self).last_decided_view,
                self.decision_list@[decision_index - 1] == ds2[decision_index - 1],
                self.decision_list@[decision_index - 2] == ds2[decision_index - 2],
                forall|j: int| 0 <= j <= decision_index - 3 ==> finalized_from(pre[j], #[trigger] self.decision_list@[j]),
                forall|j: int| decision_index <= j < pre.len() ==> #[trigger] self.decision_list@[j] == pre[j],
            decreases index,
        {
            let ghost before = self.decision_list@;
            self.decision_list[index].advance_state(ChainedDecisionState::Finalized, decision_handler);
            proof {
                self.lemma_updated_wf(before, index as int);
            }
            if index == 0 {
                break;
            }
            index = index - 1;
        }
        proof {
            assert(advanced(pre[decision_index - 1], self.decision_list@[decision_index - 1], ChainedDecisionState::PreCommit, h0, h1));
        }
        Ok(())
    }

    /// Replacing one decision of a well formed window by a well formed one
    /// keeps the window well formed.
    proof fn lemma_updated_wf(&self, pre: Seq<ChainedDecision<D>>, i: int)
        requires
            self.curr_view.spec_members().len() > 0,
            self.signals.wf(),
            self.pending_nodes.wf(),
            0 <= i < pre.len(),
            self.decision_list@.len() == pre.len(),
            forall|j: int| 0 <= j < pre.len() ==> (#[trigger] pre[j]).wf(),
            self.decision_list@[i].wf(),
            forall|j: int| 0 <= j < pre.len() && j != i ==> #[trigger] self.decision_list@[j] == pre[j],
        ensures
            self.wf(),
    {
        assert forall|j: int| 0 <= j < self.decision_list@.len() implies (#[trigger] self.decision_list@[j]).wf() by {
            if j != i {
                assert(self.decision_list@[j] == pre[j]);
            }
        }
    }
}

/// The report that the decision of `seq` progressed on the node `node`,
/// proposed in `message`, with the certificate that justified it.
pub open spec fn vote_info<D>(
    r: IronChainDecision<D>,
    seq: SeqNo,
    node: ChainedDecisionNode<D>,
    message: StoredMessage<IronChainMessage<D>>,
) -> bool {
    r matches IronChainDecision::Info { seq: s, header, qcs, messages } && s == seq && header
        == node.decision_node.decision_header && messages@ == seq![message] && match node.justify {
        Some(q) => qcs@.len() == 1 && qcs@[0]@ == q@,
        None => qcs@.len() == 0,
    }
}

/// What handling a vote generated by the decision at `index` on `node` did,
/// from the window `ds` and the other parts of `pre`: the node became pending,
/// the three-chain rule was applied from the decision, and, when the chain was
/// complete, the complete decisions were taken off the window.
pub open spec fn vote_handled<D: SessionBased, RQA, CS>(
    pre: ChainedHotStuffProtocol<D, RQA>,
    ds: Seq<ChainedDecision<D>>,
    pre_h: ChainedDecisionHandler,
    post: ChainedHotStuffProtocol<D, RQA>,
    post_h: ChainedDecisionHandler,
    index: int,
    node: ChainedDecisionNode<D>,
    message: StoredMessage<IronChainMessage<D>>,
    r: Result<IronChainResult<D>, IronChainProcessError<CS>>,
) -> bool {
    let header = node.decision_node.decision_header;
    let pending = pre.pending_nodes.spec_map().insert(node_digest(node), node);
    let depth = chain_depth(node_links(pending), header);
    let seq = ds[index].spec_seq();
    &&& post.node_id == pre.node_id
    &&& post.request_aggr == pre.request_aggr
    &&& post.signals == pre.signals
    &&& exists|ds2: Seq<ChainedDecision<D>>| #[trigger] chain_applied(ds, ds2, pre_h, post_h, depth, index) && if depth < 3 {
        &&& post.decision_list@ == ds2
        &&& post.pending_nodes.spec_map() == pending
        &&& post.curr_view == pre.curr_view
        &&& post.last_decided_view == pre.last_decided_view
        &&& r matches Ok(IronChainResult::ProgressedDecision(v)) && v@.len() == 1 && vote_info(v@[0], seq, node, message)
    } else {
        match r {
            Ok(IronChainResult::ProgressedDecision(v)) => v@.len() >= 1 && vote_info(v@[0], seq, node, message)
                && window_chained_finalized(
                ds2,
                pre.curr_view,
                pending,
                pre.last_decided_view,
                pre.node_id,
                post.decision_list@,
                post.curr_view,
                post.pending_nodes.spec_map(),
                post.last_decided_view,
                v@.drop_first(),
            ),
            Err(IronChainProcessError::FinalizeDecisions(e)) => post.decision_list@.len() == ds.len()
                && exists|j: int, digs: Seq<Digest>| #[trigger] finalize_failed(ds2, pending, j, digs, e),
            _ => false,
        }
    }
}

/// The decision `post` is `pre` after proposing, as leader of the next view,
/// a node on the node certified by `qc`.
pub open spec fn proposed_on<D>(pre: ChainedDecision<D>, post: ChainedDecision<D>, qc: ChainedQCView) -> bool {
    &&& post.view == pre.view
    &&& post.node_id == pre.node_id
    &&& post.state == pre.state
    &&& post.decision_node_digest == pre.decision_node_digest
    &&& post.decision_qc == pre.decision_qc
    &&& post.msg_queue == pre.msg_queue
    &&& post.decision_log == pre.decision_log
    &&& post.metrics == pre.metrics
    &&& post.outbox@.len() == pre.outbox@.len() + 1
    &&& post.outbox@.drop_last() == pre.outbox@
    &&& exists|h: DecisionNodeHeader| #[trigger] proposal_header_fits(h, pre.spec_seq(), Some(qc))
        && is_proposal_broadcast(post.outbox@.last(), pre.spec_seq(), pre.view.spec_members(), h, Some(qc))
}

/// What processing `message` did to the protocol and reported in `r`.
pub open spec fn chained_processed<D: Clone + SessionBased, RQA, CP: CryptoSignatureCombiner>(
    pre: ChainedHotStuffProtocol<D, RQA>,
    post: ChainedHotStuffProtocol<D, RQA>,
    pre_h: ChainedDecisionHandler,
    post_h: ChainedDecisionHandler,
    message: StoredMessage<IronChainMessage<D>>,
    crypto: CP,
    r: Result<IronChainResult<D>, IronChainProcessError<CP::CombinationError>>,
) -> bool {
    match spec_seq_index(message.message.seq_no, pre.spec_seq()) {
        Err(_) => (r matches Ok(IronChainResult::MessageDropped)) && post == pre && post_h == pre_h,
        Ok(i) => exists|d: ChainedDecision<D>, h: ChainedDecisionHandler, rr: Result<ChainedDecisionResult<D>, NewViewGenerateError<CP::CombinationError>>|
            #[trigger] chained_step(pre.decision_list@[i as int], d, pre_h, h, message, crypto, rr)
                && chained_outcome(pre, post, i as int, d, h, post_h, rr, r),
    }
}

/// The protocol after the decision at `i` took a step to `d`, with the
/// certificates at `h`, its result `rr` reported as `r`.
pub open spec fn chained_outcome<D: SessionBased, RQA, CS>(
    pre: ChainedHotStuffProtocol<D, RQA>,
    post: ChainedHotStuffProtocol<D, RQA>,
    i: int,
    d: ChainedDecision<D>,
    h: ChainedDecisionHandler,
    post_h: ChainedDecisionHandler,
    rr: Result<ChainedDecisionResult<D>, NewViewGenerateError<CS>>,
    r: Result<IronChainResult<D>, IronChainProcessError<CS>>,
) -> bool {
    let seq = pre.decision_list@[i].spec_seq();
    let mid = pre.decision_list@.update(i, d);
    let frame = post.node_id == pre.node_id && post.request_aggr == pre.request_aggr
        && post.pending_nodes == pre.pending_nodes && post.curr_view == pre.curr_view
        && post.last_decided_view == pre.last_decided_view;
    match rr {
        Err(e) => frame && post.decision_list@ == mid && post.signals == pre.signals && post_h == h
            && r == Err::<IronChainResult<D>, IronChainProcessError<CS>>(IronChainProcessError::NewViewError(e)),
        Ok(ChainedDecisionResult::ProposalGenerated(hd, m)) => frame && post.decision_list@ == mid
            && post.signals == pre.signals && post_h == h && (r matches Ok(IronChainResult::ProgressedDecision(v))
            && v@.len() == 1 && (v@[0] matches IronChainDecision::Info { seq: s, header, qcs, messages }
            && s == seq && header == hd && qcs@.len() == 0 && messages@ == seq![m])),
        Ok(ChainedDecisionResult::VoteGenerated(node, m)) => vote_handled(pre, mid, h, post, post_h, i, node, m, r),
        Ok(ChainedDecisionResult::MessageQueued) => frame && post.decision_list@ == mid && post_h == h
            && post.signals.spec_signals() == pre.signals.spec_signals().insert(seq)
            && r matches Ok(IronChainResult::MessageQueued),
        Ok(ChainedDecisionResult::MessageProcessed(_)) => frame && post.decision_list@ == mid && post_h == h
            && post.signals.spec_signals() == pre.signals.spec_signals().insert(seq)
            && r matches Ok(IronChainResult::MessageProcessedNoUpdate),
        Ok(ChainedDecisionResult::MessageIgnored) => frame && post.decision_list@ == mid && post_h == h
            && post.signals == pre.signals && r matches Ok(IronChainResult::MessageDropped),
        Ok(ChainedDecisionResult::NextLeaderMessages(_, qc)) => {
            let next = spec_next_seq(seq);
            &&& frame
            &&& post_h == h
            &&& post.signals.spec_signals() == pre.signals.spec_signals().insert(next)
            &&& r matches Ok(IronChainResult::MessageProcessedNoUpdate)
            &&& match spec_seq_index(next, pre.spec_seq()) {
                Ok(j) if j < mid.len() => post.decision_list@.len() == mid.len() && proposed_on(
                    mid[j as int],
                    post.decision_list@[j as int],
                    qc@,
                ) && forall|x: int| 0 <= x < mid.len() && x != j ==> #[trigger] post.decision_list@[x] == mid[x],
                _ => post.decision_list@ == mid,
            }
        },
    }
}

/// The decision at `i` would vote for `message`: a proposal of its view, on
/// a node the safety rule accepts.
pub open spec fn would_vote<D>(d: ChainedDecision<D>, h: ChainedDecisionHandler, message: StoredMessage<IronChainMessage<D>>) -> bool {
    &&& message.message.message is Proposal
    &&& message.message.seq_no == d.spec_seq()
    &&& message.message.message->Proposal_0.proposal.justify matches Some(qc) ==> crate::chained::chained_safe_node_rule(
        message.message.message->Proposal_0.proposal.decision_node.decision_header,
        qc@,
        opt_chained_view(h.latest_locked_qc),
    )
}

/// The links of the pending nodes once the node of a proposal is pending too.
pub open spec fn links_with<D>(pending: Map<Digest, ChainedDecisionNode<D>>, node: ChainedDecisionNode<D>) -> Map<Digest, (DecisionNodeHeader, Option<ChainedQCView>)> {
    node_links(pending).insert(node_digest(node), (node.decision_node.decision_header, opt_chained_view(node.justify)))
}

/// The first `out.len()` decisions of the window were complete, left it in
/// order and were reported in `out`, each with the commands of its node, which
/// left the pending nodes; the rest moved to the front and fresh decisions
/// were opened at the back, while the view moved on as many sequence numbers.
pub open spec fn window_chained_finalized<D: SessionBased>(
    pre: Seq<ChainedDecision<D>>,
    pre_view: View,
    pre_pending: Map<Digest, ChainedDecisionNode<D>>,
    pre_last: Option<View>,
    node_id: NodeId,
    post: Seq<ChainedDecision<D>>,
    post_view: View,
    post_pending: Map<Digest, ChainedDecisionNode<D>>,
    post_last: Option<View>,
    out: Seq<IronChainDecision<D>>,
) -> bool {
    let k = out.len();
    let n = pre.len();
    &&& k <= n
    &&& k < n ==> pre[k as int].state != ChainedDecisionState::Finalized
    &&& exists|digs: Seq<Digest>| #[trigger] digs.len() == k && {
        &&& forall|j: int| 0 <= j < k ==> (#[trigger] pre[j]).state == ChainedDecisionState::Finalized
            && pre[j].decision_node_digest == Some(digs[j])
            && pre_pending.dom().contains(digs[j])
        &&& forall|j: int| 0 <= j < k ==> completed_chained(#[trigger] out[j], pre[j], pre_pending[digs[j]])
        &&& post_pending == pre_pending.remove_keys(digs.to_set())
    }
    &&& post.len() == n
    &&& forall|x: int| 0 <= x < n - k ==> #[trigger] post[x] == pre[x + k]
    &&& forall|x: int| n - k <= x < n ==> fresh_chained(#[trigger] post[x], node_id, ChainedDecisionState::Prepare(0, false))
        && post[x].view.spec_members() == pre_view.spec_members()
    &&& k > 0 ==> post_view.is_round_robin_view(seq_plus(pre_view.spec_seq(), k), pre_view.spec_members())
    &&& k == 0 ==> post_view == pre_view
    &&& k > 0 ==> (post_last matches Some(v) && same_view(v, pre[k - 1].view))
    &&& k == 0 ==> post_last == pre_last
}

/// `window_chained_finalized` on the whole protocol.
pub open spec fn chained_finalized<D: SessionBased, RQA>(
    pre: ChainedHotStuffProtocol<D, RQA>,
    post: ChainedHotStuffProtocol<D, RQA>,
    out: Seq<IronChainDecision<D>>,
) -> bool {
    window_chained_finalized(
        pre.decision_list@,
        pre.curr_view,
        pre.pending_nodes.spec_map(),
        pre.last_decided_view,
        pre.node_id,
        post.decision_list@,
        post.curr_view,
        post.pending_nodes.spec_map(),
        post.last_decided_view,
        out,
    )
}

impl<D: Clone + SessionBased, RQA: ReqAggregator<D>> ChainedHotStuffProtocol<D, RQA> {
    /// The decision at `decision_index` voted for `node`: keep the node pending,
    /// apply the three-chain rule from it and, when the chain is complete, take
    /// the complete decisions off the window.
    fn handle_vote_generated<CS>(
        &mut self,
        decision_index: usize,
        node: ChainedDecisionNode<D>,
        message: StoredMessage<IronChainMessage<D>>,
        decision_handler: &mut ChainedDecisionHandler,
    ) -> (r: Result<IronChainResult<D>, IronChainProcessError<CS>>)
        requires
            old(self).wf(),
            decision_index < old(self).decision_list@.len(),
            chain_safe(links_with(old(self).pending_nodes.spec_map(), node), node.decision_node.decision_header, decision_index as int),
        ensures
            final(self).wf(),
            vote_handled(*old(self), old(self).decision_list@, *old(decision_handler), *final(self), *final(decision_handler), decision_index as int, node, message, r),
    {
        let ghost pre = *self;
        let ghost gnode = node;
        let seq = self.decision_list[decision_index].sequence_number();
        let header = node.decision_node.decision_header;
        let mut qcs: Vec<ChainedQC> = Vec::new();
        match &node.justify {
            Some(q) => qcs.push(q.duplicate()),
            None => {},
        }
        self.pending_nodes.insert(node);
        proof {
            assert(node_links(self.pending_nodes.spec_map()) =~= links_with(pre.pending_nodes.spec_map(), gnode));
        }
        let mut messages: Vec<StoredMessage<IronChainMessage<D>>> = Vec::new();
        messages.push(message);
        let info = IronChainDecision::Info { seq, header, qcs, messages };
        proof {
            assert(messages@ =~= seq![message]);
            assert(vote_info(info, seq, gnode, message));
        }
        let chained = self.node_chain(&header, decision_index, decision_handler);
        let ghost ds2 = self.decision_list@;
        match chained {
            Ok(()) => {
                let ghost mid = *self;
                match self.finalize() {
                    Ok(mut finalized) => {
                        let mut v: Vec<IronChainDecision<D>> = Vec::new();
                        v.push(info);
                        let ghost fin = finalized@;
                        v.append(&mut finalized);
                        proof {
                            assert(v@.drop_first() =~= fin);
                            assert(chain_applied(pre.decision_list@, ds2, *old(decision_handler), *decision_handler,
                                chain_depth(node_links(pre.pending_nodes.spec_map().insert(node_digest(gnode), gnode)), header), decision_index as int));
                        }
                        Ok(IronChainResult::ProgressedDecision(v))
                    },
                    Err(e) => {
                        proof {
                            assert(chain_applied(pre.decision_list@, ds2, *old(decision_handler), *decision_handler,
                                chain_depth(node_links(pre.pending_nodes.spec_map().insert(node_digest(gnode), gnode)), header), decision_index as int));
                        }
                        Err(IronChainProcessError::FinalizeDecisions(e))
                    },
                }
            },
            Err(_) => {
                let mut v: Vec<IronChainDecision<D>> = Vec::new();
                v.push(info);
                proof {
                    assert(chain_applied(pre.decision_list@, ds2, *old(decision_handler), *decision_handler,
                        chain_depth(node_links(pre.pending_nodes.spec_map().insert(node_digest(gnode), gnode)), header), decision_index as int));
                }
                Ok(IronChainResult::ProgressedDecision(v))
            },
        }
    }
}

impl<D: Clone + SessionBased, RQA: ReqAggregator<D>> ChainedHotStuffProtocol<D, RQA> {
    /// Process a message: one of a past view is dropped; otherwise the decision
    /// of its view takes a step on it, and what the step produced is carried
    /// on: a vote makes the node pending and applies the three-chain rule, a
    /// certificate built by the leader of the next view makes that view's
    /// decision propose, and handled or queued messages signal the decision.
    pub fn process_message<CP: CryptoProvider>(
        &mut self,
        crypto: &CP,
        decision_handler: &mut ChainedDecisionHandler,
        message: StoredMessage<IronChainMessage<D>>,
    ) -> (r: Result<IronChainResult<D>, IronChainProcessError<CP::CombinationError>>)
        requires
            old(self).wf(),
            spec_seq_index(message.message.seq_no, old(self).spec_seq()) matches Ok(i) ==> {
                let d = old(self).decision_list@[i as int];
                &&& i < old(self).decision_list@.len()
                &&& d.received() < usize::MAX
                &&& d.spec_is_next_leader() && message.message.message is Vote ==> !d.spec_is_leader()
                    && message.message.seq_no == d.spec_seq()
                &&& would_vote(d, *old(decision_handler), message) ==> chain_safe(
                    links_with(old(self).pending_nodes.spec_map(), message.message.message->Proposal_0.proposal),
                    message.message.message->Proposal_0.proposal.decision_node.decision_header,
                    i as int,
                )
            },
        ensures
            final(self).wf(),
            chained_processed(*old(self), *final(self), *old(decision_handler), *final(decision_handler), message, *crypto, r),
    {
        let index = match message.message.seq_no.index(self.curr_view.sequence_number()) {
            Ok(i) => i,
            Err(_) => {
                return Ok(IronChainResult::MessageDropped);
            },
        };
        let ghost pre = *self;
        let ghost pre_h = *decision_handler;
        let decision_seq = self.decision_list[index].sequence_number();
        let step = self.decision_list[index].process_message(
            &self.request_aggr,
            decision_handler,
            crypto,
            &self.pending_nodes,
            message,
        );
        let ghost d = self.decision_list@[index as int];
        let ghost h = *decision_handler;
        proof {
            assert(self.decision_list@ == pre.decision_list@.update(index as int, d));
            self.lemma_updated_wf(pre.decision_list@, index as int);
            assert(chained_step(pre.decision_list@[index as int], d, pre_h, h, message, *crypto, step));
        }
        let result = match step {
            Ok(r) => r,
            Err(e) => {
                return Err(IronChainProcessError::NewViewError(e));
            },
        };
        match result {
            ChainedDecisionResult::ProposalGenerated(proposal_header, message) => {
                let mut messages: Vec<StoredMessage<IronChainMessage<D>>> = Vec::new();
                messages.push(message);
                let mut v: Vec<IronChainDecision<D>> = Vec::new();
                v.push(IronChainDecision::Info { seq: decision_seq, header: proposal_header, qcs: Vec::new(), messages });
                proof {
                    assert(messages@ =~= seq![message]);
                }
                Ok(IronChainResult::ProgressedDecision(v))
            },
            ChainedDecisionResult::VoteGenerated(node, message) => {
                self.handle_vote_generated(index, node, message, decision_handler)
            },
            ChainedDecisionResult::MessageQueued => {
                self.signals.push_signalled(decision_seq);
                Ok(IronChainResult::MessageQueued)
            },
            ChainedDecisionResult::MessageProcessed(_) => {
                self.signals.push_signalled(decision_seq);
                Ok(IronChainResult::MessageProcessedNoUpdate)
            },
            ChainedDecisionResult::MessageIgnored => Ok(IronChainResult::MessageDropped),
            ChainedDecisionResult::NextLeaderMessages(_, qc) => {
                let next_decision = decision_seq.next();
                self.signals.push_signalled(next_decision);
                match self.get_decision(next_decision) {
                    Some(j) => {
                        let ghost before = self.decision_list@;
                        self.decision_list[j].handle_previous_node_completed_leader(&self.request_aggr, &qc);
                        proof {
                            self.lemma_updated_wf(before, j as int);
                            let post_d = self.decision_list@[j as int];
                            let hd = choose|hd: DecisionNodeHeader| proposal_header_fits(hd, before[j as int].spec_seq(), Some(qc@))
                                && is_proposal_broadcast(post_d.outbox@.last(), before[j as int].spec_seq(), before[j as int].view.spec_members(), hd, Some(qc@));
                            assert(proposal_header_fits(hd, before[j as int].spec_seq(), Some(qc@)));
                            assert forall|x: int| 0 <= x < before.len() && x != j implies #[trigger] self.decision_list@[x] == before[x] by {}
                        }
                    },
                    None => {},
                }
                Ok(IronChainResult::MessageProcessedNoUpdate)
            },
        }
    }
}

impl<D: Clone + SessionBased, RQA: ReqAggregator<D>> ChainedHotStuffProtocol<D, RQA> {
    /// Queue a message into the decision of its view, which is then signalled
    /// for polling; a message of a past view is dropped.
    pub fn queue(&mut self, message: StoredMessage<IronChainMessage<D>>)
        requires
            old(self).wf(),
            spec_seq_index(message.message.seq_no, old(self).spec_seq()) matches Ok(i) ==> i
                < old(self).decision_list@.len(),
        ensures
            final(self).wf(),
            match spec_seq_index(message.message.seq_no, old(self).spec_seq()) {
                Err(_) => *final(self) == *old(self),
                Ok(i) => {
                    &&& final(self).decision_list@.len() == old(self).decision_list@.len()
                    &&& final(self).decision_list@[i as int].same_but_queue(&old(self).decision_list@[i as int])
                    &&& final(self).decision_list@[i as int].msg_queue.get_queue
                    &&& final(self).decision_list@[i as int].msg_queue.pending_messages@
                        == old(self).decision_list@[i as int].msg_queue.pending_messages@.push(message)
                    &&& forall|j: int| 0 <= j < final(self).decision_list@.len() && j != i ==> #[trigger] final(self).decision_list@[j]
                        == old(self).decision_list@[j]
                    &&& final(self).signals.spec_signals() == old(self).signals.spec_signals().insert(message.message.seq_no)
                    &&& final(self).curr_view == old(self).curr_view
                    &&& final(self).pending_nodes == old(self).pending_nodes
                    &&& final(self).last_decided_view == old(self).last_decided_view
                    &&& final(self).node_id == old(self).node_id
                    &&& final(self).request_aggr == old(self).request_aggr
                },
            },
    {
        let message_seq = message.message.seq_no;
        match message_seq.index(self.curr_view.sequence_number()) {
            Ok(i) => {
                let ghost before = self.decision_list@;
                self.decision_list[i].queue_message(message);
                self.signals.push_signalled(message_seq);
                proof {
                    assert(self.decision_list@[i as int].wf());
                    self.lemma_updated_wf(before, i as int);
                }
            },
            Err(_) => {},
        }
    }

    /// Poll the signalled decisions, lowest sequence number first. A decision
    /// that hands out a queued message stays signalled and its message is
    /// returned; a decision that waits for messages ends the poll; a complete
    /// decision lets the complete decisions at the front of the window be taken
    /// off and reported.
    pub fn poll(&mut self, decision_handler: &ChainedDecisionHandler) -> (r: Result<IronChainPollResult<D>, FinalizeDecisionsError>)
        requires
            old(self).wf(),
        ensures
            final(self).wf(),
            chained_poll_result(*old(self), *final(self), *decision_handler, r),
    {
        let ghost pre = *self;
        let ghost pre_signals = self.signals.spec_signals();
        let ghost mut lo: int = 0;
        loop
            invariant_except_break
                pre == *old(self),
                pre_signals == pre.signals.spec_signals(),
                self.wf(),
                self.decision_list@ == pre.decision_list@,
                self.curr_view == pre.curr_view,
                self.pending_nodes == pre.pending_nodes,
                self.last_decided_view == pre.last_decided_view,
                self.node_id == pre.node_id,
                self.request_aggr == pre.request_aggr,
                self.signals.spec_signals() == at_or_after(pre_signals, lo),
            ensures
                pre == *old(self),
                self.wf(),
                self.decision_list@ == pre.decision_list@,
                self.curr_view == pre.curr_view,
                self.pending_nodes == pre.pending_nodes,
                self.last_decided_view == pre.last_decided_view,
                self.node_id == pre.node_id,
                self.request_aggr == pre.request_aggr,
                self.signals.spec_signals() == Set::<SeqNo>::empty(),
            decreases self.signals.spec_len(),
        {
            let ghost before = self.signals.spec_signals();
            let ghost lo0 = lo;
            let seq = match self.signals.pop_signalled() {
                Some(s) => s,
                None => {
                    break;
                },
            };
            proof {
                assert(self.signals.spec_signals() =~= at_or_after(pre_signals, seq.0 + 1)) by {
                    assert forall|t: SeqNo| #[trigger] pre_signals.contains(t) && t.0 >= seq.0 + 1 implies before.contains(t) by {
                        assert(before.contains(seq));
                    }
                }
                assert(at_or_after(pre_signals, lo0).contains(seq));
                assert(pre_signals.contains(seq));
                lo = seq.0 + 1;
            }
            let idx = match self.get_decision(seq) {
                Some(i) => i,
                None => {
                    continue;
                },
            };
            let ghost before_ds = self.decision_list@;
            let poll_result = self.decision_list[idx].poll(decision_handler);
            proof {
                self.lemma_updated_wf(before_ds, idx as int);
            }
            match poll_result {
                ChainedDecisionPollResult::ReceiveMsg => {
                    proof {
                        assert forall|x: int| 0 <= x < self.decision_list@.len() && x != idx implies #[trigger] self.decision_list@[x] == pre.decision_list@[x] by {}
                    }
                    return Ok(IronChainPollResult::ReceiveMsg);
                },
                ChainedDecisionPollResult::Exec(message) => {
                    self.signals.push_signalled(seq);
                    proof {
                        assert(self.signals.spec_signals() =~= at_or_after(pre_signals, seq.0 as int));
                        assert forall|x: int| 0 <= x < self.decision_list@.len() && x != idx implies #[trigger] self.decision_list@[x] == pre.decision_list@[x] by {}
                    }
                    return Ok(IronChainPollResult::Exec(message));
                },
                ChainedDecisionPollResult::Decided => {
                    proof {
                        assert(self.decision_list@ =~= pre.decision_list@);
                    }
                    if self.can_finalize() {
                        let ghost mid = *self;
                        let finalized = match self.finalize() {
                            Ok(f) => f,
                            Err(e) => {
                                return Err(e);
                            },
                        };
                        if finalized.len() > 0 {
                            return Ok(IronChainPollResult::ProgressedDecision(finalized));
                        }
                        proof {
                            assert(mid.decision_list@[0].state == ChainedDecisionState::Finalized);
                            assert(false);
                        }
                    }
                },
            }
        }
        Ok(IronChainPollResult::ReceiveMsg)
    }
}

/// The signalled sequence number `s` names a decision of the window.
pub open spec fn in_window<D, RQA>(p: ChainedHotStuffProtocol<D, RQA>, s: SeqNo) -> bool {
    s.0 >= p.spec_seq().0 && s.0 - p.spec_seq().0 < p.decision_list@.len()
}

/// What a poll of the chained protocol did and found.
pub open spec fn chained_poll_result<D: SessionBased, RQA>(
    pre: ChainedHotStuffProtocol<D, RQA>,
    post: ChainedHotStuffProtocol<D, RQA>,
    h: ChainedDecisionHandler,
    r: Result<IronChainPollResult<D>, FinalizeDecisionsError>,
) -> bool {
    let frame = post.curr_view == pre.curr_view && post.pending_nodes == pre.pending_nodes
        && post.last_decided_view == pre.last_decided_view;
    &&& post.node_id == pre.node_id
    &&& post.request_aggr == pre.request_aggr
    &&& match r {
        Ok(IronChainPollResult::Exec(m)) => frame && exists|s: SeqNo| #[trigger] pre.signals.spec_signals().contains(s)
            && in_window(pre, s) && polled_alone(pre, post, h, (s.0 - pre.spec_seq().0) as int, ChainedDecisionPollResult::Exec(m))
            && post.signals.spec_signals() == at_or_after(pre.signals.spec_signals(), s.0 as int),
        Ok(IronChainPollResult::ReceiveMsg) => frame && ((post.decision_list@ == pre.decision_list@
            && post.signals.spec_signals() == Set::<SeqNo>::empty()) || exists|s: SeqNo| #[trigger] pre.signals.spec_signals().contains(s)
            && in_window(pre, s) && polled_alone(pre, post, h, (s.0 - pre.spec_seq().0) as int, ChainedDecisionPollResult::ReceiveMsg)
            && post.signals.spec_signals() == at_or_after(pre.signals.spec_signals(), s.0 + 1)),
        Ok(IronChainPollResult::ProgressedDecision(out)) => out@.len() > 0 && pre.spec_can_finalize()
            && window_chained_finalized(
            pre.decision_list@,
            pre.curr_view,
            pre.pending_nodes.spec_map(),
            pre.last_decided_view,
            pre.node_id,
            post.decision_list@,
            post.curr_view,
            post.pending_nodes.spec_map(),
            post.last_decided_view,
            out@,
        ) && exists|s: SeqNo| #[trigger] pre.signals.spec_signals().contains(s)
            && post.signals.spec_signals() == at_or_after(pre.signals.spec_signals(), s.0 + 1),
        Err(e) => post.decision_list@.len() == pre.decision_list@.len() && pre.spec_can_finalize()
            && exists|j: int, digs: Seq<Digest>| #[trigger] finalize_failed(
            pre.decision_list@,
            pre.pending_nodes.spec_map(),
            j,
            digs,
            e,
        ),
    }
}

/// Only the decision at `i` changed, by one poll that gave `pr`.
pub open spec fn polled_alone<D, RQA>(
    pre: ChainedHotStuffProtocol<D, RQA>,
    post: ChainedHotStuffProtocol<D, RQA>,
    h: ChainedDecisionHandler,
    i: int,
    pr: ChainedDecisionPollResult<D>,
) -> bool {
    &&& post.decision_list@.len() == pre.decision_list@.len()
    &&& chained_polled(pre.decision_list@[i], post.decision_list@[i], h, pr)
    &&& forall|x: int| 0 <= x < post.decision_list@.len() && x != i ==> #[trigger] post.decision_list@[x] == pre.decision_list@[x]
}

/// What installing `view` did.
pub open spec fn installed<D, RQA>(
    pre: ChainedHotStuffProtocol<D, RQA>,
    post: ChainedHotStuffProtocol<D, RQA>,
    view: View,
    r: Result<(), InstallViewError>,
) -> bool {
    match spec_seq_index(view.spec_seq(), pre.spec_seq()) {
        Err(_) => r matches Err(InstallViewError::ViewInPast(v, c)) && v == view && same_view(c, pre.curr_view)
            && post == pre,
        Ok(index) => {
            let n = pre.decision_list@.len();
            let kept = if index >= n { Seq::empty() } else { pre.decision_list@.skip(index as int) };
            let opened = if index >= n { PROTOCOL_PHASES as int } else { index as int };
            &&& r is Ok
            &&& post.decision_list@.len() == kept.len() + opened
            &&& post.decision_list@.subrange(0, kept.len() as int) == kept
            &&& forall|j: int| 0 <= j < opened ==> opened_from(#[trigger] post.decision_list@[kept.len() + j], view, j as nat, pre.node_id)
            &&& post.signals.spec_signals() =~= set![view.spec_seq()]
            &&& post.curr_view == view
            &&& post.node_id == pre.node_id
            &&& post.request_aggr == pre.request_aggr
            &&& post.pending_nodes == pre.pending_nodes
            &&& post.last_decided_view == pre.last_decided_view
        },
    }
}

} // verus!
