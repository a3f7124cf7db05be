//! The basic protocol across decisions: the decisions in flight, which of them
//! need polling, and how finished decisions leave the window.
use crate::crypto::{CryptoProvider, CryptoSignatureCombiner};
use crate::decision_tree::{rq_infos_of, ProtocolConsensusDecision, SessionBased, StoredMessage};
use crate::decisions::decision::{
    decision_step, poll_step, DecisionError, DecisionFinalizationResult, DecisionPollResult, DecisionResult, DecisionState,
    HSDecision,
};
use crate::decisions::msg_queue::PhaseQueue;
use crate::decisions::req_aggr::ReqAggregator;
use crate::decisions::{DecisionHandler, QC};
use crate::messages::HotFeOxMsg;
use crate::ordering::{spec_next_seq, spec_seq_index, NodeId, SeqNo};
use crate::view::View;
use vstd::prelude::*;
use vstd::view::View as _;

verus! {

/// A data structure to keep track of any consensus instances that have been signalled
///
/// A consensus instance being signalled means it should be polled.
#[derive(Debug)]
pub struct Signals {
    signaled_seq_no: Vec<SeqNo>,
}

impl Signals {
    /// The signalled sequence numbers.
    pub closed spec fn spec_signals(&self) -> Set<SeqNo> {
        Set::new(|s: SeqNo| self.signaled_seq_no@.contains(s))
    }

    /// How many sequence numbers are signalled.
    pub closed spec fn spec_len(&self) -> nat {
        self.signaled_seq_no@.len()
    }

    /// The signals are kept in increasing order, each once.
    pub closed spec fn wf(&self) -> bool {
        forall|i: int, j: int|
            0 <= i < j < self.signaled_seq_no@.len() ==> (#[trigger] self.signaled_seq_no@[i]).0
                < (#[trigger] self.signaled_seq_no@[j]).0
    }

    pub fn new() -> (s: Signals)
        ensures
            s.wf(),
            s.spec_signals() =~= Set::empty(),
    {
        Signals { signaled_seq_no: Vec::new() }
    }

    /// Pop the lowest signalled sequence number
    pub fn pop_signalled(&mut self) -> (r: Option<SeqNo>)
        requires
            old(self).wf(),
        ensures
            final(self).wf(),
            r is None <==> old(self).spec_signals() =~= Set::empty(),
            r is None ==> final(self).spec_signals() == old(self).spec_signals(),
            r is None ==> final(self).spec_len() == 0,
            r is Some ==> final(self).spec_len() + 1 == old(self).spec_len(),
            r matches Some(s) ==> old(self).spec_signals().contains(s) && (forall|t: SeqNo| #[trigger]
                old(self).spec_signals().contains(t) ==> s.0 <= t.0) && final(self).spec_signals()
                =~= old(self).spec_signals().remove(s),
    {
        if self.signaled_seq_no.len() == 0 {
            proof {
                assert(self.spec_signals() =~= Set::empty());
            }
            return None;
        }
        let ghost pre = self.signaled_seq_no@;
        let s = self.signaled_seq_no.remove(0);
        proof {
            assert(pre.contains(s)) by {
                assert(pre[0] == s);
            }
            assert(old(self).spec_signals().contains(s));
            assert forall|t: SeqNo| #[trigger] old(self).spec_signals().contains(t) implies s.0 <= t.0 by {
                let k = choose|k: int| 0 <= k < pre.len() && pre[k] == t;
                if k > 0 {
                    assert(pre[0].0 < pre[k].0);
                }
            }
            assert forall|t: SeqNo| #[trigger] self.spec_signals().contains(t) <==> old(
                self,
            ).spec_signals().remove(s).contains(t) by {
                if self.signaled_seq_no@.contains(t) {
                    let k = choose|k: int| 0 <= k < self.signaled_seq_no@.len() && self.signaled_seq_no@[k] == t;
                    assert(pre[k + 1] == t);
                    assert(pre[0].0 < pre[k + 1].0);
                }
                if old(self).spec_signals().remove(s).contains(t) {
                    let k = choose|k: int| 0 <= k < pre.len() && pre[k] == t;
                    assert(k != 0);
                    assert(self.signaled_seq_no@[k - 1] == t);
                }
            }
        }
        Some(s)
    }

    /// Mark a given sequence number as signalled
    pub fn push_signalled(&mut self, seq: SeqNo)
        requires
            old(self).wf(),
        ensures
            final(self).wf(),
            final(self).spec_signals() =~= old(self).spec_signals().insert(seq),
            final(self).spec_len() <= old(self).spec_len() + 1,
    {
        let ghost pre = self.signaled_seq_no@;
        let mut i: usize = 0;
        while i < self.signaled_seq_no.len() && self.signaled_seq_no[i].0 < seq.0
            invariant
                self.signaled_seq_no@ == pre,
                0 <= i <= pre.len(),
                forall|k: int| 0 <= k < i ==> (#[trigger] pre[k]).0 < seq.0,
            decreases pre.len() - i,
        {
            i = i + 1;
        }
        if i < self.signaled_seq_no.len() && self.signaled_seq_no[i].0 == seq.0 {
            proof {
                assert(pre[i as int] == seq);
                assert forall|t: SeqNo| #[trigger] self.spec_signals().contains(t) <==> old(
                    self,
                ).spec_signals().insert(seq).contains(t) by {
                    if t == seq {
                        assert(pre.contains(seq));
                    }
                }
            }
            return;
        }
        self.signaled_seq_no.insert(i, seq);
        proof {
            let post = self.signaled_seq_no@;
            assert(post == pre.insert(i as int, seq));
            assert forall|a: int, b: int| 0 <= a < b < post.len() implies (#[trigger] post[a]).0
                < (#[trigger] post[b]).0 by {
                if b < i {
                } else if a < i && b == i {
                } else if a < i && b > i {
                    assert(post[b] == pre[b - 1]);
                    if i < pre.len() {
                        assert(pre[i as int].0 > seq.0);
                        if b - 1 > i {
                            assert(pre[i as int].0 < pre[b - 1].0);
                        }
                    }
                } else if a == i {
                    assert(post[b] == pre[b - 1]);
                    assert(pre[i as int].0 > seq.0);
                    if b - 1 > i {
                        assert(pre[i as int].0 < pre[b - 1].0);
                    }
                } else {
                    assert(post[a] == pre[a - 1]);
                    assert(post[b] == pre[b - 1]);
                }
            }
            assert forall|t: SeqNo| #[trigger] self.spec_signals().contains(t) <==> old(
                self,
            ).spec_signals().insert(seq).contains(t) by {
                if post.contains(t) {
                    let k = choose|k: int| 0 <= k < post.len() && post[k] == t;
                    if k < i {
                        assert(pre[k] == t);
                    } else if k > i {
                        assert(pre[k - 1] == t);
                    }
                }
                if pre.contains(t) {
                    let k = choose|k: int| 0 <= k < pre.len() && pre[k] == t;
                    if k < i {
                        assert(post[k] == t);
                    } else {
                        assert(post[k + 1] == t);
                    }
                }
                if t == seq {
                    assert(post[i as int] == t);
                }
            }
        }
    }

    pub fn clear(&mut self)
        ensures
            final(self).wf(),
            final(self).spec_signals() =~= Set::empty(),
    {
        self.signaled_seq_no.clear();
    }
}


/// A decision as the ordering protocol reports it to its user.
#[derive(Debug)]
pub enum HotIronDecision<D> {
    /// The decision of a sequence number is complete.
    Completed { seq: SeqNo, decision: ProtocolConsensusDecision<D> },
    /// The decision progressed: a certificate was formed on the way.
    PartialInfo { seq: SeqNo, qcs: Vec<QC>, messages: Vec<StoredMessage<HotFeOxMsg<D>>> },
    /// The decision progressed on a message.
    MessageInfo { seq: SeqNo, message: StoredMessage<HotFeOxMsg<D>> },
}

/// What processing a message did.
#[derive(Debug)]
pub enum HotIronResult<D> {
    MessageDropped,
    MessageQueued,
    ProgressedDecision(Vec<HotIronDecision<D>>),
}

/// What polling found.
#[derive(Debug)]
pub enum HotIronPollResult<D> {
    /// Nothing to do: wait for a message.
    ReceiveMsg,
    /// A queued message is ready to be processed.
    Exec(StoredMessage<HotFeOxMsg<D>>),
    ProgressedDecision(Vec<HotIronDecision<D>>),
}

#[derive(Debug)]
pub enum ProcessMessageErr<CS> {
    DecisionError(DecisionError<CS>),
}

/// `n` successors after `s`.
pub open spec fn seq_plus(s: SeqNo, n: nat) -> SeqNo
    decreases n,
{
    if n == 0 {
        s
    } else {
        spec_next_seq(seq_plus(s, (n - 1) as nat))
    }
}

/// Two views agree on sequence number, members, leader and tolerance.
pub open spec fn same_view(a: View, b: View) -> bool {
    &&& a.spec_seq() == b.spec_seq()
    &&& a.spec_members() == b.spec_members()
    &&& a.spec_leader() == b.spec_leader()
    &&& a.spec_f() == b.spec_f()
}

/// A decision that has not started, with nothing queued, proposed or sent.
pub open spec fn fresh_decision<D>(d: HSDecision<D>, node_id: NodeId) -> bool {
    &&& d.wf()
    &&& d.node_id == node_id
    &&& d.current_state == DecisionState::Init
    &&& !d.decision_queue.get_queue
    &&& (forall|p: PhaseQueue| #[trigger] d.decision_queue.queue(p).len() == 0)
    &&& d.decision_log.current_proposal is None
    &&& d.outbox@.len() == 0
}

/// The decision the user is told of when a decision of `seq` progressed on
/// `message`, with or without a new certificate.
pub open spec fn progress_report<D>(
    d: HotIronDecision<D>,
    seq: SeqNo,
    qc: Option<QC>,
    message: StoredMessage<HotFeOxMsg<D>>,
) -> bool {
    match qc {
        Some(q) => d matches HotIronDecision::PartialInfo { seq: s, qcs, messages } && s == seq
            && qcs@ == seq![q] && messages@ == seq![message],
        None => d == HotIronDecision::MessageInfo { seq, message },
    }
}

/// The report of a completed decision.
pub open spec fn completed_report<D: SessionBased>(d: HotIronDecision<D>, dec: HSDecision<D>) -> bool {
    d matches HotIronDecision::Completed { seq, decision } && seq == dec.spec_seq()
        && decision.seq == dec.spec_seq() && decision.client_commands
        == dec.decision_log.current_proposal->0.client_commands
        && decision.client_rq_infos@ == rq_infos_of(decision.client_commands@) && decision.batch_digest
        == dec.decision_log.current_proposal->0.decision_header.current_block_digest
}

/// The basic protocol: the window of decisions in flight, starting at the
/// sequence number of the current view.
pub struct HotStuffProtocol<D, RQA> {
    pub node_id: NodeId,
    /// The decision store
    pub decisions: Vec<HSDecision<D>>,
    pub decision_handler: DecisionHandler,
    pub request_aggr: RQA,
    pub current_view: View,
    /// Sequence numbers that need to be polled
    pub signal_queue: Signals,
}

impl<D, RQA> HotStuffProtocol<D, RQA> {
    pub open spec fn spec_seq(&self) -> SeqNo {
        self.current_view.spec_seq()
    }

    pub open spec fn wf(&self) -> bool {
        &&& self.current_view.spec_members().len() > 0
        &&& self.signal_queue.wf()
        &&& forall|i: int| 0 <= i < self.decisions@.len() ==> (#[trigger] self.decisions@[i]).wf()
    }

    /// Every signalled sequence number that is not in the past names a decision
    /// of the window.
    pub open spec fn signals_in_range(&self) -> bool {
        forall|s: SeqNo| #[trigger]
            self.signal_queue.spec_signals().contains(s) ==> (spec_seq_index(s, self.spec_seq()) matches Ok(i)
                ==> i < self.decisions@.len())
    }

    /// Whether the first decision of the window is complete.
    pub open spec fn spec_can_finalize(&self) -> bool {
        self.decisions@.len() > 0 && self.decisions@[0].current_state == DecisionState::Finally
    }
}

impl<D: Clone + SessionBased, RQA: ReqAggregator<D>> HotStuffProtocol<D, RQA> {
    pub fn new(view: View, node_id: NodeId, request_aggr: RQA) -> (r: Result<Self, ()>)
        requires
            view.spec_members().len() > 0,
        ensures
            r matches Ok(p) && {
                &&& p.wf()
                &&& p.signals_in_range()
                &&& p.node_id == node_id
                &&& p.current_view == view
                &&& p.request_aggr == request_aggr
                &&& p.decision_handler == DecisionHandler::new_spec()
                &&& p.decisions@.len() == 1
                &&& same_view(p.decisions@[0].view, view)
                &&& fresh_decision(p.decisions@[0], node_id)
                &&& p.signal_queue.spec_signals() =~= set![view.spec_seq()]
            },
    {
        let mut decisions: Vec<HSDecision<D>> = Vec::new();
        let first = HSDecision::new(view.duplicate(), node_id);
        decisions.push(first);
        let mut signals = Signals::new();
        signals.push_signalled(view.sequence_number());
        Ok(HotStuffProtocol {
            node_id,
            decisions,
            decision_handler: DecisionHandler::new(),
            request_aggr,
            current_view: view,
            signal_queue: signals,
        })
    }

    /// Move the window to start right after `seq_no`: the decisions in flight,
    /// but for the last one, are replaced by fresh decisions of the sequence
    /// numbers that follow `seq_no`, on the quorum of the last decision.
    pub fn install_seq_no(&mut self, seq_no: SeqNo)
        requires
            old(self).wf(),
            old(self).decisions@.len() > 0,
        ensures
            final(self).wf(),
            final(self).current_view.is_round_robin_view(seq_no, old(self).current_view.spec_members()),
            final(self).decisions@.len() == old(self).decisions@.len() - 1,
            forall|i: int|
                0 <= i < final(self).decisions@.len() ==> fresh_decision(#[trigger] final(self).decisions@[i], old(self).node_id)
                    && final(self).decisions@[i].view.is_round_robin_view(
                    seq_plus(seq_no, (i + 1) as nat),
                    old(self).decisions@.last().view.spec_members(),
                ),
            final(self).node_id == old(self).node_id,
            final(self).decision_handler == old(self).decision_handler,
            final(self).request_aggr == old(self).request_aggr,
            final(self).signal_queue == old(self).signal_queue,
    {
        self.current_view = self.current_view.with_new_seq(seq_no);
        let last = match self.decisions.pop() {
            Some(d) => d,
            None => vstd::pervasive::unreached(),
        };
        proof {
            assert(last == old(self).decisions@.last());
            assert(last.wf());
        }
        let new_view = last.view().with_new_seq(seq_no);
        let decisions_to_pop = self.decisions.len();
        self.decisions.clear();
        let ghost members = last.view.spec_members();
        let mut seq = seq_no;
        let mut k: usize = 0;
        while k < decisions_to_pop
            invariant
                k <= decisions_to_pop,
                self.decisions@.len() == k,
                seq == seq_plus(seq_no, k as nat),
                new_view.spec_members() == members,
                members.len() > 0,
                self.current_view.is_round_robin_view(seq_no, old(self).current_view.spec_members()),
                self.current_view.spec_members().len() > 0,
                self.signal_queue == old(self).signal_queue,
                self.decision_handler == old(self).decision_handler,
                self.request_aggr == old(self).request_aggr,
                self.node_id == old(self).node_id,
                forall|i: int|
                    0 <= i < k ==> fresh_decision(#[trigger] self.decisions@[i], old(self).node_id)
                        && self.decisions@[i].view.is_round_robin_view(seq_plus(seq_no, (i + 1) as nat), members),
            decreases decisions_to_pop - k,
        {
            seq = seq.next();
            let d = HSDecision::new(new_view.with_new_seq(seq), self.node_id);
            self.decisions.push(d);
            k = k + 1;
        }
    }

    pub fn install_view(&mut self, view: View)
        requires
            view.spec_members().len() > 0,
            old(self).wf(),
        ensures
            final(self).wf(),
            final(self).current_view == view,
            final(self).decisions == old(self).decisions,
            final(self).node_id == old(self).node_id,
            final(self).decision_handler == old(self).decision_handler,
            final(self).request_aggr == old(self).request_aggr,
            final(self).signal_queue == old(self).signal_queue,
    {
        self.current_view = view;
    }

    pub fn view(&self) -> (v: &View)
        ensures
            *v == self.current_view,
    {
        &self.current_view
    }

    pub fn sequence_number(&self) -> (s: SeqNo)
        ensures
            s == self.spec_seq(),
    {
        self.current_view.sequence_number()
    }

    /// Whether the first decision of the window is complete.
    pub fn can_finalize(&self) -> (b: bool)
        ensures
            b == self.spec_can_finalize(),
    {
        if self.decisions.len() == 0 {
            return false;
        }
        match self.decisions[0].can_be_finalized() {
            DecisionFinalizationResult::Finalized => true,
            _ => false,
        }
    }

    /// Queue a message into the decision of its sequence number, which is then
    /// signalled for polling; a message of a past sequence number is dropped.
    pub fn queue(&mut self, message: StoredMessage<HotFeOxMsg<D>>)
        requires
            old(self).wf(),
            spec_seq_index(message.message.curr_view, old(self).spec_seq()) matches Ok(i) ==> i
                < old(self).decisions@.len(),
        ensures
            final(self).wf(),
            old(self).signals_in_range() ==> final(self).signals_in_range(),
            match spec_seq_index(message.message.curr_view, old(self).spec_seq()) {
                Err(_) => *final(self) == *old(self),
                Ok(i) => {
                    &&& final(self).decisions@.len() == old(self).decisions@.len()
                    &&& final(self).decisions@[i as int].queued_by(&old(self).decisions@[i as int], message)
                    &&& forall|j: int| 0 <= j < final(self).decisions@.len() && j != i ==> #[trigger] final(self).decisions@[j] == old(self).decisions@[j]
                    &&& final(self).signal_queue.spec_signals() == old(self).signal_queue.spec_signals().insert(message.message.curr_view)
                    &&& final(self).current_view == old(self).current_view
                    &&& final(self).node_id == old(self).node_id
                    &&& final(self).decision_handler == old(self).decision_handler
                    &&& final(self).request_aggr == old(self).request_aggr
                },
            },
    {
        let message_seq = message.message.sequence_number();
        match message_seq.index(self.current_view.sequence_number()) {
            Ok(i) => {
                self.decisions[i].queue(message);
                self.signal_queue.push_signalled(message_seq);
                proof {
                    assert forall|j: int| 0 <= j < self.decisions@.len() implies (#[trigger] self.decisions@[j]).wf() by {
                        if j != i {
                            assert(self.decisions@[j] == old(self).decisions@[j]);
                        }
                    }
                }
            },
            Err(_) => {},
        }
    }

    fn next_seq_no(&mut self) -> (s: SeqNo)
        requires
            old(self).wf(),
        ensures
            final(self).wf(),
            s == spec_next_seq(old(self).spec_seq()),
            final(self).current_view.is_round_robin_view(s, old(self).current_view.spec_members()),
            final(self).decisions == old(self).decisions,
            final(self).node_id == old(self).node_id,
            final(self).decision_handler == old(self).decision_handler,
            final(self).request_aggr == old(self).request_aggr,
            final(self).signal_queue == old(self).signal_queue,
    {
        let current_seq_no = self.current_view.sequence_number();
        self.current_view = self.current_view.with_new_seq(current_seq_no.next());
        self.current_view.sequence_number()
    }

    /// Take the first decision out of the window, which moves one sequence
    /// number on, and open a fresh decision at its back.
    fn pop_front_decision(&mut self) -> (d: HSDecision<D>)
        requires
            old(self).wf(),
            old(self).decisions@.len() > 0,
        ensures
            final(self).wf(),
            d == old(self).decisions@[0],
            final(self).decisions@.len() == old(self).decisions@.len(),
            final(self).decisions@.drop_last() == old(self).decisions@.drop_first(),
            fresh_decision(final(self).decisions@.last(), old(self).node_id),
            final(self).decisions@.last().view.is_round_robin_view(
                spec_next_seq(old(self).spec_seq()),
                old(self).decisions@.last().view.spec_members(),
            ),
            final(self).current_view.is_round_robin_view(
                spec_next_seq(old(self).spec_seq()),
                old(self).current_view.spec_members(),
            ),
            final(self).node_id == old(self).node_id,
            final(self).decision_handler == old(self).decision_handler,
            final(self).request_aggr == old(self).request_aggr,
            final(self).signal_queue == old(self).signal_queue,
    {
        let ghost pre = self.decisions@;
        let popped = self.decisions.remove(0);
        proof {
            assert(self.decisions@ =~= pre.drop_first());
            assert(popped.wf());
        }
        let no = self.next_seq_no();
        let next_view = if self.decisions.len() > 0 {
            let last = self.decisions.len() - 1;
            proof {
                assert(self.decisions@[last as int] == pre.last());
                assert(self.decisions@[last as int].wf());
            }
            self.decisions[last].view().with_new_seq(no)
        } else {
            popped.view().with_new_seq(no)
        };
        let decision = HSDecision::new(next_view, self.node_id);
        self.decisions.push(decision);
        proof {
            assert(self.decisions@.drop_last() =~= pre.drop_first());
            assert forall|i: int| 0 <= i < self.decisions@.len() implies (#[trigger] self.decisions@[i]).wf() by {
                if i < self.decisions@.len() - 1 {
                    assert(self.decisions@[i] == pre[i + 1]);
                }
            }
        }
        popped
    }

    /// Take every complete decision off the front of the window, in order,
    /// and report them.
    pub fn finalize_decisions(&mut self) -> (out: Vec<HotIronDecision<D>>)
        requires
            old(self).wf(),
        ensures
            final(self).wf(),
            finalized_window(*old(self), *final(self), out@),
            old(self).signals_in_range() && old(self).spec_seq().0 + out@.len() <= u32::MAX
                ==> final(self).signals_in_range(),
    {
        let ghost pre = *self;
        let ghost n = self.decisions@.len();
        let ghost members = if n > 0 { self.decisions@.last().view.spec_members() } else { Seq::empty() };
        let mut out: Vec<HotIronDecision<D>> = Vec::new();
        while self.can_finalize()
            invariant
                self.wf(),
                out@.len() <= n,
                self.decisions@.len() == n,
                n > 0 ==> members.len() > 0 && members == pre.decisions@.last().view.spec_members(),
                n > 0 ==> self.decisions@.last().view.spec_members() == members,
                forall|i: int| 0 <= i < out@.len() ==> (#[trigger] pre.decisions@[i]).current_state == DecisionState::Finally,
                forall|i: int| 0 <= i < out@.len() ==> completed_report(#[trigger] out@[i], pre.decisions@[i]),
                forall|x: int| 0 <= x < n - out@.len() ==> #[trigger] self.decisions@[x] == pre.decisions@[x + out@.len()],
                forall|x: int| n - out@.len() <= x < n ==> fresh_decision(#[trigger] self.decisions@[x], pre.node_id)
                    && self.decisions@[x].view.is_round_robin_view(seq_plus(pre.spec_seq(), (x - (n - out@.len()) + 1) as nat), members),
                out@.len() > 0 ==> self.current_view.is_round_robin_view(seq_plus(pre.spec_seq(), out@.len()), pre.current_view.spec_members()),
                out@.len() == 0 ==> self.current_view == pre.current_view,
                self.node_id == pre.node_id,
                self.decision_handler == pre.decision_handler,
                self.request_aggr == pre.request_aggr,
                self.signal_queue == pre.signal_queue,
            decreases n - out@.len(),
        {
            let ghost j = out@.len();
            let ghost before = self.decisions@;
            let ghost old_out = out@;
            let ghost cur = self.current_view.spec_seq();
            proof {
                if j > 0 {
                    assert(cur == seq_plus(pre.spec_seq(), j));
                } else {
                    assert(cur == seq_plus(pre.spec_seq(), 0));
                }
            }
            proof {
                if j == n {
                    assert(fresh_decision(self.decisions@[0], pre.node_id));
                }
                assert(before[0].wf());
                assert(j < n);
                assert(self.decisions@[0] == pre.decisions@[0 + j as int]);
                assert(before[0] == pre.decisions@[j as int]);
                assert(before[0].current_state == DecisionState::Finally);
            }
            let decision = self.pop_front_decision();
            let fin = decision.finalize_decision();
            let seq = fin.sequence_number();
            out.push(HotIronDecision::Completed { seq, decision: fin });
            proof {
                assert(completed_report(out@[j as int], before[0]));
                let after = self.decisions@;
                assert forall|jj: int| 0 <= jj < out@.len() implies completed_report(#[trigger] out@[jj], pre.decisions@[jj]) by {
                    if jj < j {
                        assert(out@[jj] == old_out[jj]);
                    } else {
                        assert(before[0] == pre.decisions@[j as int]);
                    }
                }
                assert(seq_plus(pre.spec_seq(), (j + 1) as nat) == spec_next_seq(seq_plus(pre.spec_seq(), j)));
                assert forall|x: int| 0 <= x < n - out@.len() implies #[trigger] after[x] == pre.decisions@[x + out@.len()] by {
                    assert(after[x] == after.drop_last()[x]);
                    assert(after.drop_last()[x] == before.drop_first()[x]);
                }
                assert forall|x: int| n - out@.len() <= x < n implies fresh_decision(#[trigger] after[x], pre.node_id)
                    && after[x].view.is_round_robin_view(seq_plus(pre.spec_seq(), (x - (n - out@.len()) + 1) as nat), members) by {
                    if x < n - 1 {
                        assert(after[x] == after.drop_last()[x]);
                        assert(after.drop_last()[x] == before.drop_first()[x]);
                        assert(before[x + 1] == after[x]);
                        assert(n - j <= x + 1 < n);
                        assert(fresh_decision(before[x + 1], pre.node_id));
                        assert((x + 1) - (n - j) + 1 == x - (n - out@.len()) + 1);
                    } else {
                        assert(x == n - 1);
                        assert(after.last() == after[x]);
                        assert(before.last().view.spec_members() == members);
                    }
                }
                assert(completed_report(out@[j as int], pre.decisions@[j as int]));
            }
        }
        proof {
            if out@.len() < n {
                assert(self.decisions@[0] == pre.decisions@[0 + out@.len() as int]);
            }
            if pre.signals_in_range() && pre.spec_seq().0 + out@.len() <= u32::MAX {
                lemma_seq_plus_no_wrap(pre.spec_seq(), out@.len());
            }
        }
        out
    }
}

impl<D: Clone + SessionBased, RQA: ReqAggregator<D>> HotStuffProtocol<D, RQA> {
    fn turn_into_decision(
        seq: SeqNo,
        qc: Option<QC>,
        message: StoredMessage<HotFeOxMsg<D>>,
    ) -> (d: HotIronDecision<D>)
        ensures
            progress_report(d, seq, qc, message),
    {
        match qc {
            Some(qc) => {
                let mut qcs: Vec<QC> = Vec::new();
                qcs.push(qc);
                let mut messages: Vec<StoredMessage<HotFeOxMsg<D>>> = Vec::new();
                messages.push(message);
                proof {
                    assert(qcs@ =~= seq![qc]);
                    assert(messages@ =~= seq![message]);
                }
                HotIronDecision::PartialInfo { seq, qcs, messages }
            },
            None => HotIronDecision::MessageInfo { seq, message },
        }
    }

    /// Process a message: one of a past sequence number is dropped; otherwise
    /// the decision of its sequence number takes a step on it, and what that
    /// step did is reported. When the step completed the decision, the complete
    /// decisions at the front of the window are taken off first.
    pub fn process_message<CP: CryptoProvider>(
        &mut self,
        message: StoredMessage<HotFeOxMsg<D>>,
        crypto: &CP,
    ) -> (r: Result<HotIronResult<D>, ProcessMessageErr<CP::CombinationError>>)
        requires
            old(self).wf(),
            spec_seq_index(message.message.curr_view, old(self).spec_seq()) matches Ok(i) ==> i
                < old(self).decisions@.len() && old(self).decisions@[i as int].received() < usize::MAX,
        ensures
            final(self).wf(),
            message_processed(*old(self), *final(self), message, *crypto, r),
            old(self).signals_in_range() && old(self).spec_seq().0 + old(self).decisions@.len() <= u32::MAX
                ==> final(self).signals_in_range(),
    {
        let message_seq = message.message.sequence_number();
        let index = match message_seq.index(self.current_view.sequence_number()) {
            Ok(i) => i,
            Err(_) => {
                return Ok(HotIronResult::MessageDropped);
            },
        };
        let ghost pre = *self;
        let seq = self.decisions[index].sequence_number();
        let decision_result = self.decisions[index].process_message(
            message,
            &mut self.decision_handler,
            crypto,
            &self.request_aggr,
        );
        let ghost mid = self.decisions@;
        proof {
            assert(mid == pre.decisions@.update(index as int, mid[index as int]));
            assert forall|j: int| 0 <= j < self.decisions@.len() implies (#[trigger] self.decisions@[j]).wf() by {
                if j != index {
                    assert(self.decisions@[j] == pre.decisions@[j]);
                }
            }
            assert(decision_step(pre.decisions@[index as int], mid[index as int], pre.decision_handler, self.decision_handler, message, *crypto, decision_result));
        }
        match decision_result {
            Err(e) => Err(ProcessMessageErr::DecisionError(e)),
            Ok(DecisionResult::DuplicateVote(_)) => Ok(HotIronResult::MessageDropped),
            Ok(DecisionResult::MessageIgnored) => Ok(HotIronResult::MessageDropped),
            Ok(DecisionResult::MessageQueued) => Ok(HotIronResult::MessageQueued),
            Ok(DecisionResult::DecisionProgressed(qc, _, message)) => {
                let decision = Self::turn_into_decision(seq, qc, message);
                let mut decisions: Vec<HotIronDecision<D>> = Vec::new();
                decisions.push(decision);
                Ok(HotIronResult::ProgressedDecision(decisions))
            },
            Ok(DecisionResult::Decided(qc, message)) => {
                let decision = Self::turn_into_decision(seq, qc, message);
                let mut decisions = self.finalize_decisions();
                let ghost finalized = decisions@;
                decisions.push(decision);
                proof {
                    assert(decisions@.drop_last() =~= finalized);
                }
                Ok(HotIronResult::ProgressedDecision(decisions))
            },
        }
    }
}

impl<D: Clone + SessionBased, RQA: ReqAggregator<D>> HotStuffProtocol<D, RQA> {
    /// Poll the signalled decisions, lowest sequence number first. The first
    /// one that hands out a queued message stays signalled and its message is
    /// returned; the others were polled once and are no longer signalled. When
    /// no message came out, the complete decisions at the front of the window
    /// are taken off and reported, if there are any.
    pub fn poll(&mut self) -> (r: HotIronPollResult<D>)
        requires
            old(self).wf(),
            old(self).signals_in_range(),
        ensures
            final(self).wf(),
            final(self).node_id == old(self).node_id,
            final(self).decision_handler == old(self).decision_handler,
            final(self).request_aggr == old(self).request_aggr,
            polled(*old(self), *final(self), r),
    {
        let ghost pre = *self;
        let ghost pre_signals = self.signal_queue.spec_signals();
        let ghost mut lo: int = 0;
        let cur = self.current_view.sequence_number();
        loop
            invariant_except_break
                pre == *old(self),
                pre_signals == pre.signal_queue.spec_signals(),
                self.wf(),
                self.signals_in_range(),
                self.decisions@.len() == pre.decisions@.len(),
                self.current_view == pre.current_view,
                cur == pre.spec_seq(),
                self.node_id == pre.node_id,
                self.decision_handler == pre.decision_handler,
                self.request_aggr == pre.request_aggr,
                self.signal_queue.spec_signals() == at_or_after(pre_signals, lo),
                forall|j: int| 0 <= j < self.decisions@.len() ==> polled_or_same(
                    pre.decisions@[j],
                    #[trigger] self.decisions@[j],
                    pre.decision_handler,
                ),
                forall|j: int| 0 <= j < self.decisions@.len() && cur.0 + j >= lo ==> #[trigger] self.decisions@[j]
                    == pre.decisions@[j],
            ensures
                pre == *old(self),
                self.wf(),
                self.decisions@.len() == pre.decisions@.len(),
                self.current_view == pre.current_view,
                self.node_id == pre.node_id,
                self.decision_handler == pre.decision_handler,
                self.request_aggr == pre.request_aggr,
                self.signal_queue.spec_signals() == Set::<SeqNo>::empty(),
                forall|j: int| 0 <= j < self.decisions@.len() ==> polled_or_same(
                    pre.decisions@[j],
                    #[trigger] self.decisions@[j],
                    pre.decision_handler,
                ),
            decreases self.signal_queue.spec_len(),
        {
            let ghost before = self.signal_queue.spec_signals();
            let ghost lo0 = lo;
            let ghost ds = self.decisions@;
            let popped = self.signal_queue.pop_signalled();
            let seq = match popped {
                Some(s) => s,
                None => {
                    break;
                },
            };
            proof {
                assert(self.signal_queue.spec_signals() =~= at_or_after(pre_signals, seq.0 + 1)) by {
                    assert forall|t: SeqNo| #[trigger] pre_signals.contains(t) && t.0 >= seq.0 + 1
                        implies before.contains(t) by {
                        assert(before.contains(seq));
                    }
                }
                lo = seq.0 + 1;
            }
            match seq.index(cur) {
                Ok(index) => {
                    let ghost d_pre = self.decisions@[index as int];
                    proof {
                        assert(before.contains(seq));
                        assert(at_or_after(pre_signals, lo0).contains(seq));
                        assert(seq.0 >= lo0);
                        assert(cur.0 + index >= lo0);
                        assert(d_pre == pre.decisions@[index as int]);
                    }
                    let poll_result = self.decisions[index].poll(&self.decision_handler);
                    proof {
                        assert forall|j: int| 0 <= j < self.decisions@.len() implies (#[trigger] self.decisions@[j]).wf() by {
                            if j != index {
                                assert(self.decisions@[j] == ds[j]);
                            }
                        }
                        assert(poll_step(pre.decisions@[index as int], self.decisions@[index as int], pre.decision_handler, poll_result));
                    }
                    match poll_result {
                        DecisionPollResult::NextMessage(message) => {
                            self.signal_queue.push_signalled(seq);
                            proof {
                                assert(self.signal_queue.spec_signals() =~= at_or_after(pre_signals, seq.0 as int));
                                assert(pre_signals.contains(seq));
                                assert forall|j: int| 0 <= j < self.decisions@.len() && j != index implies polled_or_same(
                                    pre.decisions@[j],
                                    #[trigger] self.decisions@[j],
                                    pre.decision_handler,
                                ) by {
                                    assert(self.decisions@[j] == ds[j]);
                                }
                            }
                            return HotIronPollResult::Exec(message);
                        },
                        _ => {},
                    }
                },
                Err(_) => {},
            }
        }
        if self.can_finalize() {
            let ghost mid = *self;
            let out = self.finalize_decisions();
            proof {
                assert(mid.decisions@[0].current_state == DecisionState::Finally);
                assert(out@.len() > 0);
                assert(window_finalized(mid.decisions@, pre.current_view, pre.node_id, self.decisions@, self.current_view, out@));
                assert(forall|j: int| 0 <= j < mid.decisions@.len() ==> polled_or_same(pre.decisions@[j], #[trigger] mid.decisions@[j], pre.decision_handler));
                assert(self.signal_queue.spec_signals() == Set::<SeqNo>::empty());
                assert(mid.decisions@.len() == pre.decisions@.len());
                assert(polled_then_finalized(pre, mid.decisions@, *self, out@));
            }
            return HotIronPollResult::ProgressedDecision(out);
        }
        HotIronPollResult::ReceiveMsg
    }
}

/// The sequence numbers of `s` from `lo` on.
pub open spec fn at_or_after(s: Set<SeqNo>, lo: int) -> Set<SeqNo> {
    s.filter(|t: SeqNo| t.0 >= lo)
}

/// The decision was polled once, to a result other than a message, or not at all.
pub open spec fn polled_or_same<D>(pre: HSDecision<D>, post: HSDecision<D>, h: DecisionHandler) -> bool {
    post == pre || exists|pr: DecisionPollResult<D>| #[trigger] poll_step(pre, post, h, pr) && !(pr is NextMessage)
}

/// The decisions were each polled once or not at all, giving `mid`, and the
/// complete ones at the front of `mid` were then reported in `out`.
pub open spec fn polled_then_finalized<D: SessionBased, RQA>(
    pre: HotStuffProtocol<D, RQA>,
    mid: Seq<HSDecision<D>>,
    post: HotStuffProtocol<D, RQA>,
    out: Seq<HotIronDecision<D>>,
) -> bool {
    &&& mid.len() == pre.decisions@.len()
    &&& forall|j: int| 0 <= j < mid.len() ==> polled_or_same(pre.decisions@[j], #[trigger] mid[j], pre.decision_handler)
    &&& window_finalized(mid, pre.current_view, pre.node_id, post.decisions@, post.current_view, out)
}

/// What a poll of the protocol did and found.
pub open spec fn polled<D: SessionBased, RQA>(pre: HotStuffProtocol<D, RQA>, post: HotStuffProtocol<D, RQA>, r: HotIronPollResult<D>) -> bool {
    match r {
        HotIronPollResult::Exec(m) => exists|s: SeqNo| {
            let i = s.0 - pre.spec_seq().0;
            &&& #[trigger] pre.signal_queue.spec_signals().contains(s)
            &&& 0 <= i < pre.decisions@.len()
            &&& poll_step(pre.decisions@[i], post.decisions@[i], pre.decision_handler, DecisionPollResult::NextMessage(m))
            &&& post.signal_queue.spec_signals() == at_or_after(pre.signal_queue.spec_signals(), s.0 as int)
            &&& post.decisions@.len() == pre.decisions@.len()
            &&& post.current_view == pre.current_view
            &&& forall|j: int| 0 <= j < post.decisions@.len() && j != i ==> polled_or_same(
                pre.decisions@[j],
                #[trigger] post.decisions@[j],
                pre.decision_handler,
            )
        },
        HotIronPollResult::ReceiveMsg => {
            &&& post.signal_queue.spec_signals() == Set::<SeqNo>::empty()
            &&& post.decisions@.len() == pre.decisions@.len()
            &&& post.current_view == pre.current_view
            &&& !post.spec_can_finalize()
            &&& forall|j: int| 0 <= j < post.decisions@.len() ==> polled_or_same(
                pre.decisions@[j],
                #[trigger] post.decisions@[j],
                pre.decision_handler,
            )
        },
        HotIronPollResult::ProgressedDecision(out) => {
            &&& out@.len() > 0
            &&& post.signal_queue.spec_signals() == Set::<SeqNo>::empty()
            &&& exists|mid: Seq<HSDecision<D>>| #[trigger] polled_then_finalized(pre, mid, post, out@)
        },
    }
}

/// What processing `message` did to the protocol and reported in `r`.
pub open spec fn message_processed<D: Clone + SessionBased, RQA, CP: CryptoSignatureCombiner>(
    pre: HotStuffProtocol<D, RQA>,
    post: HotStuffProtocol<D, RQA>,
    message: StoredMessage<HotFeOxMsg<D>>,
    crypto: CP,
    r: Result<HotIronResult<D>, ProcessMessageErr<CP::CombinationError>>,
) -> bool {
    match spec_seq_index(message.message.curr_view, pre.spec_seq()) {
        Err(_) => r matches Ok(HotIronResult::MessageDropped) && post == pre,
        Ok(i) => exists|d: HSDecision<D>, h: DecisionHandler, rr: Result<DecisionResult<D>, DecisionError<CP::CombinationError>>|
            #[trigger] decision_step(pre.decisions@[i as int], d, pre.decision_handler, h, message, crypto, rr)
                && step_reported(pre, post, i as int, d, h, rr, r),
    }
}

/// The protocol after the decision at `i` took a step to `d`, leaving the
/// certificates at `h`, with the decision's result `rr`, reported as `r`.
pub open spec fn step_reported<D: SessionBased, RQA, CS>(
    pre: HotStuffProtocol<D, RQA>,
    post: HotStuffProtocol<D, RQA>,
    i: int,
    d: HSDecision<D>,
    h: DecisionHandler,
    rr: Result<DecisionResult<D>, DecisionError<CS>>,
    r: Result<HotIronResult<D>, ProcessMessageErr<CS>>,
) -> bool {
    let seq = pre.decisions@[i].spec_seq();
    let mid = pre.decisions@.update(i, d);
    let unmoved = post.decisions@ == mid && post.current_view == pre.current_view;
    &&& post.decision_handler == h
    &&& post.node_id == pre.node_id
    &&& post.request_aggr == pre.request_aggr
    &&& post.signal_queue == pre.signal_queue
    &&& match rr {
        Err(e) => unmoved && r == Err::<HotIronResult<D>, ProcessMessageErr<CS>>(ProcessMessageErr::DecisionError(e)),
        Ok(DecisionResult::DuplicateVote(_)) => unmoved && r matches Ok(HotIronResult::MessageDropped),
        Ok(DecisionResult::MessageIgnored) => unmoved && r matches Ok(HotIronResult::MessageDropped),
        Ok(DecisionResult::MessageQueued) => unmoved && r matches Ok(HotIronResult::MessageQueued),
        Ok(DecisionResult::DecisionProgressed(qc, _, m)) => unmoved && (r matches Ok(HotIronResult::ProgressedDecision(v))
            && v@.len() == 1 && progress_report(v@[0], seq, qc, m)),
        Ok(DecisionResult::Decided(qc, m)) => (r matches Ok(HotIronResult::ProgressedDecision(v))
            && v@.len() >= 1 && progress_report(v@.last(), seq, qc, m)
            && window_finalized(mid, pre.current_view, pre.node_id, post.decisions@, post.current_view, v@.drop_last())),
    }
}

/// Counting on from `s` without passing the largest sequence number adds up.
pub proof fn lemma_seq_plus_no_wrap(s: SeqNo, n: nat)
    requires
        s.0 + n <= u32::MAX,
    ensures
        seq_plus(s, n).0 == s.0 + n,
    decreases n,
{
    if n > 0 {
        lemma_seq_plus_no_wrap(s, (n - 1) as nat);
    }
}

/// The window after the first `out.len()` decisions, all complete, left it in
/// order and were reported in `out`: the rest moved to the front, fresh
/// decisions opened at the back, and the view moved on as many sequence numbers.
pub open spec fn window_finalized<D: SessionBased>(
    pre: Seq<HSDecision<D>>,
    pre_view: View,
    node_id: NodeId,
    post: Seq<HSDecision<D>>,
    post_view: View,
    out: Seq<HotIronDecision<D>>,
) -> bool {
    let k = out.len();
    let n = pre.len();
    &&& k <= n
    &&& forall|j: int| 0 <= j < k ==> (#[trigger] pre[j]).current_state == DecisionState::Finally
    &&& forall|j: int| 0 <= j < k ==> completed_report(#[trigger] out[j], pre[j])
    &&& k < n ==> pre[k as int].current_state != DecisionState::Finally
    &&& post.len() == n
    &&& forall|x: int| 0 <= x < n - k ==> #[trigger] post[x] == pre[x + k]
    &&& forall|x: int| n - k <= x < n ==> fresh_decision(#[trigger] post[x], node_id)
        && post[x].view.is_round_robin_view(
        seq_plus(pre_view.spec_seq(), (x - (n - k) + 1) as nat),
        pre.last().view.spec_members(),
    )
    &&& k > 0 ==> post_view.is_round_robin_view(seq_plus(pre_view.spec_seq(), k), pre_view.spec_members())
    &&& k == 0 ==> post_view == pre_view
}

/// `window_finalized` on the whole protocol, whose other parts stay as they were.
pub open spec fn finalized_window<D: SessionBased, RQA>(
    pre: HotStuffProtocol<D, RQA>,
    post: HotStuffProtocol<D, RQA>,
    out: Seq<HotIronDecision<D>>,
) -> bool {
    &&& window_finalized(pre.decisions@, pre.current_view, pre.node_id, post.decisions@, post.current_view, out)
    &&& post.node_id == pre.node_id
    &&& post.decision_handler == pre.decision_handler
    &&& post.request_aggr == pre.request_aggr
    &&& post.signal_queue == pre.signal_queue
}

} // verus!
