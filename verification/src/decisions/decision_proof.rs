//! The proof of a decision of the basic protocol: the node that was decided,
//! the certificates gathered for it (one per phase) and the messages of the
//! decision.
use crate::decision_tree::{copied_command, node_copied, DecisionNode, DecisionNodeHeader, StoredMessage};
use crate::decisions::{QCType, QCView, QC};
use crate::messages::{HotFeOxMsg, HotFeOxMsgType, ProposalType};
use crate::ordering::SeqNo;
use vstd::prelude::*;
use vstd::view::View as _;

verus! {

pub struct Proof<D> {
    decision_node: DecisionNode<D>,
    qcs: Vec<QC>,
    messages: Vec<StoredMessage<HotFeOxMsg<D>>>,
}

#[derive(Debug, Clone, Copy, PartialEq, Eq, Structural)]
pub enum ProofFromStorageError {
    FailedToObtainPrepareProposal,
    MissMatchingDecisionHeader,
}

/// The header of the node a message proposes in the prepare phase, if it is
/// such a proposal.
pub open spec fn prepare_header_of<D>(m: StoredMessage<HotFeOxMsg<D>>) -> Option<DecisionNodeHeader> {
    match m.message.message {
        HotFeOxMsgType::Proposal(p) => match p.proposal_type {
            ProposalType::Prepare(node, _) => Some(node.decision_header),
            _ => None,
        },
        HotFeOxMsgType::Vote(_) => None,
    }
}

/// The node a message proposes in the prepare phase, if it is such a proposal.
pub open spec fn prepare_node_of<D>(m: StoredMessage<HotFeOxMsg<D>>) -> Option<DecisionNode<D>> {
    match m.message.message {
        HotFeOxMsgType::Proposal(p) => match p.proposal_type {
            ProposalType::Prepare(node, _) => Some(node),
            _ => None,
        },
        HotFeOxMsgType::Vote(_) => None,
    }
}

/// `i` is the position of the first prepare proposal in `msgs`.
pub open spec fn first_prepare_at<D>(msgs: Seq<StoredMessage<HotFeOxMsg<D>>>, i: int) -> bool {
    &&& 0 <= i < msgs.len()
    &&& prepare_header_of(msgs[i]) is Some
    &&& forall|j: int| 0 <= j < i ==> prepare_header_of(#[trigger] msgs[j]) is None
}

/// The certificates by the phase they belong to; of two of the same phase the
/// later one counts.
pub open spec fn qc_map(qcs: Seq<QC>) -> Map<QCType, QCView>
    decreases qcs.len(),
{
    if qcs.len() == 0 {
        Map::empty()
    } else {
        qc_map(qcs.drop_last()).insert(qcs.last().qc_type, qcs.last()@)
    }
}

/// No two certificates belong to the same phase.
pub open spec fn distinct_qc_types(qcs: Seq<QC>) -> bool {
    forall|i: int, j: int|
        0 <= i < qcs.len() && 0 <= j < qcs.len() && i != j ==> (#[trigger] qcs[i]).qc_type
            != (#[trigger] qcs[j]).qc_type
}

/// The certificates of a list without repeated phases, by phase.
pub open spec fn qc_map_distinct(qcs: Seq<QC>) -> Map<QCType, QCView> {
    Map::new(
        |t: QCType| exists|i: int| 0 <= i < qcs.len() && (#[trigger] qcs[i]).qc_type == t,
        |t: QCType| qcs[choose|i: int| 0 <= i < qcs.len() && (#[trigger] qcs[i]).qc_type == t]@,
    )
}

/// What rebuilding a proof from stored parts gives: the node proposed by the
/// first prepare proposal among the messages, which must have the decision's
/// header (its commands copied), with the certificates by phase and all the
/// messages.
pub open spec fn built_from_storage<D: Clone>(
    decision_header: DecisionNodeHeader,
    qcs: Seq<QC>,
    messages: Seq<StoredMessage<HotFeOxMsg<D>>>,
    r: Result<Proof<D>, ProofFromStorageError>,
) -> bool {
    &&& (forall|j: int| 0 <= j < messages.len() ==> prepare_header_of(#[trigger] messages[j]) is None)
        ==> r == Err::<Proof<D>, ProofFromStorageError>(ProofFromStorageError::FailedToObtainPrepareProposal)
    &&& forall|i: int| #[trigger] first_prepare_at(messages, i) ==> match r {
        Ok(p) => {
            &&& prepare_header_of(messages[i]) == Some(decision_header)
            &&& p.wf()
            &&& p.spec_decision_node().decision_header == decision_header
            &&& prepare_node_of(messages[i]) matches Some(n) && node_copied(n, p.spec_decision_node())
            &&& p.spec_qcs() == qc_map(qcs)
            &&& p.spec_messages() == messages
        },
        Err(e) => e == ProofFromStorageError::MissMatchingDecisionHeader && prepare_header_of(messages[i])
            != Some(decision_header),
    }
}

impl<D> Proof<D> {
    pub closed spec fn spec_decision_node(&self) -> DecisionNode<D> {
        self.decision_node
    }

    pub closed spec fn spec_qcs(&self) -> Map<QCType, QCView> {
        qc_map_distinct(self.qcs@)
    }

    pub closed spec fn spec_messages(&self) -> Seq<StoredMessage<HotFeOxMsg<D>>> {
        self.messages@
    }

    pub closed spec fn wf(&self) -> bool {
        distinct_qc_types(self.qcs@)
    }

    pub fn new(
        decision_node: DecisionNode<D>,
        qcs: Vec<QC>,
        messages: Vec<StoredMessage<HotFeOxMsg<D>>>,
    ) -> (p: Proof<D>)
        requires
            distinct_qc_types(qcs@),
        ensures
            p.wf(),
            p.spec_decision_node() == decision_node,
            p.spec_qcs() == qc_map_distinct(qcs@),
            p.spec_messages() == messages@,
    {
        Proof { decision_node, qcs, messages }
    }

    pub fn decision_node(&self) -> (n: &DecisionNode<D>)
        ensures
            *n == self.spec_decision_node(),
    {
        &self.decision_node
    }

    /// The certificates, one per phase.
    pub fn qcs(&self) -> (q: &Vec<QC>)
        requires
            self.wf(),
        ensures
            distinct_qc_types(q@),
            qc_map_distinct(q@) == self.spec_qcs(),
    {
        &self.qcs
    }

    pub fn messages(&self) -> (m: &Vec<StoredMessage<HotFeOxMsg<D>>>)
        ensures
            m@ == self.spec_messages(),
    {
        &self.messages
    }

    pub fn sequence_number(&self) -> (s: SeqNo)
        ensures
            s == self.spec_decision_node().decision_header.view_no,
    {
        self.decision_node.sequence_number()
    }

    /// The number of messages the proof holds.
    pub fn contained_messages(&self) -> (n: usize)
        ensures
            n == self.spec_messages().len(),
    {
        self.messages.len()
    }
}

/// Gather certificates by phase, the later of two of the same phase counting.
fn collect_qcs(qcs: Vec<QC>) -> (r: Vec<QC>)
    ensures
        distinct_qc_types(r@),
        qc_map_distinct(r@) == qc_map(qcs@),
{
    let ghost input = qcs@;
    let mut out: Vec<QC> = Vec::new();
    let mut rest = qcs;
    let ghost mut n: int = 0;
    proof {
        assert(qc_map_distinct(out@) =~= qc_map(input.take(0)));
        assert(rest@ =~= input.skip(0));
    }
    while rest.len() > 0
        invariant
            0 <= n <= input.len(),
            rest@ == input.skip(n),
            distinct_qc_types(out@),
            qc_map_distinct(out@) == qc_map(input.take(n)),
        decreases rest.len(),
    {
        let qc = rest.remove(0);
        let ghost pre_out = out@;
        let mut k: usize = 0;
        let mut found = false;
        while k < out.len()
            invariant_except_break
                out@ == pre_out,
                0 <= k <= out.len(),
                !found,
                forall|j: int| 0 <= j < k ==> (#[trigger] out@[j]).qc_type != qc.qc_type,
            ensures
                out@ == pre_out,
                found ==> k < out.len() && out@[k as int].qc_type == qc.qc_type,
                !found ==> k == out.len() && forall|j: int| 0 <= j < out@.len() ==> (#[trigger] out@[j]).qc_type != qc.qc_type,
            decreases out.len() - k,
        {
            if out[k].qc_type == qc.qc_type {
                found = true;
                break;
            }
            k = k + 1;
        }
        let ghost qv = qc@;
        let ghost qt = qc.qc_type;
        proof {
            assert(qc == input[n]);
            assert(input.take(n + 1).drop_last() =~= input.take(n));
            assert(qc_map(input.take(n + 1)) == qc_map(input.take(n)).insert(qt, qv));
            n = n + 1;
            assert(rest@ =~= input.skip(n));
        }
        if found {
            out.set(k, qc);
        } else {
            out.push(qc);
        }
        proof {
            assert forall|i: int, j: int|
                0 <= i < out@.len() && 0 <= j < out@.len() && i != j implies (#[trigger] out@[i]).qc_type
                    != (#[trigger] out@[j]).qc_type by {
                if !found {
                    if i < pre_out.len() && j < pre_out.len() {
                        assert(out@[i] == pre_out[i] && out@[j] == pre_out[j]);
                    }
                } else {
                    if i != k && j != k {
                        assert(out@[i] == pre_out[i] && out@[j] == pre_out[j]);
                    }
                }
            }
            assert(qc_map_distinct(out@) =~= qc_map_distinct(pre_out).insert(qt, qv)) by {
                assert forall|t: QCType| #[trigger] qc_map_distinct(out@).dom().contains(t) <==> qc_map_distinct(
                    pre_out,
                ).insert(qt, qv).dom().contains(t) by {
                    if t != qt {
                        if qc_map_distinct(out@).dom().contains(t) {
                            let i = choose|i: int| 0 <= i < out@.len() && (#[trigger] out@[i]).qc_type == t;
                            assert(pre_out[i].qc_type == t);
                        }
                        if qc_map_distinct(pre_out).dom().contains(t) {
                            let i = choose|i: int| 0 <= i < pre_out.len() && (#[trigger] pre_out[i]).qc_type == t;
                            assert(out@[i].qc_type == t);
                        }
                    } else {
                        if found {
                            assert(out@[k as int].qc_type == t);
                        } else {
                            assert(out@[out@.len() - 1].qc_type == t);
                        }
                    }
                }
                assert forall|t: QCType| #[trigger] qc_map_distinct(out@).dom().contains(t) implies qc_map_distinct(
                    out@,
                )[t] == qc_map_distinct(pre_out).insert(qt, qv)[t] by {
                    let i = choose|i: int| 0 <= i < out@.len() && (#[trigger] out@[i]).qc_type == t;
                    if t != qt {
                        assert(out@[i] == pre_out[i]);
                        let i2 = choose|i2: int| 0 <= i2 < pre_out.len() && (#[trigger] pre_out[i2]).qc_type == t;
                        if i2 != i {
                            assert(pre_out[i2].qc_type != pre_out[i].qc_type);
                        }
                    } else {
                        if found {
                            if i != k {
                                assert(out@[k as int].qc_type == t);
                            }
                        } else {
                            if i != out@.len() - 1 {
                                assert(out@[out@.len() - 1].qc_type == t);
                            }
                        }
                    }
                }
            }
        }
    }
    proof {
        assert(input.skip(n).len() == 0);
        assert(input.take(n) =~= input);
    }
    out
}

impl<D: Clone> Proof<D> {
    /// Build the proof of a decision from what storage kept of it: the node is
    /// the one the first prepare proposal among the messages carries, which
    /// must have the given header.
    pub fn new_from_storage(
        decision_header: DecisionNodeHeader,
        qcs: Vec<QC>,
        messages: Vec<StoredMessage<HotFeOxMsg<D>>>,
    ) -> (r: Result<Proof<D>, ProofFromStorageError>)
        ensures
            built_from_storage(decision_header, qcs@, messages@, r),
    {
        let qcs = collect_qcs(qcs);
        let mut i: usize = 0;
        let mut node: Option<DecisionNode<D>> = None;
        while i < messages.len()
            invariant_except_break
                0 <= i <= messages.len(),
                forall|j: int| 0 <= j < i ==> prepare_header_of(#[trigger] messages@[j]) is None,
                node is None,
            ensures
                node matches Some(n) ==> first_prepare_at(messages@, i as int) && Some(n.decision_header)
                    == prepare_header_of(messages@[i as int]) && (prepare_node_of(messages@[i as int]) matches Some(
                    m) && node_copied(m, n)),
                node is None ==> forall|j: int| 0 <= j < messages@.len() ==> prepare_header_of(#[trigger] messages@[j]) is None,
            decreases messages.len() - i,
        {
            match &messages[i].message.message {
                HotFeOxMsgType::Proposal(p) => match &p.proposal_type {
                    ProposalType::Prepare(n, _) => {
                        node = Some(n.duplicate());
                        break;
                    },
                    _ => {},
                },
                HotFeOxMsgType::Vote(_) => {},
            }
            i = i + 1;
        }
        let decision_node = match node {
            Some(n) => n,
            None => {
                return Err(ProofFromStorageError::FailedToObtainPrepareProposal);
            },
        };
        proof {
            assert forall|k: int| #[trigger] first_prepare_at(messages@, k) implies k == i by {
                if k < i {
                    assert(prepare_header_of(messages@[k]) is None);
                } else if k > i {
                    assert(prepare_header_of(messages@[i as int]) is None);
                }
            }
        }
        if decision_node.decision_header != decision_header {
            return Err(ProofFromStorageError::MissMatchingDecisionHeader);
        }
        Ok(Proof { decision_node, qcs, messages })
    }

    /// A copy of the proof, with the same node header, certificates and as
    /// many messages.
    pub fn duplicate(&self) -> (p: Proof<D>)
        requires
            self.wf(),
        ensures
            p.wf(),
            p.spec_decision_node().decision_header == self.spec_decision_node().decision_header,
            p.spec_qcs() == self.spec_qcs(),
            p.spec_messages().len() == self.spec_messages().len(),
            forall|i: int| 0 <= i < p.spec_messages().len() ==> copied_command(
                #[trigger] self.spec_messages()[i],
                p.spec_messages()[i],
            ),
            p.spec_decision_node().client_commands.len() == self.spec_decision_node().client_commands.len(),
            forall|i: int| 0 <= i < p.spec_decision_node().client_commands.len() ==> copied_command(
                #[trigger] self.spec_decision_node().client_commands@[i],
                p.spec_decision_node().client_commands@[i],
            ),
    {
        let mut qcs: Vec<QC> = Vec::new();
        let mut i: usize = 0;
        while i < self.qcs.len()
            invariant
                0 <= i <= self.qcs.len(),
                qcs@.len() == i,
                forall|j: int| 0 <= j < i ==> (#[trigger] qcs@[j])@ == self.qcs@[j]@,
            decreases self.qcs.len() - i,
        {
            qcs.push(self.qcs[i].duplicate());
            i = i + 1;
        }
        let mut messages: Vec<StoredMessage<HotFeOxMsg<D>>> = Vec::new();
        let mut k: usize = 0;
        while k < self.messages.len()
            invariant
                0 <= k <= self.messages.len(),
                messages@.len() == k,
                forall|j: int| 0 <= j < k ==> copied_command(#[trigger] self.messages@[j], messages@[j]),
            decreases self.messages.len() - k,
        {
            messages.push(self.messages[k].duplicate());
            k = k + 1;
        }
        let p = Proof { decision_node: self.decision_node.duplicate(), qcs, messages };
        proof {
            assert forall|a: int, b: int|
                0 <= a < p.qcs@.len() && 0 <= b < p.qcs@.len() && a != b implies (#[trigger] p.qcs@[a]).qc_type
                    != (#[trigger] p.qcs@[b]).qc_type by {
                assert(self.qcs@[a].qc_type != self.qcs@[b].qc_type);
            }
            assert(qc_map_distinct(p.qcs@) =~= qc_map_distinct(self.qcs@)) by {
                assert forall|t: QCType| #[trigger] qc_map_distinct(p.qcs@).dom().contains(t) <==> qc_map_distinct(
                    self.qcs@,
                ).dom().contains(t) by {
                    if qc_map_distinct(p.qcs@).dom().contains(t) {
                        let a = choose|a: int| 0 <= a < p.qcs@.len() && (#[trigger] p.qcs@[a]).qc_type == t;
                        assert(self.qcs@[a].qc_type == t);
                    }
                    if qc_map_distinct(self.qcs@).dom().contains(t) {
                        let a = choose|a: int| 0 <= a < self.qcs@.len() && (#[trigger] self.qcs@[a]).qc_type == t;
                        assert(p.qcs@[a].qc_type == t);
                    }
                }
                assert forall|t: QCType| #[trigger] qc_map_distinct(p.qcs@).dom().contains(t) implies qc_map_distinct(
                    p.qcs@,
                )[t] == qc_map_distinct(self.qcs@)[t] by {
                    let a = choose|a: int| 0 <= a < p.qcs@.len() && (#[trigger] p.qcs@[a]).qc_type == t;
                    let b = choose|b: int| 0 <= b < self.qcs@.len() && (#[trigger] self.qcs@[b]).qc_type == t;
                    assert(self.qcs@[a].qc_type == t);
                    if a != b {
                        assert(self.qcs@[a].qc_type != self.qcs@[b].qc_type);
                    }
                }
            }
        }
        p
    }
}

} // verus!
