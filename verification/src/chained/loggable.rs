//! Persisting chained decisions: the kinds of messages logged, and the proof
//! of a decision rebuilt from what the log kept of it.
use crate::chained::chained_decision_tree::ChainedDecisionNode;
use crate::chained::chained_proof::{distinct_slots, lemma_slot_at, slot_map, ChainedProof, ProofQCType};
use crate::chained::messages::{IronChainMessage, IronChainMessageType};
use crate::chained::{opt_chained_view, ChainedQC, ChainedQCView};
use crate::decision_tree::{node_copied, DecisionNodeHeader, ProtocolConsensusDecision, rq_infos_of, SessionBased, StoredMessage};
use crate::ordering::{spec_seq_index, SeqNo};
use vstd::prelude::*;
use vstd::view::View as _;

verus! {

pub const VOTE_GENERIC: &'static str = "VOTE-GENERIC";

pub const PROPOSAL_GENERIC: &'static str = "PROPOSAL-GENERIC";

pub const NEW_VIEW_GENERIC: &'static str = "NEW-VIEW-GENERIC";

#[derive(Debug)]
pub enum IronChainComposeError {
    NoProposalMessageFound,
    DecisionNodeDoesNotMatchHeader { expected: Box<DecisionNodeHeader>, found: Box<DecisionNodeHeader> },
    QCDecisionNodeDoesNotMatchHeader,
    DecisionNodeDoesNotMatchSequenceNumber { expected: SeqNo, found: SeqNo },
    QCOlderThanDecision { found: SeqNo, decision_seq: SeqNo },
    QCNewerThanDecision { found: SeqNo, decision_seq: SeqNo },
}

/// The kinds of messages the log keeps.
pub fn message_types() -> (v: Vec<&'static str>)
    ensures
        v@ == seq![VOTE_GENERIC, PROPOSAL_GENERIC, NEW_VIEW_GENERIC],
{
    let mut v: Vec<&'static str> = Vec::new();
    v.push(VOTE_GENERIC);
    v.push(PROPOSAL_GENERIC);
    v.push(NEW_VIEW_GENERIC);
    assert(v@ =~= seq![VOTE_GENERIC, PROPOSAL_GENERIC, NEW_VIEW_GENERIC]);
    v
}

/// The kind of a message, by what it carries.
pub fn get_type_for_message<D>(msg: &IronChainMessage<D>) -> (t: &'static str)
    ensures
        t == match msg.message {
            IronChainMessageType::Proposal(_) => PROPOSAL_GENERIC,
            IronChainMessageType::Vote(_) => VOTE_GENERIC,
            IronChainMessageType::NewView(_) => NEW_VIEW_GENERIC,
        },
{
    match &msg.message {
        IronChainMessageType::Proposal(_) => PROPOSAL_GENERIC,
        IronChainMessageType::Vote(_) => VOTE_GENERIC,
        IronChainMessageType::NewView(_) => NEW_VIEW_GENERIC,
    }
}

/// `i` is the position of the first proposal among `msgs`.
pub open spec fn first_proposal_at<D>(msgs: Seq<StoredMessage<IronChainMessage<D>>>, i: int) -> bool {
    &&& 0 <= i < msgs.len()
    &&& msgs[i].message.message is Proposal
    &&& forall|j: int| 0 <= j < i ==> !((#[trigger] msgs[j]).message.message is Proposal)
}

/// The node a proposal message carries.
pub open spec fn proposed_node<D>(m: StoredMessage<IronChainMessage<D>>) -> ChainedDecisionNode<D> {
    m.message.message->Proposal_0.proposal
}

/// The phase a certificate completes for the decision with header
/// `decision`: the certificate of the decision's own view and of the three
/// views after it; any other certificate is refused.
pub open spec fn qc_slot(qc: ChainedQCView, decision: DecisionNodeHeader) -> Result<ProofQCType, IronChainComposeError> {
    if qc.decision_node != decision {
        Err(IronChainComposeError::QCDecisionNodeDoesNotMatchHeader)
    } else {
        match spec_seq_index(qc.seq_no, decision.view_no) {
            Ok(i) => if i == 0 {
                Ok(ProofQCType::PrePrepare)
            } else if i == 1 {
                Ok(ProofQCType::Prepare)
            } else if i == 2 {
                Ok(ProofQCType::Commit)
            } else if i == 3 {
                Ok(ProofQCType::Decide)
            } else {
                Err(IronChainComposeError::QCNewerThanDecision { found: qc.seq_no, decision_seq: decision.view_no })
            },
            Err(_) => Err(IronChainComposeError::QCOlderThanDecision { found: qc.seq_no, decision_seq: decision.view_no }),
        }
    }
}

/// The certificates by phase; of two for the same phase the later one counts.
pub open spec fn indexed_qcs(qcs: Seq<ChainedQC>, decision: DecisionNodeHeader) -> Map<ProofQCType, ChainedQCView>
    decreases qcs.len(),
{
    if qcs.len() == 0 {
        Map::empty()
    } else {
        indexed_qcs(qcs.drop_last(), decision).insert(qc_slot(qcs.last()@, decision)->Ok_0, qcs.last()@)
    }
}

/// A certificate for the decision's node formed in the decision's own view,
/// or one, two or three views after it, completes the pre-prepare, prepare,
/// commit or decide phase of the decision, in that order.
pub proof fn lemma_slot_by_view_distance(qc: ChainedQCView, decision: DecisionNodeHeader)
    requires
        qc.decision_node == decision,
        decision.view_no.0 <= qc.seq_no.0 <= decision.view_no.0 + 3,
    ensures
        qc_slot(qc, decision) == Ok::<ProofQCType, IronChainComposeError>(
            seq![ProofQCType::PrePrepare, ProofQCType::Prepare, ProofQCType::Commit, ProofQCType::Decide][qc.seq_no.0
                - decision.view_no.0],
        ),
{
}

/// In the certificates of a decision indexed by phase, the phase at the
/// distance of a certificate's view from the decision's view (pre-prepare,
/// prepare, commit, decide) holds that certificate, unless a later one of the
/// same view replaced it.
pub proof fn lemma_indexed_by_view_distance(qcs: Seq<ChainedQC>, decision: DecisionNodeHeader, k: int)
    requires
        0 <= k < qcs.len(),
        forall|i: int| 0 <= i < qcs.len() ==> (#[trigger] qcs[i]@).decision_node == decision
            && decision.view_no.0 <= qcs[i]@.seq_no.0 <= decision.view_no.0 + 3,
        forall|j: int| k < j < qcs.len() ==> (#[trigger] qcs[j]@).seq_no != qcs[k]@.seq_no,
    ensures
        ({
            let t = seq![ProofQCType::PrePrepare, ProofQCType::Prepare, ProofQCType::Commit, ProofQCType::Decide][qcs[k]@.seq_no.0
                - decision.view_no.0];
            indexed_qcs(qcs, decision).dom().contains(t) && indexed_qcs(qcs, decision)[t] == qcs[k]@
        }),
    decreases qcs.len(),
{
    let table = seq![ProofQCType::PrePrepare, ProofQCType::Prepare, ProofQCType::Commit, ProofQCType::Decide];
    let last = qcs.len() - 1;
    assert(qcs.last() == qcs[last]);
    lemma_slot_by_view_distance(qcs[last]@, decision);
    if k == last {
    } else {
        let rest = qcs.drop_last();
        assert forall|i: int| 0 <= i < rest.len() implies (#[trigger] rest[i]@).decision_node == decision
            && decision.view_no.0 <= rest[i]@.seq_no.0 <= decision.view_no.0 + 3 by {
            assert(rest[i] == qcs[i]);
        }
        assert forall|j: int| k < j < rest.len() implies (#[trigger] rest[j]@).seq_no != rest[k]@.seq_no by {
            assert(rest[j] == qcs[j]);
            assert(qcs[j]@.seq_no != qcs[k]@.seq_no);
        }
        assert(rest[k] == qcs[k]);
        lemma_indexed_by_view_distance(rest, decision, k);
        assert(qcs[last]@.seq_no != qcs[k]@.seq_no);
        assert(table[qcs[last]@.seq_no.0 - decision.view_no.0] != table[qcs[k]@.seq_no.0 - decision.view_no.0]);
    }
}

/// Index the certificates of a decision by the phase each completes; the
/// first certificate that completes none is reported.
pub fn get_qcs_index_from_vec(qcs: Vec<ChainedQC>, decision: &DecisionNodeHeader) -> (r: Result<
    Vec<(ProofQCType, ChainedQC)>,
    IronChainComposeError,
>)
    ensures
        (forall|i: int| 0 <= i < qcs@.len() ==> (#[trigger] qc_slot(qcs@[i]@, *decision)) is Ok) ==> (r matches Ok(v)
            && distinct_slots(v@) && slot_map(v@) == indexed_qcs(qcs@, *decision)),
        forall|i: int|
            0 <= i < qcs@.len() && (#[trigger] qc_slot(qcs@[i]@, *decision)) is Err && (forall|j: int|
                0 <= j < i ==> (#[trigger] qc_slot(qcs@[j]@, *decision)) is Ok) ==> r == Err::<
                Vec<(ProofQCType, ChainedQC)>,
                IronChainComposeError,
            >(qc_slot(qcs@[i]@, *decision)->Err_0),
        r matches Ok(v) ==> forall|i: int| 0 <= i < v@.len() ==> {
            let q = (#[trigger] v@[i]).1@;
            &&& q.decision_node == *decision
            &&& decision.view_no.0 <= q.seq_no.0 <= decision.view_no.0 + 3
            &&& v@[i].0 == seq![
                ProofQCType::PrePrepare,
                ProofQCType::Prepare,
                ProofQCType::Commit,
                ProofQCType::Decide,
            ][q.seq_no.0 - decision.view_no.0]
        },
{
    let ghost input = qcs@;
    let decision_seq = decision.view_no;
    let mut out: Vec<(ProofQCType, ChainedQC)> = Vec::new();
    let mut n: usize = 0;
    proof {
        assert(slot_map(out@) =~= indexed_qcs(input.take(0), *decision));
    }
    while n < qcs.len()
        invariant
            0 <= n <= input.len(),
            qcs@ == input,
            forall|j: int| 0 <= j < n ==> (#[trigger] qc_slot(input[j]@, *decision)) is Ok,
            distinct_slots(out@),
            slot_map(out@) == indexed_qcs(input.take(n as int), *decision),
            decision_seq == decision.view_no,
            forall|i: int| 0 <= i < out@.len() ==> {
                let q = (#[trigger] out@[i]).1@;
                &&& q.decision_node == *decision
                &&& decision.view_no.0 <= q.seq_no.0 <= decision.view_no.0 + 3
                &&& out@[i].0 == seq![
                    ProofQCType::PrePrepare,
                    ProofQCType::Prepare,
                    ProofQCType::Commit,
                    ProofQCType::Decide,
                ][q.seq_no.0 - decision.view_no.0]
            },
        decreases input.len() - n,
    {
        let qc = qcs[n].duplicate();
        if qc.decision_node != *decision {
            return Err(IronChainComposeError::QCDecisionNodeDoesNotMatchHeader);
        }
        let slot = match qc.seq_no.index(decision_seq) {
            Ok(i) => if i == 0 {
                ProofQCType::PrePrepare
            } else if i == 1 {
                ProofQCType::Prepare
            } else if i == 2 {
                ProofQCType::Commit
            } else if i == 3 {
                ProofQCType::Decide
            } else {
                return Err(IronChainComposeError::QCNewerThanDecision { found: qc.seq_no, decision_seq });
            },
            Err(_) => {
                return Err(IronChainComposeError::QCOlderThanDecision { found: qc.seq_no, decision_seq });
            },
        };
        let ghost pre_out = out@;
        let ghost qv = qc@;
        proof {
            assert(qc_slot(input[n as int]@, *decision) == Ok::<ProofQCType, IronChainComposeError>(slot));
            assert(input.take(n + 1).drop_last() =~= input.take(n as int));
            assert(indexed_qcs(input.take(n + 1), *decision) == indexed_qcs(input.take(n as int), *decision).insert(slot, qv));
        }
        let mut k: usize = 0;
        let mut found = false;
        while k < out.len()
            invariant_except_break
                out@ == pre_out,
                0 <= k <= out.len(),
                !found,
                forall|j: int| 0 <= j < k ==> (#[trigger] out@[j]).0 != slot,
            ensures
                out@ == pre_out,
                found ==> k < out.len() && out@[k as int].0 == slot,
                !found ==> k == out.len() && forall|j: int| 0 <= j < out@.len() ==> (#[trigger] out@[j]).0 != slot,
            decreases out.len() - k,
        {
            if out[k].0 == slot {
                found = true;
                break;
            }
            k = k + 1;
        }
        if found {
            out.set(k, (slot, qc));
        } else {
            out.push((slot, qc));
        }
        let ghost pos: int = if found { k as int } else { pre_out.len() as int };
        proof {
            assert(out@[pos] == (slot, qc));
            assert(qv.decision_node == *decision);
            assert(decision.view_no.0 <= qv.seq_no.0 <= decision.view_no.0 + 3);
            assert(slot == seq![
                ProofQCType::PrePrepare,
                ProofQCType::Prepare,
                ProofQCType::Commit,
                ProofQCType::Decide,
            ][qv.seq_no.0 - decision.view_no.0]);
            assert forall|i: int| 0 <= i < out@.len() && i != pos implies out@[i] == pre_out[i] by {}
            assert forall|i: int, j: int|
                0 <= i < out@.len() && 0 <= j < out@.len() && i != j implies (#[trigger] out@[i]).0 != (#[trigger] out@[j]).0 by {
                if i != pos && j != pos {
                    assert(out@[i] == pre_out[i] && out@[j] == pre_out[j]);
                }
            }
            assert(slot_map(out@) =~= slot_map(pre_out).insert(slot, qv)) by {
                lemma_slot_at(out@, pos);
                assert forall|t: ProofQCType| #[trigger] slot_map(out@).dom().contains(t) <==> slot_map(pre_out).insert(slot, qv).dom().contains(t) by {
                    if t != slot {
                        if slot_map(out@).dom().contains(t) {
                            let i = choose|i: int| 0 <= i < out@.len() && (#[trigger] out@[i]).0 == t;
                            assert(i != pos);
                            assert(pre_out[i].0 == t);
                        }
                        if slot_map(pre_out).dom().contains(t) {
                            let i = choose|i: int| 0 <= i < pre_out.len() && (#[trigger] pre_out[i]).0 == t;
                            assert(i != pos);
                            assert(out@[i].0 == t);
                        }
                    }
                }
                assert forall|t: ProofQCType| #[trigger] slot_map(out@).dom().contains(t) implies slot_map(out@)[t]
                    == slot_map(pre_out).insert(slot, qv)[t] by {
                    if t != slot {
                        let i = choose|i: int| 0 <= i < out@.len() && (#[trigger] out@[i]).0 == t;
                        assert(i != pos);
                        assert(out@[i] == pre_out[i]);
                        lemma_slot_at(out@, i);
                        lemma_slot_at(pre_out, i);
                    }
                }
            }
        }
        n = n + 1;
    }
    proof {
        assert(input.take(n as int) =~= input);
    }
    Ok(out)
}

/// The node proposed for the decision with the given header, and the message
/// that proposed it: the first proposal among the messages, which must be of
/// the decision's view and for a node with that header.
pub fn get_decision_header<D: Clone>(
    decision_node_header: &DecisionNodeHeader,
    messages: Vec<StoredMessage<IronChainMessage<D>>>,
) -> (r: Result<(ChainedDecisionNode<D>, StoredMessage<IronChainMessage<D>>), IronChainComposeError>)
    ensures
        (forall|j: int| 0 <= j < messages@.len() ==> !((#[trigger] messages@[j]).message.message is Proposal))
            ==> r matches Err(IronChainComposeError::NoProposalMessageFound),
        forall|i: int| #[trigger] first_proposal_at(messages@, i) ==> {
            let m = messages@[i];
            let node = proposed_node(m);
            if m.message.seq_no != decision_node_header.view_no {
                r matches Err(IronChainComposeError::DecisionNodeDoesNotMatchSequenceNumber { expected, found })
                    && expected == decision_node_header.view_no && found == m.message.seq_no
            } else if node.decision_node.decision_header != *decision_node_header {
                r matches Err(IronChainComposeError::DecisionNodeDoesNotMatchHeader { expected, found })
                    && *expected == *decision_node_header && *found == node.decision_node.decision_header
            } else {
                r matches Ok((n, msg)) && msg == m && n.decision_node.decision_header == *decision_node_header
                    && node_copied(node.decision_node, n.decision_node) && opt_chained_view(n.justify)
                    == opt_chained_view(node.justify)
            }
        },
{
    let mut messages = messages;
    let ghost input = messages@;
    let mut i: usize = 0;
    while i < messages.len()
        invariant_except_break
            messages@ == input,
            0 <= i <= messages.len(),
            forall|j: int| 0 <= j < i ==> !((#[trigger] input[j]).message.message is Proposal),
        ensures
            messages@ == input,
            i < messages.len() ==> first_proposal_at(input, i as int),
            i >= messages.len() ==> forall|j: int| 0 <= j < input.len() ==> !((#[trigger] input[j]).message.message is Proposal),
        decreases messages.len() - i,
    {
        match &messages[i].message.message {
            IronChainMessageType::Proposal(_) => {
                break;
            },
            _ => {},
        }
        i = i + 1;
    }
    if i >= messages.len() {
        return Err(IronChainComposeError::NoProposalMessageFound);
    }
    proof {
        assert forall|k: int| #[trigger] first_proposal_at(input, k) implies k == i by {
            if k < i {
                assert(!(input[k].message.message is Proposal));
            } else if k > i {
                assert(!(input[i as int].message.message is Proposal));
            }
        }
    }
    let proposal_message = messages.remove(i);
    let seq_no = proposal_message.message.seq_no;
    if seq_no != decision_node_header.view_no {
        return Err(
            IronChainComposeError::DecisionNodeDoesNotMatchSequenceNumber {
                expected: decision_node_header.view_no,
                found: seq_no,
            },
        );
    }
    let decision_node = match &proposal_message.message.message {
        IronChainMessageType::Proposal(p) => p.proposal.duplicate(),
        _ => {
            return Err(IronChainComposeError::NoProposalMessageFound);
        },
    };
    if decision_node.decision_node.decision_header != *decision_node_header {
        return Err(
            IronChainComposeError::DecisionNodeDoesNotMatchHeader {
                expected: Box::new(*decision_node_header),
                found: Box::new(decision_node.decision_node.decision_header),
            },
        );
    }
    Ok((decision_node, proposal_message))
}

/// The proof of a decision rebuilt from the certificates and messages the log
/// kept of it.
pub fn init_proof_from<D: Clone>(
    decision_node_header: DecisionNodeHeader,
    qcs: Vec<ChainedQC>,
    messages: Vec<StoredMessage<IronChainMessage<D>>>,
) -> (r: Result<ChainedProof<D>, IronChainComposeError>)
    ensures
        (forall|j: int| 0 <= j < messages@.len() ==> !((#[trigger] messages@[j]).message.message is Proposal))
            ==> r matches Err(IronChainComposeError::NoProposalMessageFound),
        r matches Ok(p) ==> p.wf() && p.spec_decision_node().decision_node.decision_header == decision_node_header
            && (exists|i: int| #[trigger] first_proposal_at(messages@, i) && p.spec_proposal_message() == messages@[i]
            && node_copied(proposed_node(messages@[i]).decision_node, p.spec_decision_node().decision_node))
            && (forall|i: int| 0 <= i < qcs@.len() ==> (#[trigger] qc_slot(qcs@[i]@, decision_node_header)) is Ok)
            && p.spec_qcs() == indexed_qcs(qcs@, decision_node_header),
        (exists|i: int| #[trigger] first_proposal_at(messages@, i) && messages@[i].message.seq_no == decision_node_header.view_no
            && proposed_node(messages@[i]).decision_node.decision_header == decision_node_header)
            && (forall|i: int| 0 <= i < qcs@.len() ==> (#[trigger] qc_slot(qcs@[i]@, decision_node_header)) is Ok) ==> r is Ok,
{
    let ghost qv = qcs@;
    let ghost mv = messages@;
    let (decision_node, proposal_message) = match get_decision_header(&decision_node_header, messages) {
        Ok(found) => found,
        Err(e) => {
            return Err(e);
        },
    };
    let indexed = match get_qcs_index_from_vec(qcs, &decision_node_header) {
        Ok(v) => v,
        Err(e) => {
            proof {
                if forall|i: int| 0 <= i < qv.len() ==> (#[trigger] qc_slot(qv[i]@, decision_node_header)) is Ok {
                    assert(false);
                }
            }
            return Err(e);
        },
    };
    proof {
        if !(forall|i: int| 0 <= i < qv.len() ==> (#[trigger] qc_slot(qv[i]@, decision_node_header)) is Ok) {
            let bad = choose|i: int| 0 <= i < qv.len() && (#[trigger] qc_slot(qv[i]@, decision_node_header)) is Err;
            lemma_first_bad(qv, decision_node_header, bad);
            let f = choose|i: int| 0 <= i < qv.len() && (#[trigger] qc_slot(qv[i]@, decision_node_header)) is Err && (forall|j: int|
                0 <= j < i ==> (#[trigger] qc_slot(qv[j]@, decision_node_header)) is Ok);
            assert(false);
        }
        if !(exists|i: int| #[trigger] first_proposal_at(mv, i)) {
            assert forall|j: int| 0 <= j < mv.len() implies !((#[trigger] mv[j]).message.message is Proposal) by {
                if mv[j].message.message is Proposal {
                    lemma_first_proposal(mv, j);
                }
            }
            assert(false);
        }
    }
    Ok(ChainedProof::new(decision_node, proposal_message, indexed))
}

/// When some message is a proposal, there is a first one.
proof fn lemma_first_proposal<D>(msgs: Seq<StoredMessage<IronChainMessage<D>>>, k: int)
    requires
        0 <= k < msgs.len(),
        msgs[k].message.message is Proposal,
    ensures
        exists|i: int| #[trigger] first_proposal_at(msgs, i),
    decreases k,
{
    if exists|j: int| 0 <= j < k && (#[trigger] msgs[j]).message.message is Proposal {
        let j = choose|j: int| 0 <= j < k && (#[trigger] msgs[j]).message.message is Proposal;
        lemma_first_proposal(msgs, j);
    } else {
        assert(first_proposal_at(msgs, k));
    }
}

/// When some certificate completes no phase, there is a first such one.
proof fn lemma_first_bad(qcs: Seq<ChainedQC>, decision: DecisionNodeHeader, bad: int)
    requires
        0 <= bad < qcs.len(),
        qc_slot(qcs[bad]@, decision) is Err,
    ensures
        exists|i: int| 0 <= i < qcs.len() && (#[trigger] qc_slot(qcs[i]@, decision)) is Err && (forall|j: int|
            0 <= j < i ==> (#[trigger] qc_slot(qcs[j]@, decision)) is Ok),
    decreases bad,
{
    if exists|j: int| 0 <= j < bad && (#[trigger] qc_slot(qcs[j]@, decision)) is Err {
        let j = choose|j: int| 0 <= j < bad && (#[trigger] qc_slot(qcs[j]@, decision)) is Err;
        lemma_first_bad(qcs, decision, j);
    } else {
        assert(forall|j: int| 0 <= j < bad ==> (#[trigger] qc_slot(qcs[j]@, decision)) is Ok);
    }
}

/// `q` is the certificate of some phase in `m`.
pub open spec fn holds_qc(m: Map<ProofQCType, ChainedQCView>, q: ChainedQCView) -> bool {
    exists|t: ProofQCType| #[trigger] m.dom().contains(t) && m[t] == q
}

/// The parts of a proof: the header of its node, its certificates and the
/// message that proposed the node.
pub fn decompose_proof<D: Clone>(proof: &ChainedProof<D>) -> (r: (DecisionNodeHeader, Vec<ChainedQC>, Vec<StoredMessage<IronChainMessage<D>>>))
    requires
        proof.wf(),
    ensures
        r.0 == proof.spec_decision_node().decision_node.decision_header,
        r.1@.len() == proof.spec_qcs().dom().len(),
        forall|i: int| 0 <= i < r.1@.len() ==> holds_qc(proof.spec_qcs(), (#[trigger] r.1@[i])@),
        r.2@.len() == 1,
        r.2@[0].header == proof.spec_proposal_message().header,
{
    let header = proof.decision_node().decision_node.decision_header;
    let slots = proof.qcs();
    let mut qcs: Vec<ChainedQC> = Vec::new();
    let mut i: usize = 0;
    while i < slots.len()
        invariant
            0 <= i <= slots@.len(),
            distinct_slots(slots@),
            slot_map(slots@) == proof.spec_qcs(),
            qcs@.len() == i,
            forall|j: int| 0 <= j < i ==> holds_qc(proof.spec_qcs(), (#[trigger] qcs@[j])@),
        decreases slots.len() - i,
    {
        proof {
            lemma_slot_at(slots@, i as int);
        }
        let ghost pre_q = qcs@;
        qcs.push(slots[i].1.duplicate());
        proof {
            assert(holds_qc(proof.spec_qcs(), qcs@[i as int]@));
            assert forall|j: int| 0 <= j < i + 1 implies holds_qc(proof.spec_qcs(), (#[trigger] qcs@[j])@) by {
                if j < i {
                    assert(qcs@[j] == pre_q[j]);
                }
            }
        }
        i = i + 1;
    }
    proof {
        crate::chained::chained_proof::lemma_slot_map_len(slots@);
    }
    let mut messages: Vec<StoredMessage<IronChainMessage<D>>> = Vec::new();
    messages.push(proof.proposal_message().duplicate());
    (header, qcs, messages)
}

/// The decision a proof completes: the commands of its node, under the
/// node's sequence number and digest.
pub fn get_requests_in_proof<D: Clone + SessionBased>(proof: &ChainedProof<D>) -> (d: ProtocolConsensusDecision<D>)
    ensures
        d.client_rq_infos@ == rq_infos_of(d.client_commands@),
        d.seq == proof.spec_decision_node().decision_node.decision_header.view_no,
        d.batch_digest == proof.spec_decision_node().decision_node.decision_header.current_block_digest,
        d.client_commands@.len() == proof.spec_decision_node().decision_node.client_commands@.len(),
{
    let seq_no = proof.sequence_number();
    let node = proof.decision_node().duplicate();
    let digest = node.decision_node.decision_header.current_block_digest;
    let requests = node.into_decision_node().into_commands();
    ProtocolConsensusDecision::new(seq_no, requests, digest)
}

} // verus!
