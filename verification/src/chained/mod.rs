//! Chained HotStuff: every proposal carries the certificate of the previous
//! one, and a decision completes once a chain of three certificates forms on it.
pub mod chained_decision_tree;
pub mod decision;
pub mod log;
pub mod loggable;
pub mod msg_queue;
pub mod chained_proof;
pub mod protocol;
pub mod metrics;
pub mod messages;

use crate::decision_tree::DecisionNodeHeader;
use crate::ordering::{CombinedSignature, SeqNo};
use crate::vote_table::VoteKey;
use vstd::prelude::*;

verus! {

/// In chained hotstuff, there is only one QC type,
/// generic which will be used for all the steps of the protocol
#[derive(Clone, Debug)]
pub struct ChainedQC {
    /// The sequence number of the QC
    pub seq_no: SeqNo,
    pub decision_node: DecisionNodeHeader,
    pub signature: CombinedSignature,
}

/// What a chained certificate states.
pub struct ChainedQCView {
    pub seq_no: SeqNo,
    pub decision_node: DecisionNodeHeader,
    pub signature: Seq<u8>,
}

impl View for ChainedQC {
    type V = ChainedQCView;

    open spec fn view(&self) -> ChainedQCView {
        ChainedQCView { seq_no: self.seq_no, decision_node: self.decision_node, signature: self.signature@ }
    }
}

/// The view of an optional chained certificate.
pub open spec fn opt_chained_view(q: Option<ChainedQC>) -> Option<ChainedQCView> {
    match q {
        Some(qc) => Some(qc@),
        None => None,
    }
}

/// The sequence number a certificate is ranked by; no certificate ranks lowest.
pub open spec fn chained_rank(q: Option<ChainedQCView>) -> nat {
    match q {
        Some(qc) => qc.seq_no.0 as nat + 1,
        None => 0,
    }
}

impl ChainedQC {
    pub fn new(seq_no: SeqNo, decision_node: DecisionNodeHeader, signature: CombinedSignature) -> (qc: ChainedQC)
        ensures
            qc.seq_no == seq_no,
            qc.decision_node == decision_node,
            qc.signature@ == signature@,
    {
        ChainedQC { seq_no, decision_node, signature }
    }

    pub fn sequence_number(&self) -> (s: SeqNo)
        ensures
            s == self.seq_no,
    {
        self.seq_no
    }

    pub fn decision_node(&self) -> (h: &DecisionNodeHeader)
        ensures
            *h == self.decision_node,
    {
        &self.decision_node
    }

    pub fn signature(&self) -> (s: &CombinedSignature)
        ensures
            *s == self.signature,
    {
        &self.signature
    }

    pub fn duplicate(&self) -> (qc: ChainedQC)
        ensures
            qc@ == self@,
    {
        ChainedQC { seq_no: self.seq_no, decision_node: self.decision_node, signature: self.signature.duplicate() }
    }

    pub fn equals(&self, other: &ChainedQC) -> (r: bool)
        ensures
            r == (self@ == other@),
    {
        self.seq_no == other.seq_no && self.decision_node == other.decision_node
            && self.signature.equals(&other.signature)
    }
}

/// A copy of an optional certificate.
pub fn duplicate_opt_chained(q: &Option<ChainedQC>) -> (r: Option<ChainedQC>)
    ensures
        opt_chained_view(r) == opt_chained_view(*q),
{
    match q {
        Some(qc) => Some(qc.duplicate()),
        None => None,
    }
}

impl VoteKey for Option<ChainedQC> {
    type V = Option<ChainedQCView>;

    open spec fn key_view(&self) -> Option<ChainedQCView> {
        opt_chained_view(*self)
    }

    open spec fn view_rank(v: Option<ChainedQCView>) -> nat {
        chained_rank(v)
    }

    fn key_eq(&self, other: &Self) -> (r: bool) {
        match (self, other) {
            (Some(a), Some(b)) => a.equals(b),
            (None, None) => true,
            _ => false,
        }
    }

    fn key_clone(&self) -> (r: Self) {
        duplicate_opt_chained(self)
    }

    fn rank(&self) -> (r: u64) {
        match self {
            Some(qc) => qc.seq_no.0 as u64 + 1,
            None => 0,
        }
    }
}

/// The safety rule of a chained replica: with no locked certificate every
/// node is safe; otherwise a node is safe when it extends the locked node
/// (its previous block is the locked block), or when its justification is
/// newer than the lock.
pub open spec fn chained_safe_node_rule(
    node: DecisionNodeHeader,
    qc: ChainedQCView,
    locked: Option<ChainedQCView>,
) -> bool {
    match locked {
        None => true,
        Some(l) => node.previous_block == Some(l.decision_node.current_block_digest) || qc.seq_no.0
            > l.seq_no.0,
    }
}

/// The certificates a chained replica has learned across decisions.
#[derive(Debug)]
pub struct ChainedDecisionHandler {
    pub latest_prepare_qc: Option<ChainedQC>,
    pub latest_locked_qc: Option<ChainedQC>,
}

impl ChainedDecisionHandler {
    pub fn new() -> (h: ChainedDecisionHandler)
        ensures
            h.latest_prepare_qc is None,
            h.latest_locked_qc is None,
    {
        ChainedDecisionHandler { latest_prepare_qc: None, latest_locked_qc: None }
    }

    pub fn latest_locked_qc_ref(&self) -> (q: &Option<ChainedQC>)
        ensures
            *q == self.latest_locked_qc,
    {
        &self.latest_locked_qc
    }

    pub fn latest_prepare_qc_ref(&self) -> (q: &Option<ChainedQC>)
        ensures
            *q == self.latest_prepare_qc,
    {
        &self.latest_prepare_qc
    }

    pub fn install_latest_prepare_qc(&mut self, qc: ChainedQC)
        ensures
            opt_chained_view(final(self).latest_prepare_qc) == Some(qc@),
            final(self).latest_locked_qc == old(self).latest_locked_qc,
    {
        self.latest_prepare_qc = Some(qc);
    }

    pub fn install_latest_locked_qc(&mut self, qc: ChainedQC)
        ensures
            opt_chained_view(final(self).latest_locked_qc) == Some(qc@),
            final(self).latest_prepare_qc == old(self).latest_prepare_qc,
    {
        self.latest_locked_qc = Some(qc);
    }

    /// Whether a proposed node, justified by `qc`, may be voted for.
    pub fn safe_node(&self, node: &DecisionNodeHeader, qc: &ChainedQC) -> (b: bool)
        ensures
            b == chained_safe_node_rule(*node, qc@, opt_chained_view(self.latest_locked_qc)),
    {
        match &self.latest_locked_qc {
            None => true,
            Some(l) => node.previous_block == Some(l.decision_node.current_block_digest)
                || qc.seq_no.0 > l.seq_no.0,
        }
    }
}

/// A node that the chained safety rule rejects is neither a child of the
/// locked node nor justified by a certificate newer than the lock.
pub proof fn lemma_unsafe_node_is_stale(
    node: DecisionNodeHeader,
    qc: ChainedQCView,
    locked: ChainedQCView,
)
    requires
        !chained_safe_node_rule(node, qc, Some(locked)),
    ensures
        node.previous_block != Some(locked.decision_node.current_block_digest),
        qc.seq_no.0 <= locked.seq_no.0,
{
}

} // verus!
