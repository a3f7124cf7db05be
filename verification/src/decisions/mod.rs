//! Basic (non chained) HotStuff: quorum certificates, the safety rule of a
//! replica, the vote logs, the message queues and the per decision state machine.
pub mod decision;
pub mod hotstuff;
pub mod log;
pub mod msg_queue;
pub mod req_aggr;
pub mod decision_proof;

use crate::decision_tree::{spec_extends_from, DecisionNode, DecisionNodeHeader};
use crate::ordering::{CombinedSignature, SeqNo};
use crate::vote_table::VoteKey;
use vstd::prelude::*;

verus! {

/// The phase whose votes a quorum certificate gathers.
#[derive(Clone, Copy, Debug, PartialEq, Eq, Structural, Hash)]
pub enum QCType {
    PrepareVote,
    PreCommitVote,
    CommitVote,
}

/// A quorum certificate.
#[derive(Clone, Debug)]
pub struct QC {
    pub qc_type: QCType,
    pub view_seq: SeqNo,
    pub decision_node: DecisionNodeHeader,
    /// The combined signature of the quorum which voted for this QC
    pub signature: CombinedSignature,
}

/// What a quorum certificate states.
pub struct QCView {
    pub qc_type: QCType,
    pub view_seq: SeqNo,
    pub decision_node: DecisionNodeHeader,
    pub signature: Seq<u8>,
}

impl View for QC {
    type V = QCView;

    open spec fn view(&self) -> QCView {
        QCView {
            qc_type: self.qc_type,
            view_seq: self.view_seq,
            decision_node: self.decision_node,
            signature: self.signature@,
        }
    }
}

/// The view of an optional certificate.
pub open spec fn opt_qc_view(q: Option<QC>) -> Option<QCView> {
    match q {
        Some(qc) => Some(qc@),
        None => None,
    }
}

impl QC {
    #[must_use]
    pub fn new(
        qc_type: QCType,
        view_seq: SeqNo,
        decision_node: DecisionNodeHeader,
        signature: CombinedSignature,
    ) -> (qc: QC)
        ensures
            qc.qc_type == qc_type,
            qc.view_seq == view_seq,
            qc.decision_node == decision_node,
            qc.signature@ == signature@,
    {
        QC { qc_type, view_seq, decision_node, signature }
    }

    pub fn qc_type(&self) -> (t: QCType)
        ensures
            t == self.qc_type,
    {
        self.qc_type
    }

    pub fn view_seq(&self) -> (s: SeqNo)
        ensures
            s == self.view_seq,
    {
        self.view_seq
    }

    pub fn sequence_number(&self) -> (s: SeqNo)
        ensures
            s == self.view_seq,
    {
        self.view_seq
    }

    pub fn decision_node(&self) -> (h: DecisionNodeHeader)
        ensures
            h == self.decision_node,
    {
        self.decision_node
    }

    pub fn signature(&self) -> (s: &CombinedSignature)
        ensures
            s@ == self.signature@,
    {
        &self.signature
    }

    pub fn duplicate(&self) -> (qc: QC)
        ensures
            qc@ == self@,
    {
        QC {
            qc_type: self.qc_type,
            view_seq: self.view_seq,
            decision_node: self.decision_node,
            signature: self.signature.duplicate(),
        }
    }

    pub fn equals(&self, other: &QC) -> (r: bool)
        ensures
            r == (self@ == other@),
    {
        self.qc_type == other.qc_type && self.view_seq == other.view_seq && self.decision_node
            == other.decision_node && self.signature.equals(&other.signature)
    }
}

pub fn duplicate_opt_qc(q: &Option<QC>) -> (r: Option<QC>)
    ensures
        opt_qc_view(r) == opt_qc_view(*q),
{
    match q {
        Some(qc) => Some(qc.duplicate()),
        None => None,
    }
}

pub fn opt_qc_equals(a: &Option<QC>, b: &Option<QC>) -> (r: bool)
    ensures
        r == (opt_qc_view(*a) == opt_qc_view(*b)),
{
    match (a, b) {
        (Some(x), Some(y)) => x.equals(y),
        (None, None) => true,
        _ => false,
    }
}

/// The rank of an optional certificate: no certificate ranks lowest, then
/// certificates rank by their view.
pub open spec fn opt_qc_rank(q: Option<QCView>) -> nat {
    match q {
        Some(qc) => qc.view_seq.0 as nat + 1,
        None => 0,
    }
}

impl VoteKey for Option<QC> {
    type V = Option<QCView>;

    open spec fn key_view(&self) -> Option<QCView> {
        opt_qc_view(*self)
    }

    open spec fn view_rank(v: Option<QCView>) -> nat {
        opt_qc_rank(v)
    }

    fn key_eq(&self, other: &Self) -> (r: bool) {
        opt_qc_equals(self, other)
    }

    fn key_clone(&self) -> (r: Self) {
        duplicate_opt_qc(self)
    }

    fn rank(&self) -> (r: u64) {
        match self {
            Some(qc) => qc.view_seq.0 as u64 + 1,
            None => 0,
        }
    }
}

/// Marker of the decision tree of the basic protocol.
pub struct DecisionTree {}

/// The certificates a replica has learned across decisions: the latest decided
/// one, the latest prepared one and the latest locked one.
#[derive(Debug)]
pub struct DecisionHandler {
    pub latest_qc: Option<QC>,
    pub latest_prepare_qc: Option<QC>,
    pub latest_locked_qc: Option<QC>,
}

/// The safety rule: a proposed node, justified by `qc`, may be voted for when it
/// extends the block of the latest certificate and the justification is newer
/// than it; a root node may be voted for only before any certificate is known.
pub open spec fn safe_node_rule(
    node: DecisionNodeHeader,
    qc: QCView,
    latest: Option<QCView>,
) -> bool {
    match (node.previous_block, latest) {
        (Some(prev), Some(latest_qc)) => prev == latest_qc.decision_node.current_block_digest
            && qc.view_seq.0 > latest_qc.view_seq.0,
        (None, None) => true,
        _ => false,
    }
}

impl DecisionHandler {
    pub fn new() -> (h: DecisionHandler)
        ensures
            h.latest_qc is None,
            h.latest_prepare_qc is None,
            h.latest_locked_qc is None,
    {
        DecisionHandler { latest_qc: None, latest_prepare_qc: None, latest_locked_qc: None }
    }

    /// A handler that knows no certificate yet.
    pub open spec fn new_spec() -> DecisionHandler {
        DecisionHandler { latest_qc: None, latest_prepare_qc: None, latest_locked_qc: None }
    }

    pub fn safe_node<D>(&self, node: &DecisionNode<D>, qc: &QC) -> (b: bool)
        ensures
            b == safe_node_rule(node.decision_header, qc@, opt_qc_view(self.latest_qc)),
    {
        match (node.decision_header.previous_block, &self.latest_qc) {
            (Some(prev), Some(latest_qc)) => prev == latest_qc.decision_node.current_block_digest
                && qc.view_seq.0 > latest_qc.view_seq.0,
            (None, None) => true,
            _ => false,
        }
    }

    pub fn latest_qc(&self) -> (q: Option<QC>)
        ensures
            opt_qc_view(q) == opt_qc_view(self.latest_qc),
    {
        duplicate_opt_qc(&self.latest_qc)
    }

    pub fn latest_prepare_qc(&self) -> (q: &Option<QC>)
        ensures
            *q == self.latest_prepare_qc,
    {
        &self.latest_prepare_qc
    }

    pub fn latest_locked_qc(&self) -> (q: &Option<QC>)
        ensures
            *q == self.latest_locked_qc,
    {
        &self.latest_locked_qc
    }

    pub fn install_latest_qc(&mut self, qc: QC)
        ensures
            opt_qc_view(final(self).latest_qc) == Some(qc@),
            final(self).latest_prepare_qc == old(self).latest_prepare_qc,
            final(self).latest_locked_qc == old(self).latest_locked_qc,
    {
        self.latest_qc = Some(qc);
    }

    pub fn install_latest_prepare_qc(&mut self, qc: QC)
        ensures
            opt_qc_view(final(self).latest_prepare_qc) == Some(qc@),
            final(self).latest_qc == old(self).latest_qc,
            final(self).latest_locked_qc == old(self).latest_locked_qc,
    {
        self.latest_prepare_qc = Some(qc);
    }

    pub fn install_latest_locked_qc(&mut self, qc: QC)
        ensures
            opt_qc_view(final(self).latest_locked_qc) == Some(qc@),
            final(self).latest_qc == old(self).latest_qc,
            final(self).latest_prepare_qc == old(self).latest_prepare_qc,
    {
        self.latest_locked_qc = Some(qc);
    }
}

/// A node that the safety rule accepts extends the block of the latest
/// certificate (a root node is accepted only while no certificate is known),
/// and its justification is newer than that certificate.
pub proof fn lemma_safe_node_extends_latest(
    node: DecisionNodeHeader,
    qc: QCView,
    latest: Option<QCView>,
)
    requires
        safe_node_rule(node, qc, latest),
    ensures
        latest matches Some(l) ==> spec_extends_from(node.previous_block, l.decision_node)
            && node.previous_block is Some && qc.view_seq.0 > l.view_seq.0,
        latest is None ==> node.previous_block is None,
{
}

} // verus!
