//! The messages of the chained protocol: proposals, votes and new view messages.
use crate::chained::chained_decision_tree::ChainedDecisionNode;
use crate::chained::{duplicate_opt_chained, opt_chained_view, ChainedQC, ChainedQCView};
use crate::decision_tree::DecisionNodeHeader;
use crate::ordering::{PartialSignature, SeqNo};
use crate::vote_table::VoteKey;
use vstd::prelude::*;

pub mod serialize;
use vstd::view::View as _;

verus! {

#[derive(Clone, Debug)]
pub struct IronChainMessage<D> {
    pub seq_no: SeqNo,
    pub message: IronChainMessageType<D>,
}

#[derive(Clone, Debug)]
pub enum IronChainMessageType<D> {
    Proposal(ProposalMessage<D>),
    Vote(VoteMessage),
    NewView(NewViewMessage),
}

#[derive(Clone, Debug)]
pub struct VoteMessage {
    pub vote_details: VoteDetails,
    pub signature: PartialSignature,
}

/// What a vote is cast for: a node and the certificate that justified it.
#[derive(Clone, Debug)]
pub struct VoteDetails {
    pub node: DecisionNodeHeader,
    pub justify: Option<ChainedQC>,
}

/// The view of the details of a vote.
pub struct VoteDetailsView {
    pub node: DecisionNodeHeader,
    pub justify: Option<ChainedQCView>,
}

impl View for VoteDetails {
    type V = VoteDetailsView;

    open spec fn view(&self) -> VoteDetailsView {
        VoteDetailsView { node: self.node, justify: opt_chained_view(self.justify) }
    }
}

/// The rank of vote details: the sequence number of the certificate that
/// justified the node, zero without one.
pub open spec fn justify_rank(v: VoteDetailsView) -> nat {
    match v.justify {
        Some(q) => q.seq_no.0 as nat,
        None => 0,
    }
}

/// Represents a new view message in the IronChain protocol.
///
/// The signature should be of the sequence number of the view that this message is for.
/// As well as the (optional) QC that this view is based on.
///
/// This message is sent to the leader of the view to force a new view to be created in cases
/// of timeouts or bootstrap.
#[derive(Clone, Debug)]
pub struct NewViewMessage {
    pub qc: Option<ChainedQC>,
    pub signature: PartialSignature,
}

#[derive(Clone, Debug)]
pub struct ProposalMessage<D> {
    pub proposal: ChainedDecisionNode<D>,
}

impl<D> IronChainMessage<D> {
    pub fn new(seq_no: SeqNo, message: IronChainMessageType<D>) -> (m: IronChainMessage<D>)
        ensures
            m.seq_no == seq_no,
            m.message == message,
    {
        IronChainMessage { seq_no, message }
    }

    pub fn sequence_number(&self) -> (s: SeqNo)
        ensures
            s == self.seq_no,
    {
        self.seq_no
    }

    pub fn message(&self) -> (m: &IronChainMessageType<D>)
        ensures
            *m == self.message,
    {
        &self.message
    }

    pub fn into_parts(self) -> (r: (SeqNo, IronChainMessageType<D>))
        ensures
            r.0 == self.seq_no,
            r.1 == self.message,
    {
        (self.seq_no, self.message)
    }
}

impl VoteMessage {
    pub fn new(vote_details: VoteDetails, signature: PartialSignature) -> (m: VoteMessage)
        ensures
            m.vote_details == vote_details,
            m.signature == signature,
    {
        VoteMessage { vote_details, signature }
    }

    pub fn vote_details(&self) -> (d: &VoteDetails)
        ensures
            *d == self.vote_details,
    {
        &self.vote_details
    }

    pub fn signature(&self) -> (s: &PartialSignature)
        ensures
            *s == self.signature,
    {
        &self.signature
    }
}

impl VoteDetails {
    pub fn new(node: DecisionNodeHeader, justify: Option<ChainedQC>) -> (d: VoteDetails)
        ensures
            d.node == node,
            d.justify == justify,
    {
        VoteDetails { node, justify }
    }

    pub fn node(&self) -> (n: &DecisionNodeHeader)
        ensures
            *n == self.node,
    {
        &self.node
    }

    pub fn justify(&self) -> (j: &Option<ChainedQC>)
        ensures
            *j == self.justify,
    {
        &self.justify
    }

    pub fn sequence_number(&self) -> (s: SeqNo)
        ensures
            s == self.node.view_no,
    {
        self.node.view_no
    }

    pub fn duplicate(&self) -> (d: VoteDetails)
        ensures
            d@ == self@,
    {
        VoteDetails { node: self.node, justify: duplicate_opt_chained(&self.justify) }
    }
}

impl VoteKey for VoteDetails {
    type V = VoteDetailsView;

    open spec fn key_view(&self) -> VoteDetailsView {
        self@
    }

    open spec fn view_rank(v: VoteDetailsView) -> nat {
        justify_rank(v)
    }

    fn key_eq(&self, other: &Self) -> (r: bool) {
        if self.node != other.node {
            return false;
        }
        match (&self.justify, &other.justify) {
            (Some(a), Some(b)) => a.equals(b),
            (None, None) => true,
            _ => false,
        }
    }

    fn key_clone(&self) -> (r: Self) {
        self.duplicate()
    }

    fn rank(&self) -> (r: u64) {
        match &self.justify {
            Some(q) => q.seq_no.0 as u64,
            None => 0,
        }
    }
}

impl NewViewMessage {
    pub fn from_previous_qc(qc: ChainedQC, signature: PartialSignature) -> (m: NewViewMessage)
        ensures
            m.qc == Some(qc),
            m.signature == signature,
    {
        NewViewMessage { qc: Some(qc), signature }
    }

    pub fn from_empty(signature: PartialSignature) -> (m: NewViewMessage)
        ensures
            m.qc is None,
            m.signature == signature,
    {
        NewViewMessage { qc: None, signature }
    }

    pub fn into_parts(self) -> (r: (Option<ChainedQC>, PartialSignature))
        ensures
            r.0 == self.qc,
            r.1 == self.signature,
    {
        (self.qc, self.signature)
    }
}

impl<D> ProposalMessage<D> {
    pub fn new(proposal: ChainedDecisionNode<D>) -> (m: ProposalMessage<D>)
        ensures
            m.proposal == proposal,
    {
        ProposalMessage { proposal }
    }

    pub fn proposal(&self) -> (p: &ChainedDecisionNode<D>)
        ensures
            *p == self.proposal,
    {
        &self.proposal
    }

    pub fn into_parts(self) -> (p: ChainedDecisionNode<D>)
        ensures
            p == self.proposal,
    {
        self.proposal
    }

    pub fn sequence_number(&self) -> (s: SeqNo)
        ensures
            s == self.proposal.decision_node.decision_header.view_no,
    {
        self.proposal.decision_node.decision_header.view_no
    }
}

} // verus!
