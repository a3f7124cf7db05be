//! The messages of the basic protocol: the votes replicas send to the leader
//! and the proposals the leader broadcasts.
use crate::decision_tree::{DecisionNode, DecisionNodeHeader};
use crate::decisions::{duplicate_opt_qc, opt_qc_view, QCView, QC};
use crate::ordering::{PartialSignature, SeqNo};
use vstd::prelude::*;

pub mod serialize;

verus! {

#[derive(Clone, Debug)]
pub enum VoteType {
    NewView(Option<QC>),
    PrepareVote(DecisionNodeHeader),
    PreCommitVote(DecisionNodeHeader),
    CommitVote(DecisionNodeHeader),
}

/// What a vote states.
pub enum VoteTypeView {
    NewView(Option<QCView>),
    PrepareVote(DecisionNodeHeader),
    PreCommitVote(DecisionNodeHeader),
    CommitVote(DecisionNodeHeader),
}

impl View for VoteType {
    type V = VoteTypeView;

    open spec fn view(&self) -> VoteTypeView {
        match self {
            VoteType::NewView(q) => VoteTypeView::NewView(opt_qc_view(*q)),
            VoteType::PrepareVote(h) => VoteTypeView::PrepareVote(*h),
            VoteType::PreCommitVote(h) => VoteTypeView::PreCommitVote(*h),
            VoteType::CommitVote(h) => VoteTypeView::CommitVote(*h),
        }
    }
}

impl VoteType {
    pub fn duplicate(&self) -> (v: VoteType)
        ensures
            v@ == self@,
    {
        match self {
            VoteType::NewView(q) => VoteType::NewView(duplicate_opt_qc(q)),
            VoteType::PrepareVote(h) => VoteType::PrepareVote(*h),
            VoteType::PreCommitVote(h) => VoteType::PreCommitVote(*h),
            VoteType::CommitVote(h) => VoteType::CommitVote(*h),
        }
    }
}

#[derive(Clone, Debug)]
pub struct VoteMessage {
    pub vote_type: VoteType,
    pub signature: PartialSignature,
}

#[derive(Clone, Debug)]
pub enum ProposalType<D> {
    Prepare(DecisionNode<D>, QC),
    PreCommit(QC),
    Commit(QC),
    Decide(QC),
}

#[derive(Clone, Debug)]
pub struct ProposalMessage<D> {
    pub proposal_type: ProposalType<D>,
}

#[derive(Clone, Debug)]
pub enum HotFeOxMsgType<D> {
    Proposal(ProposalMessage<D>),
    Vote(VoteMessage),
}

#[derive(Clone, Debug)]
pub struct HotFeOxMsg<D> {
    pub curr_view: SeqNo,
    pub message: HotFeOxMsgType<D>,
}

impl<D> HotFeOxMsg<D> {
    pub fn new(view: SeqNo, message: HotFeOxMsgType<D>) -> (m: HotFeOxMsg<D>)
        ensures
            m.curr_view == view,
            m.message == message,
    {
        HotFeOxMsg { curr_view: view, message }
    }

    pub fn sequence_number(&self) -> (s: SeqNo)
        ensures
            s == self.curr_view,
    {
        self.curr_view
    }

    pub fn message(&self) -> (m: &HotFeOxMsgType<D>)
        ensures
            *m == self.message,
    {
        &self.message
    }

    /// The content of this message, without its view number.
    pub fn into_message_type(self) -> (m: HotFeOxMsgType<D>)
        ensures
            m == self.message,
    {
        self.message
    }
}

impl<D> ProposalMessage<D> {
    pub fn new(proposal_type: ProposalType<D>) -> (m: ProposalMessage<D>)
        ensures
            m.proposal_type == proposal_type,
    {
        ProposalMessage { proposal_type }
    }

    pub fn proposal_type(&self) -> (p: &ProposalType<D>)
        ensures
            *p == self.proposal_type,
    {
        &self.proposal_type
    }

    pub fn into_proposal_type(self) -> (p: ProposalType<D>)
        ensures
            p == self.proposal_type,
    {
        self.proposal_type
    }
}

impl VoteMessage {
    pub fn new(vote_type: VoteType, sig: PartialSignature) -> (m: VoteMessage)
        ensures
            m.vote_type == vote_type,
            m.signature == sig,
    {
        VoteMessage { vote_type, signature: sig }
    }

    /// A copy of this vote.
    pub fn duplicate(&self) -> (m: VoteMessage)
        ensures
            m.vote_type@ == self.vote_type@,
            m.signature@ == self.signature@,
    {
        VoteMessage { vote_type: self.vote_type.duplicate(), signature: self.signature.duplicate() }
    }

    pub fn vote_type(&self) -> (v: &VoteType)
        ensures
            *v == self.vote_type,
    {
        &self.vote_type
    }

    pub fn signature(&self) -> (s: &PartialSignature)
        ensures
            *s == self.signature,
    {
        &self.signature
    }

    pub fn into_inner(self) -> (r: (VoteType, PartialSignature))
        ensures
            r.0 == self.vote_type,
            r.1 == self.signature,
    {
        (self.vote_type, self.signature)
    }

    /// The node a phase vote is cast for.
    pub fn into_decision_node_header(self) -> (h: DecisionNodeHeader)
        requires
            !(self.vote_type is NewView),
        ensures
            match self.vote_type {
                VoteType::PrepareVote(n) => h == n,
                VoteType::PreCommitVote(n) => h == n,
                VoteType::CommitVote(n) => h == n,
                VoteType::NewView(_) => false,
            },
    {
        match self.vote_type {
            VoteType::PrepareVote(dn) => dn,
            VoteType::PreCommitVote(dn) => dn,
            VoteType::CommitVote(dn) => dn,
            VoteType::NewView(_) => vstd::pervasive::unreached(),
        }
    }
}

} // verus!
