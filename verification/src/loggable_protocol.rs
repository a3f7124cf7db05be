//! Persisting decisions of the basic protocol: the kinds of messages logged,
//! and the proof of a decision rebuilt from what the log kept of it.
use crate::decision_tree::{copied_command, DecisionNodeHeader, ProtocolConsensusDecision, rq_infos_of, SessionBased, StoredMessage};
use crate::decisions::decision_proof::{
    built_from_storage, distinct_qc_types, qc_map_distinct, Proof, ProofFromStorageError,
};
use crate::decisions::QC;
use crate::messages::{HotFeOxMsg, HotFeOxMsgType, ProposalType, VoteType};
use vstd::prelude::*;
use vstd::view::View as _;

verus! {

pub const VOTE_NEW_VIEW: &'static str = "VOTE-NEW-VIEW";

pub const PROPOSAL_PREPARE: &'static str = "PROPOSAL-PREPARE";

pub const VOTE_PREPARE: &'static str = "VOTE-PREPARE";

pub const PROPOSAL_PRE_COMMIT: &'static str = "PROPOSAL-PRE-COMMIT";

pub const VOTE_PRE_COMMIT: &'static str = "VOTE-PRE-COMMIT";

pub const PROPOSAL_COMMIT: &'static str = "PROPOSAL-COMMIT";

pub const VOTE_COMMIT: &'static str = "VOTE-COMMIT";

pub const PROPOSAL_DECIDE: &'static str = "PROPOSAL-DECIDE";

/// The kinds of messages the log keeps.
pub fn message_types() -> (v: Vec<&'static str>)
    ensures
        v@ == seq![
            VOTE_NEW_VIEW,
            PROPOSAL_PREPARE,
            VOTE_PREPARE,
            PROPOSAL_PRE_COMMIT,
            VOTE_PRE_COMMIT,
            PROPOSAL_COMMIT,
            VOTE_COMMIT,
            PROPOSAL_DECIDE,
        ],
{
    let mut v: Vec<&'static str> = Vec::new();
    v.push(VOTE_NEW_VIEW);
    v.push(PROPOSAL_PREPARE);
    v.push(VOTE_PREPARE);
    v.push(PROPOSAL_PRE_COMMIT);
    v.push(VOTE_PRE_COMMIT);
    v.push(PROPOSAL_COMMIT);
    v.push(VOTE_COMMIT);
    v.push(PROPOSAL_DECIDE);
    assert(v@ =~= seq![
        VOTE_NEW_VIEW,
        PROPOSAL_PREPARE,
        VOTE_PREPARE,
        PROPOSAL_PRE_COMMIT,
        VOTE_PRE_COMMIT,
        PROPOSAL_COMMIT,
        VOTE_COMMIT,
        PROPOSAL_DECIDE,
    ]);
    v
}

/// The kind of a message: the phase of the proposal or of the vote it carries.
pub open spec fn message_kind<D>(msg: HotFeOxMsg<D>) -> &'static str {
    match msg.message {
        HotFeOxMsgType::Proposal(p) => match p.proposal_type {
            ProposalType::Prepare(_, _) => PROPOSAL_PREPARE,
            ProposalType::PreCommit(_) => PROPOSAL_PRE_COMMIT,
            ProposalType::Commit(_) => PROPOSAL_COMMIT,
            ProposalType::Decide(_) => PROPOSAL_DECIDE,
        },
        HotFeOxMsgType::Vote(v) => match v.vote_type {
            VoteType::NewView(_) => VOTE_NEW_VIEW,
            VoteType::PrepareVote(_) => VOTE_PREPARE,
            VoteType::PreCommitVote(_) => VOTE_PRE_COMMIT,
            VoteType::CommitVote(_) => VOTE_COMMIT,
        },
    }
}

/// The kind of a message, by what it carries.
pub fn get_type_for_message<D>(msg: &HotFeOxMsg<D>) -> (t: &'static str)
    ensures
        t == message_kind(*msg),
{
    match &msg.message {
        HotFeOxMsgType::Proposal(p) => match &p.proposal_type {
            ProposalType::Prepare(_, _) => PROPOSAL_PREPARE,
            ProposalType::PreCommit(_) => PROPOSAL_PRE_COMMIT,
            ProposalType::Commit(_) => PROPOSAL_COMMIT,
            ProposalType::Decide(_) => PROPOSAL_DECIDE,
        },
        HotFeOxMsgType::Vote(v) => match &v.vote_type {
            VoteType::NewView(_) => VOTE_NEW_VIEW,
            VoteType::PrepareVote(_) => VOTE_PREPARE,
            VoteType::PreCommitVote(_) => VOTE_PRE_COMMIT,
            VoteType::CommitVote(_) => VOTE_COMMIT,
        },
    }
}

/// The proof of a decision rebuilt from the certificates and messages the log
/// kept of it.
pub fn init_proof_from<D: Clone>(
    metadata: DecisionNodeHeader,
    additional_data: Vec<QC>,
    messages: Vec<StoredMessage<HotFeOxMsg<D>>>,
) -> (r: Result<Proof<D>, ProofFromStorageError>)
    ensures
        built_from_storage(metadata, additional_data@, messages@, r),
{
    Proof::new_from_storage(metadata, additional_data, messages)
}

/// A proof taken apart: the header of its node, its certificates (one per
/// phase) and copies of its messages.
pub fn decompose_proof<D: Clone>(proof: &Proof<D>) -> (r: (DecisionNodeHeader, Vec<QC>, Vec<StoredMessage<HotFeOxMsg<D>>>))
    requires
        proof.wf(),
    ensures
        r.0 == proof.spec_decision_node().decision_header,
        distinct_qc_types(r.1@),
        qc_map_distinct(r.1@) == proof.spec_qcs(),
        r.2@.len() == proof.spec_messages().len(),
        forall|i: int| 0 <= i < r.2@.len() ==> copied_command(#[trigger] proof.spec_messages()[i], r.2@[i]),
{
    let header = *proof.decision_node().decision_header();
    let qcs = proof.qcs();
    let mut out_qcs: Vec<QC> = Vec::new();
    let mut i: usize = 0;
    while i < qcs.len()
        invariant
            0 <= i <= qcs.len(),
            out_qcs@.len() == i,
            forall|j: int| 0 <= j < i ==> (#[trigger] out_qcs@[j])@ == qcs@[j]@,
        decreases qcs.len() - i,
    {
        out_qcs.push(qcs[i].duplicate());
        i = i + 1;
    }
    proof {
        assert forall|a: int, b: int|
            0 <= a < out_qcs@.len() && 0 <= b < out_qcs@.len() && a != b implies (#[trigger] out_qcs@[a]).qc_type
                != (#[trigger] out_qcs@[b]).qc_type by {
            assert(qcs@[a].qc_type != qcs@[b].qc_type);
        }
        assert(qc_map_distinct(out_qcs@) =~= qc_map_distinct(qcs@)) by {
            assert forall|t| #[trigger] qc_map_distinct(out_qcs@).dom().contains(t) <==> qc_map_distinct(qcs@).dom().contains(t) by {
                if qc_map_distinct(out_qcs@).dom().contains(t) {
                    let a = choose|a: int| 0 <= a < out_qcs@.len() && (#[trigger] out_qcs@[a]).qc_type == t;
                    assert(qcs@[a].qc_type == t);
                }
                if qc_map_distinct(qcs@).dom().contains(t) {
                    let a = choose|a: int| 0 <= a < qcs@.len() && (#[trigger] qcs@[a]).qc_type == t;
                    assert(out_qcs@[a].qc_type == t);
                }
            }
            assert forall|t| #[trigger] qc_map_distinct(out_qcs@).dom().contains(t) implies qc_map_distinct(out_qcs@)[t]
                == qc_map_distinct(qcs@)[t] by {
                let a = choose|a: int| 0 <= a < out_qcs@.len() && (#[trigger] out_qcs@[a]).qc_type == t;
                let b = choose|b: int| 0 <= b < qcs@.len() && (#[trigger] qcs@[b]).qc_type == t;
                assert(qcs@[a].qc_type == t);
                if a != b {
                    assert(qcs@[a].qc_type != qcs@[b].qc_type);
                }
            }
        }
    }
    let messages = copy_messages(proof.messages());
    (header, out_qcs, messages)
}

/// Copies of stored messages, in order.
fn copy_messages<D: Clone>(messages: &Vec<StoredMessage<HotFeOxMsg<D>>>) -> (r: Vec<StoredMessage<HotFeOxMsg<D>>>)
    ensures
        r@.len() == messages@.len(),
        forall|i: int| 0 <= i < r@.len() ==> copied_command(#[trigger] messages@[i], r@[i]),
{
    let mut out: Vec<StoredMessage<HotFeOxMsg<D>>> = Vec::new();
    let mut i: usize = 0;
    while i < messages.len()
        invariant
            0 <= i <= messages.len(),
            out@.len() == i,
            forall|j: int| 0 <= j < i ==> copied_command(#[trigger] messages@[j], out@[j]),
        decreases messages.len() - i,
    {
        out.push(messages[i].duplicate());
        i = i + 1;
    }
    out
}

/// The decision a proof stands for: the commands of its node, under its
/// sequence number, with the request information of each command and the
/// digest of its block.
pub fn get_requests_in_proof<D: Clone + SessionBased>(proof: &Proof<D>) -> (d: ProtocolConsensusDecision<D>)
    ensures
        d.client_rq_infos@ == rq_infos_of(d.client_commands@),
        d.seq == proof.spec_decision_node().decision_header.view_no,
        d.batch_digest == proof.spec_decision_node().decision_header.current_block_digest,
        d.client_commands@.len() == proof.spec_decision_node().client_commands@.len(),
        forall|i: int| 0 <= i < d.client_commands@.len() ==> copied_command(
            #[trigger] proof.spec_decision_node().client_commands@[i],
            d.client_commands@[i],
        ),
{
    let node = proof.decision_node().duplicate();
    let seq = proof.sequence_number();
    let digest = node.decision_header().current_block_digest();
    ProtocolConsensusDecision::new(seq, node.into_commands(), digest)
}

} // verus!
