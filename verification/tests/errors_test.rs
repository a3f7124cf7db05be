use hot_iron_ox::chained::chained_decision_tree::ChainedDecisionNode;
use hot_iron_ox::chained::decision::{ChainedDecisionState, FinalizeDecisionError};
use hot_iron_ox::chained::log::{ChainedQCGenerateError, VoteStore as ChainedVoteStore};
use hot_iron_ox::chained::messages::{VoteDetails, VoteMessage as ChainedVoteMessage};
use hot_iron_ox::chained::protocol::{ChainedHotStuffProtocol, FinalizeDecisionsError};
use hot_iron_ox::crypto::{combine_partial_signatures, CryptoProvider, CryptoSignatureCombiner};
use hot_iron_ox::decision_tree::{DecisionNode, DecisionNodeHeader, Header, SessionBased, StoredMessage};
use hot_iron_ox::decisions::decision::DecisionError;
use hot_iron_ox::decisions::hotstuff::{HotStuffProtocol, ProcessMessageErr};
use hot_iron_ox::decisions::log::{
    MsgLeaderDecisionLog, MsgReplicaDecisionLog, NewViewAcceptError, NewViewGenerateError, NewViewStore,
    ProposalAcceptError, VoteAcceptError, VoteStore, VoteStoreError,
};
use hot_iron_ox::decisions::req_aggr::ReqAggregator;
use hot_iron_ox::decisions::{DecisionHandler, QCType, QC};
use hot_iron_ox::hot_iron::decision::{DecisionError as IronError, HSDecision as IronDecision};
use hot_iron_ox::messages::{HotFeOxMsg, HotFeOxMsgType, ProposalMessage, ProposalType, VoteMessage, VoteType};
use hot_iron_ox::ordering::{CombinedSignature, Digest, NodeId, PartialSignature, SeqNo};
use hot_iron_ox::view::View;

struct Crypto {
    fail: bool,
}

impl CryptoSignatureCombiner for Crypto {
    type CombinationError = &'static str;

    fn combined(
        &self,
        _signatures: vstd::seq::Seq<(NodeId, vstd::seq::Seq<u8>)>,
    ) -> Option<vstd::seq::Seq<u8>> {
        None
    }

    fn combine_signatures(&self, signatures: &[(NodeId, PartialSignature)]) -> Result<CombinedSignature, &'static str> {
        if self.fail {
            Err("refused")
        } else {
            Ok(CombinedSignature::new(signatures.iter().map(|(n, _)| n.0 as u8).collect()))
        }
    }
}

impl CryptoProvider for Crypto {}

#[derive(Clone, Debug, PartialEq)]
struct Req(u8);

impl SessionBased for Req {
    fn spec_sequence_number(&self) -> SeqNo {
        SeqNo(self.0 as u32)
    }

    fn spec_session_number(&self) -> SeqNo {
        SeqNo(4)
    }

    fn sequence_number(&self) -> SeqNo {
        SeqNo(self.0 as u32)
    }

    fn session_number(&self) -> SeqNo {
        SeqNo(4)
    }
}

struct Pool;

impl ReqAggregator<Req> for Pool {
    fn take_pool_requests(&self) -> (Vec<StoredMessage<Req>>, Digest) {
        (vec![], Digest::blank())
    }
}

fn members() -> Vec<NodeId> {
    (0..4).map(NodeId).collect()
}

fn header(view: u32, prev: Option<Digest>, d: u128) -> DecisionNodeHeader {
    DecisionNodeHeader {
        view_no: SeqNo(view),
        previous_block: prev,
        current_block_digest: Digest { high: 0, low: d },
        contained_client_commands: 0,
    }
}

fn qc(t: QCType, view: u32, node: DecisionNodeHeader) -> QC {
    QC::new(t, SeqNo(view), node, CombinedSignature::new(vec![1]))
}

fn sig(n: u32) -> PartialSignature {
    PartialSignature::new(vec![n as u8])
}

#[test]
fn combining_goes_through_the_provider() {
    let votes = vec![(NodeId(1), sig(1)), (NodeId(2), sig(2))];
    assert_eq!(combine_partial_signatures(&Crypto { fail: false }, &votes).ok().unwrap().bytes, vec![1, 2]);
    assert_eq!(combine_partial_signatures(&Crypto { fail: true }, &votes).err(), Some("refused"));
}

#[test]
fn log_errors() {
    let h = header(0, None, 1);
    let mut nv = NewViewStore::new();
    let wrong = VoteMessage::new(VoteType::PrepareVote(h), sig(1));
    assert_eq!(nv.accept_new_view(NodeId(1), wrong).err(), Some(NewViewAcceptError::WrongMessageType));
    assert!(matches!(nv.create_new_qc(&Crypto { fail: false }, &h), Err(NewViewGenerateError::NotEnoughVotes)));
    nv.accept_new_view(NodeId(1), VoteMessage::new(VoteType::NewView(None), sig(1))).unwrap();
    assert!(matches!(
        nv.create_new_qc(&Crypto { fail: true }, &h),
        Err(NewViewGenerateError::FailedToCombinePartialSignatures("refused"))
    ));
    let made = nv.create_new_qc(&Crypto { fail: false }, &h).ok().unwrap();
    assert_eq!(made.view_seq(), SeqNo(0));
    assert_eq!(made.qc_type(), QCType::PrepareVote);
    assert!(nv.get_high_qc().is_none());

    let mut leader = MsgLeaderDecisionLog::new();
    let nv_vote = VoteMessage::new(VoteType::NewView(None), sig(2));
    assert_eq!(leader.accept_vote(NodeId(2), nv_vote).err(), Some(VoteAcceptError::NewViewVoteNotAcceptable));
    let view = View::new_from_quorum(SeqNo(0), members());
    assert!(matches!(
        leader.generate_qc(&Crypto { fail: false }, &view, QCType::CommitVote),
        Err(VoteStoreError::NoDecisionNode)
    ));
    assert_eq!(leader.accept_vote(NodeId(2), VoteMessage::new(VoteType::CommitVote(h), sig(2))), Ok(true));
    assert_eq!(leader.accept_vote(NodeId(2), VoteMessage::new(VoteType::CommitVote(h), sig(2))), Ok(false));
    assert!(matches!(
        leader.generate_qc(&Crypto { fail: true }, &view, QCType::CommitVote),
        Err(VoteStoreError::FailedToCreateCombinedSignature("refused"))
    ));
    let q = leader.generate_qc(&Crypto { fail: false }, &view, QCType::CommitVote).ok().unwrap();
    assert_eq!(q.qc_type(), QCType::CommitVote);
    assert_eq!(q.decision_node(), h);

    let mut store = VoteStore::new(QCType::PrepareVote);
    assert!(store.accept_vote(NodeId(1), h, sig(1)));
    assert!(!store.accept_vote(NodeId(1), h, sig(1)));

    let mut replica = MsgReplicaDecisionLog::new();
    let node = DecisionNode::<Req>::create_root_leaf(&view, Digest::blank(), vec![]);
    let prepare = ProposalMessage::new(ProposalType::Prepare(node, qc(QCType::PrepareVote, 0, h)));
    assert_eq!(replica.accept_proposal(prepare).err(), Some(ProposalAcceptError::PrepareProposalNotAcceptable));
    replica.accept_proposal(ProposalMessage::<Req>::new(ProposalType::PreCommit(qc(QCType::PrepareVote, 0, h)))).unwrap();
    assert!(replica.prepare_qc().is_some());
    replica.accept_proposal(ProposalMessage::<Req>::new(ProposalType::Commit(qc(QCType::PreCommitVote, 0, h)))).unwrap();
    assert!(replica.locked_qc().is_some());
}

#[test]
fn protocol_reports_decision_errors() {
    let view = View::new_from_quorum(SeqNo(0), members());
    let mut p: HotStuffProtocol<Req, Pool> = HotStuffProtocol::new(view, NodeId(0), Pool).unwrap();
    let _ = p.poll();
    let mut errors = 0;
    for n in 1..4 {
        let m = StoredMessage::new(
            Header { from: NodeId(n), to: NodeId(0), digest: Digest::blank() },
            HotFeOxMsg::new(SeqNo(0), HotFeOxMsgType::Vote(VoteMessage::new(VoteType::NewView(None), sig(n)))),
        );
        if let Err(ProcessMessageErr::DecisionError(DecisionError::NewViewGenerateError(
            NewViewGenerateError::FailedToCombinePartialSignatures("refused"),
        ))) = p.process_message(m, &Crypto { fail: true })
        {
            errors += 1;
        }
    }
    assert_eq!(errors, 1);
}

#[test]
fn iron_replica_refuses_unsafe_nodes() {
    let view = View::new_from_quorum(SeqNo(0), members());
    let mut d: IronDecision<Req> = IronDecision::new(view, NodeId(2));
    let mut h = DecisionHandler::new();
    let _ = d.poll(&h);
    // A node that claims a previous block while no certificate is known.
    let node = DecisionNode::<Req>::create_leaf(&header(0, None, 5), Digest { high: 0, low: 6 }, vec![]);
    let q = qc(QCType::PrepareVote, 0, *node.decision_header());
    let m = StoredMessage::new(
        Header { from: NodeId(0), to: NodeId(2), digest: Digest::blank() },
        HotFeOxMsg::new(SeqNo(0), HotFeOxMsgType::Proposal(ProposalMessage::new(ProposalType::Prepare(node, q)))),
    );
    assert!(matches!(d.process_message(m, &mut h, &Crypto { fail: false }, &Pool), Err(IronError::InvalidDecisionNode)));
    assert!(h.latest_prepare_qc.is_none());
}

#[test]
fn iron_leader_reports_combination_errors() {
    let view = View::new_from_quorum(SeqNo(0), members());
    let mut d: IronDecision<Req> = IronDecision::new(view, NodeId(0));
    let mut h = DecisionHandler::new();
    let _ = d.poll(&h);
    let mut errors = 0;
    for n in 1..4 {
        let m = StoredMessage::new(
            Header { from: NodeId(n), to: NodeId(0), digest: Digest::blank() },
            HotFeOxMsg::new(SeqNo(0), HotFeOxMsgType::Vote(VoteMessage::new(VoteType::NewView(None), sig(n)))),
        );
        if let Err(IronError::NewViewGenerateError(NewViewGenerateError::FailedToCombinePartialSignatures(_))) =
            d.process_message(m, &mut h, &Crypto { fail: true }, &Pool)
        {
            errors += 1;
        }
    }
    assert_eq!(errors, 1);
}

#[test]
fn chained_certificate_errors() {
    let view = View::new_from_quorum(SeqNo(1), members());
    let mut store = ChainedVoteStore::new();
    let d = VoteDetails::new(header(1, None, 3), None);
    assert!(matches!(store.get_quorum_qc(&view, &Crypto { fail: false }), Err(ChainedQCGenerateError::NotEnoughVotes)));
    for n in 0..3 {
        store.accept_vote(NodeId(n), ChainedVoteMessage::new(d.duplicate(), sig(n)));
    }
    assert!(matches!(
        store.get_quorum_qc(&view, &Crypto { fail: true }),
        Err(ChainedQCGenerateError::FailedToCombinePartialSignatures("refused"))
    ));
}

#[test]
fn chained_finalize_errors() {
    let view = View::new_from_quorum(SeqNo(0), members());
    let mut h = hot_iron_ox::chained::ChainedDecisionHandler::new();

    let mut p: ChainedHotStuffProtocol<Req, Pool> = ChainedHotStuffProtocol::new(NodeId(1), Pool, view.duplicate());
    assert!(p.finalize().ok().unwrap().is_empty());
    p.decision_list[0].advance_state(ChainedDecisionState::Finalized, &mut h);
    assert_eq!(
        p.finalize().err(),
        Some(FinalizeDecisionsError::FailedToFinalizeDecision(FinalizeDecisionError::FailedToFinalizeDecisionMissingDigest))
    );

    let mut q: ChainedHotStuffProtocol<Req, Pool> = ChainedHotStuffProtocol::new(NodeId(1), Pool, view.duplicate());
    let node = ChainedDecisionNode::<Req>::create_root(&view, Digest { high: 0, low: 9 }, vec![]);
    let digest = node.decision_header().current_block_digest;
    q.decision_list[0].decision_node_digest = Some(digest);
    q.decision_list[0].advance_state(ChainedDecisionState::Finalized, &mut h);
    assert_eq!(q.finalize().err(), Some(FinalizeDecisionsError::FailedToGetNode(digest)));

    let mut r: ChainedHotStuffProtocol<Req, Pool> = ChainedHotStuffProtocol::new(NodeId(1), Pool, view.duplicate());
    r.pending_nodes.insert(node);
    r.decision_list[0].decision_node_digest = Some(digest);
    r.decision_list[0].advance_state(ChainedDecisionState::Finalized, &mut h);
    let out = r.finalize().ok().unwrap();
    assert_eq!(out.len(), 1);
    assert_eq!(r.sequence_number(), SeqNo(1));
    assert_eq!(r.decision_list.len(), 4);
    assert!(r.pending_nodes.get(&digest).is_none());
}
