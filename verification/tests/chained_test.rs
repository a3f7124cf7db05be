use hot_iron_ox::chained::chained_decision_tree::{ChainedDecisionNode, PendingDecisionNodes};
use hot_iron_ox::chained::chained_proof::ProofQCType;
use hot_iron_ox::chained::decision::{
    is_after, ChainedAction, ChainedDecision, ChainedDecisionPollResult, ChainedDecisionResult, ChainedDecisionState,
    FinalizeDecisionError,
};
use hot_iron_ox::chained::log::{DecisionLog, NewViewQCError, NewViewStore, VoteStore};
use hot_iron_ox::chained::loggable::{
    decompose_proof, get_decision_header, get_qcs_index_from_vec, get_requests_in_proof, get_type_for_message,
    init_proof_from, message_types, IronChainComposeError, NEW_VIEW_GENERIC, PROPOSAL_GENERIC, VOTE_GENERIC,
};
use hot_iron_ox::chained::messages::serialize::IronChainSer;
use hot_iron_ox::chained::messages::{IronChainMessage, IronChainMessageType, NewViewMessage, ProposalMessage, VoteDetails, VoteMessage};
use hot_iron_ox::chained::metrics::{
    metrics, ConsensusMetric, LeaderDecisionMetric, MetricKind, MetricLevel, ReplicaConsensusDecisionMetric, END_TO_END_LATENCY_ID,
    PROPOSAL_SEND_LATENCY_ID, VOTE_RECEIVED_LATENCY_ID, VOTE_SEND_LATENCY_ID,
};
use hot_iron_ox::chained::protocol::{
    ChainedHotStuffProtocol, InstallViewError, IronChainDecision, IronChainPollResult, IronChainResult,
};
use hot_iron_ox::chained::{ChainedDecisionHandler, ChainedQC};
use hot_iron_ox::crypto::{CryptoProvider, CryptoSignatureCombiner};
use hot_iron_ox::decision_tree::{ClientRqInfo, DecisionNodeHeader, Header, SessionBased, StoredMessage};
use hot_iron_ox::decisions::req_aggr::ReqAggregator;
use hot_iron_ox::ordering::{CombinedSignature, Digest, NodeId, PartialSignature, SeqNo};
use hot_iron_ox::view::View;

struct Crypto;

impl CryptoSignatureCombiner for Crypto {
    type CombinationError = ();

    fn combined(
        &self,
        _signatures: vstd::seq::Seq<(NodeId, vstd::seq::Seq<u8>)>,
    ) -> Option<vstd::seq::Seq<u8>> {
        None
    }

    fn combine_signatures(&self, signatures: &[(NodeId, PartialSignature)]) -> Result<CombinedSignature, ()> {
        Ok(CombinedSignature::new(signatures.iter().map(|(n, _)| n.0 as u8).collect()))
    }
}

impl CryptoProvider for Crypto {}

#[derive(Clone, Debug, PartialEq)]
struct Req(u32);

impl SessionBased for Req {
    fn spec_sequence_number(&self) -> SeqNo {
        SeqNo(self.0)
    }

    fn spec_session_number(&self) -> SeqNo {
        SeqNo(3)
    }

    fn sequence_number(&self) -> SeqNo {
        SeqNo(self.0)
    }

    fn session_number(&self) -> SeqNo {
        SeqNo(3)
    }
}

struct Pool;

impl ReqAggregator<Req> for Pool {
    fn take_pool_requests(&self) -> (Vec<StoredMessage<Req>>, Digest) {
        let d = Digest { high: 5, low: 6 };
        (vec![StoredMessage::new(Header { from: NodeId(7), to: NodeId(0), digest: d }, Req(11))], d)
    }
}

fn members() -> Vec<NodeId> {
    (0..4).map(NodeId).collect()
}

fn view(seq: u32) -> View {
    View::new_from_quorum(SeqNo(seq), members())
}

fn sig(n: NodeId) -> PartialSignature {
    PartialSignature::new(vec![n.0 as u8])
}

fn stored(from: NodeId, to: NodeId, m: IronChainMessage<Req>) -> StoredMessage<IronChainMessage<Req>> {
    StoredMessage::new(Header { from, to, digest: Digest::blank() }, m)
}

fn new_view_msg(from: NodeId, to: NodeId, seq: u32) -> StoredMessage<IronChainMessage<Req>> {
    stored(from, to, IronChainMessage::new(SeqNo(seq), IronChainMessageType::NewView(NewViewMessage::from_empty(sig(from)))))
}

fn header(view_no: u32, d: u128) -> DecisionNodeHeader {
    DecisionNodeHeader {
        view_no: SeqNo(view_no),
        previous_block: None,
        current_block_digest: Digest { high: 0, low: d },
        contained_client_commands: 0,
    }
}

fn qc_for(seq: u32, h: DecisionNodeHeader) -> ChainedQC {
    ChainedQC::new(SeqNo(seq), h, CombinedSignature::new(vec![1]))
}

fn step(
    d: &mut ChainedDecision<Req>,
    h: &mut ChainedDecisionHandler,
    m: StoredMessage<IronChainMessage<Req>>,
) -> ChainedDecisionResult<Req> {
    let pending = PendingDecisionNodes::new();
    match d.process_message(&Pool, h, &Crypto, &pending, m) {
        Ok(r) => r,
        Err(_) => panic!("unexpected error"),
    }
}

fn broadcast_of(d: &mut ChainedDecision<Req>) -> IronChainMessage<Req> {
    d.take_actions()
        .into_iter()
        .filter_map(|a| match a {
            ChainedAction::BroadcastProposal { message, .. } => Some(message),
            _ => None,
        })
        .last()
        .unwrap()
}

#[test]
fn chained_round_leader_replica_and_next_leader() {
    let mut h = ChainedDecisionHandler::new();

    // The leader of view 0 proposes once a quorum of new view messages came in.
    let mut leader: ChainedDecision<Req> = ChainedDecision::new_first_view(view(0), NodeId(0));
    assert_eq!(leader.state(), ChainedDecisionState::Prepare(0, false));
    let r1 = step(&mut leader, &mut h, new_view_msg(NodeId(1), NodeId(0), 0));
    assert!(matches!(r1, ChainedDecisionResult::MessageProcessed(_)));
    // The same replica counts once.
    let again = step(&mut leader, &mut h, new_view_msg(NodeId(1), NodeId(0), 0));
    assert!(matches!(again, ChainedDecisionResult::MessageIgnored));
    let _ = step(&mut leader, &mut h, new_view_msg(NodeId(2), NodeId(0), 0));
    let r3 = step(&mut leader, &mut h, new_view_msg(NodeId(3), NodeId(0), 0));
    let proposed = match r3 {
        ChainedDecisionResult::ProposalGenerated(hd, _) => hd,
        _ => panic!("expected a proposal"),
    };
    assert_eq!(proposed.view_no, SeqNo(0));
    assert_eq!(proposed.current_block_digest, Digest { high: 5, low: 6 });
    assert_eq!(proposed.contained_client_commands, 1);
    assert_eq!(leader.state(), ChainedDecisionState::Prepare(3, true));
    let proposal = broadcast_of(&mut leader);
    assert_eq!(get_type_for_message(&proposal), PROPOSAL_GENERIC);

    // A replica votes for it, to the leader of the next view.
    let mut replica: ChainedDecision<Req> = ChainedDecision::new_first_view(view(0), NodeId(2));
    assert_eq!(replica.state(), ChainedDecisionState::Init);
    let r = step(&mut replica, &mut h, stored(NodeId(0), NodeId(2), proposal.clone()));
    assert!(matches!(r, ChainedDecisionResult::VoteGenerated(_, _)));
    assert_eq!(replica.decision_node_digest(), Some(Digest { high: 5, low: 6 }));
    let actions = replica.take_actions();
    let details = match &actions[0] {
        ChainedAction::SendVote { seq, details, target } => {
            assert_eq!(*seq, SeqNo(0));
            assert_eq!(*target, NodeId(1));
            assert_eq!(details.node, proposed);
            details.duplicate()
        }
        _ => panic!("expected a vote"),
    };

    // The next leader builds the certificate from a quorum of votes.
    let mut next: ChainedDecision<Req> = ChainedDecision::new_first_view(view(0), NodeId(1));
    assert!(matches!(next.decision_log, DecisionLog::NextLeader(_)));
    let mut last = None;
    for n in [0u32, 2, 3] {
        let v = stored(
            NodeId(n),
            NodeId(1),
            IronChainMessage::new(SeqNo(0), IronChainMessageType::Vote(VoteMessage::new(details.duplicate(), sig(NodeId(n))))),
        );
        last = Some(step(&mut next, &mut h, v));
    }
    match last.unwrap() {
        ChainedDecisionResult::NextLeaderMessages(_, qc) => {
            assert_eq!(qc.seq_no, SeqNo(0));
            assert_eq!(qc.decision_node, proposed);
        }
        _ => panic!("expected the certificate"),
    }
    assert!(h.latest_prepare_qc_ref().is_some());
}

#[test]
fn chained_decision_ignores_proposals_of_other_views_and_polls() {
    let mut h = ChainedDecisionHandler::new();
    let mut d: ChainedDecision<Req> = ChainedDecision::new_first_view(view(0), NodeId(2));
    let node = ChainedDecisionNode::create_root(&view(3), Digest::blank(), vec![]);
    let other = stored(NodeId(3), NodeId(2), IronChainMessage::new(SeqNo(3), IronChainMessageType::Proposal(ProposalMessage::new(node))));
    assert!(matches!(step(&mut d, &mut h, other), ChainedDecisionResult::MessageIgnored));

    // A fresh replica's first poll sends its new view message to the leader.
    assert!(matches!(d.poll(&h), ChainedDecisionPollResult::ReceiveMsg));
    let actions = d.take_actions();
    assert!(matches!(&actions[0], ChainedAction::SendNewView { seq: SeqNo(0), qc: None, target: NodeId(0) }));
    assert!(is_after(d.state(), ChainedDecisionState::Init));

    d.queue_message(new_view_msg(NodeId(3), NodeId(2), 0));
    match d.poll(&h) {
        ChainedDecisionPollResult::Exec(m) => assert_eq!(m.header.from, NodeId(3)),
        _ => panic!("expected the queued message"),
    }
    assert!(matches!(d.poll(&h), ChainedDecisionPollResult::ReceiveMsg));
    assert_eq!(d.finalize().err(), Some(FinalizeDecisionError::FailedToFinalizeDecisionMissingDigest));
}

#[test]
fn chained_states_move_forward_only() {
    let mut h = ChainedDecisionHandler::new();
    let mut d: ChainedDecision<Req> = ChainedDecision::new(view(1), NodeId(3));
    d.advance_state(ChainedDecisionState::Commit, &mut h);
    assert_eq!(d.state(), ChainedDecisionState::Commit);
    d.advance_state(ChainedDecisionState::PreCommit, &mut h);
    assert_eq!(d.state(), ChainedDecisionState::Commit);
    d.advance_state(ChainedDecisionState::Finalized, &mut h);
    assert!(matches!(d.poll(&h), ChainedDecisionPollResult::Decided));
    assert!(is_after(ChainedDecisionState::Prepare(2, false), ChainedDecisionState::Prepare(1, true)));
    assert!(is_after(ChainedDecisionState::Prepare(2, true), ChainedDecisionState::Prepare(2, false)));
    assert!(!is_after(ChainedDecisionState::Prepare(2, false), ChainedDecisionState::Prepare(2, false)));
    assert!(!is_after(ChainedDecisionState::Init, ChainedDecisionState::Decide));
}

#[test]
fn new_view_and_vote_stores() {
    let mut s = NewViewStore::new();
    assert_eq!(s.get_high_qc().err(), Some(NewViewQCError::NoVotesReceived));
    let q1 = qc_for(1, header(1, 1));
    let q2 = qc_for(2, header(2, 2));
    assert!(s.accept_new_view(NodeId(1), NewViewMessage::from_previous_qc(q1.duplicate(), sig(NodeId(1)))));
    assert!(s.accept_new_view(NodeId(2), NewViewMessage::from_previous_qc(q2.duplicate(), sig(NodeId(2)))));
    assert!(s.accept_new_view(NodeId(3), NewViewMessage::from_previous_qc(q2.duplicate(), sig(NodeId(3)))));
    assert!(!s.accept_new_view(NodeId(3), NewViewMessage::from_previous_qc(q2.duplicate(), sig(NodeId(3)))));
    let high = s.get_high_qc().ok().unwrap();
    assert!(high.high_qc().as_ref().unwrap().equals(&q2));
    assert_eq!(high.signatures().len(), 2);

    let mut votes = VoteStore::new();
    let d = VoteDetails::new(header(2, 9), Some(q1.duplicate()));
    assert_eq!(votes.accept_vote(NodeId(0), VoteMessage::new(d.duplicate(), sig(NodeId(0)))), Some(1));
    assert_eq!(votes.accept_vote(NodeId(0), VoteMessage::new(d.duplicate(), sig(NodeId(0)))), None);
    assert_eq!(votes.accept_vote(NodeId(1), VoteMessage::new(d.duplicate(), sig(NodeId(1)))), Some(2));
    assert!(!votes.is_proposed());
    votes.set_proposed(true);
    assert!(votes.is_proposed());
    assert!(votes.get_high_justify_qc().unwrap().justify().as_ref().unwrap().equals(&q1));
    let too_few = votes.get_quorum_qc(&view(2), &Crypto);
    assert!(too_few.is_err());
    assert_eq!(votes.accept_vote(NodeId(2), VoteMessage::new(d.duplicate(), sig(NodeId(2)))), Some(3));
    let qc = votes.get_quorum_qc(&view(2), &Crypto).ok().unwrap();
    assert_eq!(qc.seq_no, SeqNo(2));
    assert_eq!(qc.decision_node, header(2, 9));
}

fn proposal_for(seq: u32, node: ChainedDecisionNode<Req>) -> StoredMessage<IronChainMessage<Req>> {
    stored(NodeId(0), NodeId(1), IronChainMessage::new(SeqNo(seq), IronChainMessageType::Proposal(ProposalMessage::new(node))))
}

#[test]
fn proofs_of_chained_decisions() {
    assert_eq!(message_types(), vec![VOTE_GENERIC, PROPOSAL_GENERIC, NEW_VIEW_GENERIC]);
    let cmd = StoredMessage::new(Header { from: NodeId(7), to: NodeId(0), digest: Digest::blank() }, Req(11));
    let node = ChainedDecisionNode::create_root(&view(4), Digest { high: 0, low: 4 }, vec![cmd]);
    let h = *node.decision_header();
    assert_eq!(h.view_no, SeqNo(4));

    // Certificates by phase: the decision's own view and the three after it.
    let indexed = get_qcs_index_from_vec(vec![qc_for(4, h), qc_for(6, h), qc_for(7, h)], &h).ok().unwrap();
    let kinds: Vec<ProofQCType> = indexed.iter().map(|(k, _)| *k).collect();
    assert!(kinds.contains(&ProofQCType::PrePrepare));
    assert!(kinds.contains(&ProofQCType::Commit));
    assert!(kinds.contains(&ProofQCType::Decide));
    assert!(matches!(
        get_qcs_index_from_vec(vec![qc_for(3, h)], &h),
        Err(IronChainComposeError::QCOlderThanDecision { found: SeqNo(3), decision_seq: SeqNo(4) })
    ));
    assert!(matches!(
        get_qcs_index_from_vec(vec![qc_for(8, h)], &h),
        Err(IronChainComposeError::QCNewerThanDecision { found: SeqNo(8), decision_seq: SeqNo(4) })
    ));
    assert!(matches!(
        get_qcs_index_from_vec(vec![qc_for(5, header(4, 99))], &h),
        Err(IronChainComposeError::QCDecisionNodeDoesNotMatchHeader)
    ));

    let nv = new_view_msg(NodeId(1), NodeId(0), 4);
    assert!(matches!(get_decision_header::<Req>(&h, vec![nv.clone()]), Err(IronChainComposeError::NoProposalMessageFound)));
    assert!(matches!(
        get_decision_header(&h, vec![proposal_for(5, node.duplicate())]),
        Err(IronChainComposeError::DecisionNodeDoesNotMatchSequenceNumber { expected: SeqNo(4), found: SeqNo(5) })
    ));
    let stray = ChainedDecisionNode::create_root(&view(4), Digest { high: 0, low: 8 }, vec![]);
    assert!(matches!(
        get_decision_header(&h, vec![proposal_for(4, stray)]),
        Err(IronChainComposeError::DecisionNodeDoesNotMatchHeader { .. })
    ));

    let proof = init_proof_from(h, vec![qc_for(5, h), qc_for(4, h)], vec![nv.clone(), proposal_for(4, node.duplicate())])
        .ok()
        .unwrap();
    assert_eq!(proof.sequence_number(), SeqNo(4));
    assert!(proof.qc(ProofQCType::Prepare).is_some());
    assert!(proof.qc(ProofQCType::Decide).is_none());
    assert!(proof.equals(&proof));
    let (dh, qcs, msgs) = decompose_proof(&proof);
    assert_eq!(dh, h);
    assert_eq!(qcs.len(), 2);
    assert_eq!(msgs.len(), 1);
    let decision = get_requests_in_proof(&proof);
    assert_eq!(decision.seq, SeqNo(4));
    assert_eq!(decision.batch_digest, Digest { high: 0, low: 4 });
    assert_eq!(decision.client_commands[0].message, Req(11));
    assert!(matches!(init_proof_from::<Req>(h, vec![], vec![nv]), Err(IronChainComposeError::NoProposalMessageFound)));
}

#[test]
fn metrics_record_each_moment_once() {
    let mut r = ReplicaConsensusDecisionMetric::new();
    assert!(r.register_vote_sent().is_none());
    let mut r = ReplicaConsensusDecisionMetric::new();
    r.register_proposal_received();
    let first = r.received_proposal;
    r.register_proposal_received();
    assert_eq!(r.received_proposal, first);
    assert_eq!(r.register_vote_sent().map(|s| s.metric_id), Some(VOTE_SEND_LATENCY_ID));
    assert!(r.register_vote_sent().is_none());
    assert_eq!(r.register_finalized_decision().map(|s| s.metric_id), Some(END_TO_END_LATENCY_ID));
    assert!(r.register_finalized_decision().is_none());

    let mut l = LeaderDecisionMetric::new();
    assert!(l.register_proposal_sent().is_none());
    l.register_vote_received();
    assert_eq!(l.register_last_vote_received().map(|s| s.metric_id), Some(VOTE_RECEIVED_LATENCY_ID));
    assert_eq!(l.register_proposal_sent().map(|s| s.metric_id), Some(PROPOSAL_SEND_LATENCY_ID));

    let mut m = ConsensusMetric::leader_decision();
    m.as_leader_decision().register_vote_received();
    m.as_replica_consensus_decision().register_proposal_received();
    let mut n = ConsensusMetric::next_leader_decision();
    n.as_next_leader_decision().register_vote_received();
    let _ = ConsensusMetric::replica_consensus_decision();
    let descriptors = metrics();
    assert_eq!(descriptors.len(), 4);
    assert!(descriptors.iter().all(|d| d.kind == MetricKind::Duration && d.level == MetricLevel::Info));
    let ids: Vec<usize> = descriptors.iter().map(|d| d.id).collect();
    assert_eq!(ids, vec![VOTE_SEND_LATENCY_ID, END_TO_END_LATENCY_ID, VOTE_RECEIVED_LATENCY_ID, PROPOSAL_SEND_LATENCY_ID]);
    assert_eq!(ids, vec![150, 100, 151, 152]);
    assert_eq!(descriptors[0].name, "VOTE_SEND_LATENCY");
    assert_eq!(descriptors[3].name, "PROPOSAL_SEND_LATENCY");
}

#[test]
fn chained_protocol_window() {
    let mut p: ChainedHotStuffProtocol<Req, Pool> = ChainedHotStuffProtocol::new(NodeId(2), Pool, view(0));
    assert_eq!(p.decision_list.len(), 4);
    assert_eq!(p.sequence_number(), SeqNo(0));
    assert_eq!(p.decision_list[0].state(), ChainedDecisionState::Init);
    assert_eq!(p.decision_list[3].sequence_number(), SeqNo(3));
    assert_eq!(p.decision_list[3].state(), ChainedDecisionState::Prepare(0, false));
    assert!(!p.can_finalize());

    // The first poll starts the first decision.
    match p.poll(&ChainedDecisionHandler::new()) {
        Ok(IronChainPollResult::ReceiveMsg) => {}
        _ => panic!("expected nothing to do"),
    }
    assert!(matches!(p.decision_list[0].take_actions()[0], ChainedAction::SendNewView { seq: SeqNo(0), .. }));

    match p.install_view(view(0)) {
        Ok(()) => {}
        Err(_) => panic!("the current view is not in the past"),
    }
    p.install_view(view(2)).ok().unwrap();
    assert_eq!(p.sequence_number(), SeqNo(2));
    assert_eq!(p.decision_list.len(), 4);
    assert_eq!(p.decision_list[0].sequence_number(), SeqNo(2));
    assert!(matches!(p.install_view(view(1)), Err(InstallViewError::ViewInPast(_, _))));
    // A message of a past view is dropped.
    let mut h = ChainedDecisionHandler::new();
    match p.process_message(&Crypto, &mut h, new_view_msg(NodeId(3), NodeId(2), 1)) {
        Ok(IronChainResult::MessageDropped) => {}
        _ => panic!("expected the message to be dropped"),
    }
    p.install_view(view(10)).ok().unwrap();
    assert_eq!(p.decision_list[0].sequence_number(), SeqNo(10));
    assert_eq!(p.decision_list[0].state(), ChainedDecisionState::Prepare(0, false));
    assert_eq!(p.view().primary(), NodeId(2));
}

#[test]
fn chained_messages_pass_the_wire_check() {
    let m = new_view_msg(NodeId(1), NodeId(0), 0);
    assert_eq!(IronChainSer::<Req>::internally_verify_message(&m.header, &m.message), Ok(()));
}

fn chained_proposal(seq: u32, from: u32, node: ChainedDecisionNode<Req>) -> StoredMessage<IronChainMessage<Req>> {
    stored(NodeId(from), NodeId(2), IronChainMessage::new(SeqNo(seq), IronChainMessageType::Proposal(ProposalMessage::new(node))))
}

#[test]
fn three_chain_finalizes_the_oldest_decision() {
    let mut p: ChainedHotStuffProtocol<Req, Pool> = ChainedHotStuffProtocol::new(NodeId(2), Pool, view(0));
    let mut h = ChainedDecisionHandler::new();
    let cmd = StoredMessage::new(Header { from: NodeId(8), to: NodeId(0), digest: Digest::blank() }, Req(42));
    let n0 = ChainedDecisionNode::create_root(&view(0), Digest { high: 0, low: 100 }, vec![cmd]);
    let mut headers = vec![*n0.decision_header()];
    let mut results = Vec::new();
    match p.process_message(&Crypto, &mut h, chained_proposal(0, 0, n0)) {
        Ok(r) => results.push(r),
        Err(_) => panic!("unexpected error"),
    }
    for v in 1..4u32 {
        let prev = headers[(v - 1) as usize];
        let justify = qc_for(v - 1, prev);
        let node = ChainedDecisionNode::create_leaf(SeqNo(v), &prev, Digest { high: 0, low: 100 + v as u128 }, vec![], justify);
        headers.push(*node.decision_header());
        match p.process_message(&Crypto, &mut h, chained_proposal(v, v, node)) {
            Ok(r) => results.push(r),
            Err(_) => panic!("unexpected error"),
        }
    }
    // The first three proposals are voted for and reported without completing anything.
    for r in &results[0..3] {
        match r {
            IronChainResult::ProgressedDecision(v) => {
                assert_eq!(v.len(), 1);
                assert!(matches!(v[0], IronChainDecision::Info { .. }));
            }
            _ => panic!("expected a vote to be reported"),
        }
    }
    // The fourth one completes the chain over the first node.
    match &results[3] {
        IronChainResult::ProgressedDecision(v) => {
            assert_eq!(v.len(), 2);
            assert!(matches!(&v[0], IronChainDecision::Info { seq: SeqNo(3), .. }));
            match &v[1] {
                IronChainDecision::Completed { seq, decision } => {
                    assert_eq!(*seq, SeqNo(0));
                    assert_eq!(decision.batch_digest, Digest { high: 0, low: 100 });
                    assert_eq!(decision.client_commands.len(), 1);
                    assert_eq!(decision.client_commands[0].message, Req(42));
                    assert_eq!(
                        decision.client_rq_infos,
                        vec![ClientRqInfo::new(Digest::blank(), NodeId(8), SeqNo(42), SeqNo(3))]
                    );
                }
                _ => panic!("expected the first decision to complete"),
            }
        }
        _ => panic!("expected progress"),
    }
    assert_eq!(p.sequence_number(), SeqNo(1));
    assert_eq!(p.decision_list.len(), 4);
    // The window moved on by one: the decisions of views 1 and 2 moved forward.
    assert_eq!(p.decision_list[0].sequence_number(), SeqNo(1));
    assert_eq!(p.decision_list[0].state(), ChainedDecisionState::Commit);
    assert_eq!(p.decision_list[1].state(), ChainedDecisionState::PreCommit);
    assert_eq!(p.decision_list[3].sequence_number(), SeqNo(4));
    assert_eq!(p.decision_list[3].state(), ChainedDecisionState::Prepare(0, false));
    assert!(h.latest_locked_qc_ref().is_some());
    assert!(h.latest_prepare_qc_ref().is_some());
}

#[test]
fn chained_safety_rule() {
    let mut h = ChainedDecisionHandler::new();
    let locked_node = header(2, 20);
    // Without a lock every node is safe.
    assert!(h.safe_node(&header(1, 5), &qc_for(0, header(0, 1))));
    h.install_latest_locked_qc(qc_for(2, locked_node));
    let child = DecisionNodeHeader { previous_block: Some(locked_node.current_block_digest), ..header(3, 30) };
    // A child of the locked node is safe whatever justifies it.
    assert!(h.safe_node(&child, &qc_for(1, header(1, 10))));
    // A node elsewhere is safe only with a justification newer than the lock.
    let stray = DecisionNodeHeader { previous_block: Some(Digest { high: 0, low: 99 }), ..header(3, 31) };
    assert!(h.safe_node(&stray, &qc_for(3, header(3, 99))));
    assert!(!h.safe_node(&stray, &qc_for(2, header(2, 99))));
    assert!(!h.safe_node(&stray, &qc_for(1, header(1, 99))));
    h.install_latest_prepare_qc(qc_for(3, child));
    assert!(h.latest_prepare_qc_ref().as_ref().unwrap().equals(&qc_for(3, child)));
    assert!(h.latest_locked_qc_ref().as_ref().unwrap().equals(&qc_for(2, locked_node)));
}
