use hot_iron_ox::crypto::{CryptoProvider, CryptoSignatureCombiner};
use hot_iron_ox::decision_tree::{DecisionNode, Header, SessionBased, StoredMessage};
use hot_iron_ox::decisions::decision::{
    DecisionAction, DecisionError, DecisionFinalizationResult, DecisionPollResult, DecisionResult,
    DecisionState, HSDecision,
};
use hot_iron_ox::decisions::log::{MsgLeaderDecisionLog, NewViewGenerateError, VoteStoreError};
use hot_iron_ox::decisions::req_aggr::ReqAggregator;
use hot_iron_ox::decisions::{DecisionHandler, QCType, QC};
use hot_iron_ox::messages::{
    HotFeOxMsg, HotFeOxMsgType, ProposalMessage, ProposalType, VoteMessage, VoteType,
};
use hot_iron_ox::ordering::{CombinedSignature, Digest, NodeId, PartialSignature, SeqNo};
use hot_iron_ox::view::View;

#[derive(Clone, Debug)]
struct BlankProtocol;

impl SessionBased for BlankProtocol {
    fn spec_sequence_number(&self) -> SeqNo {
        SeqNo(0)
    }

    fn spec_session_number(&self) -> SeqNo {
        SeqNo(0)
    }

    fn sequence_number(&self) -> SeqNo {
        SeqNo(0)
    }

    fn session_number(&self) -> SeqNo {
        SeqNo(0)
    }
}

struct MockCrypto {
    fail: bool,
}

impl CryptoSignatureCombiner for MockCrypto {
    type CombinationError = String;

    fn combined(
        &self,
        _signatures: vstd::seq::Seq<(NodeId, vstd::seq::Seq<u8>)>,
    ) -> Option<vstd::seq::Seq<u8>> {
        None
    }

    fn combine_signatures(
        &self,
        signatures: &[(NodeId, PartialSignature)],
    ) -> Result<CombinedSignature, String> {
        if self.fail {
            return Err(String::from("cannot combine"));
        }
        let mut bytes = Vec::new();
        for (_, sig) in signatures {
            bytes.extend_from_slice(&sig.bytes);
        }
        Ok(CombinedSignature::new(bytes))
    }
}

impl CryptoProvider for MockCrypto {}

struct RQAggr;

impl ReqAggregator<BlankProtocol> for RQAggr {
    fn take_pool_requests(&self) -> (Vec<StoredMessage<BlankProtocol>>, Digest) {
        (vec![], Digest::blank())
    }
}

const NODE_COUNT: u32 = 4;

struct Scenario {
    nodes: Vec<NodeId>,
    decision: HSDecision<BlankProtocol>,
    handler: DecisionHandler,
    crypto: MockCrypto,
    rq_aggr: RQAggr,
}

fn setup_scenario(node_id: NodeId) -> Scenario {
    let nodes = (0..NODE_COUNT).map(NodeId).collect::<Vec<_>>();
    let view = View::new_from_quorum(SeqNo(0), nodes.clone());
    Scenario {
        nodes,
        decision: HSDecision::new(view, node_id),
        handler: DecisionHandler::new(),
        crypto: MockCrypto { fail: false },
        rq_aggr: RQAggr,
    }
}

fn signature_of(node: NodeId) -> PartialSignature {
    PartialSignature::new(vec![node.0 as u8])
}

fn vote_message(node: NodeId, seq: SeqNo, vote: VoteType) -> HotFeOxMsg<BlankProtocol> {
    HotFeOxMsg::new(seq, HotFeOxMsgType::Vote(VoteMessage::new(vote, signature_of(node))))
}

fn proposal_message(seq: SeqNo, proposal: ProposalType<BlankProtocol>) -> HotFeOxMsg<BlankProtocol> {
    HotFeOxMsg::new(seq, HotFeOxMsgType::Proposal(ProposalMessage::new(proposal)))
}

fn stored(from: NodeId, to: NodeId, message: HotFeOxMsg<BlankProtocol>) -> StoredMessage<HotFeOxMsg<BlankProtocol>> {
    StoredMessage::new(Header { from, to, digest: Digest::blank() }, message)
}

fn deliver(
    scenario: &mut Scenario,
    create_message: &dyn Fn(NodeId) -> HotFeOxMsg<BlankProtocol>,
    target: NodeId,
    from: &[NodeId],
) -> Vec<DecisionResult<BlankProtocol>> {
    from.iter()
        .map(|node| {
            let message = stored(*node, target, create_message(*node));
            scenario
                .decision
                .process_message(message, &mut scenario.handler, &scenario.crypto, &scenario.rq_aggr)
                .unwrap()
        })
        .collect()
}

fn non_leaders(scenario: &Scenario) -> Vec<NodeId> {
    let leader = scenario.decision.view().primary();
    scenario.nodes.iter().copied().filter(|n| *n != leader).collect()
}

fn current_header(scenario: &Scenario) -> hot_iron_ox::decision_tree::DecisionNodeHeader {
    *scenario
        .decision
        .decision_log()
        .current_proposal()
        .as_ref()
        .unwrap()
        .decision_header()
}

fn new_view_decision_messages(scenario: &mut Scenario) -> Vec<DecisionResult<BlankProtocol>> {
    let leader = scenario.decision.view().primary();
    let seq = scenario.decision.sequence_number();
    let targets = non_leaders(scenario);
    deliver(scenario, &|n| vote_message(n, seq, VoteType::NewView(None)), leader, &targets)
}

fn phase_vote_messages(
    scenario: &mut Scenario,
    vote: fn(hot_iron_ox::decision_tree::DecisionNodeHeader) -> VoteType,
) -> Vec<DecisionResult<BlankProtocol>> {
    let leader = scenario.decision.view().primary();
    let seq = scenario.decision.sequence_number();
    let header = current_header(scenario);
    let targets = non_leaders(scenario);
    deliver(scenario, &|n| vote_message(n, seq, vote(header)), leader, &targets)
}

fn count_plain_progress(results: &[DecisionResult<BlankProtocol>]) -> usize {
    results
        .iter()
        .filter(|r| matches!(r, DecisionResult::DecisionProgressed(None, None, _)))
        .count()
}

fn count_certified(results: &[DecisionResult<BlankProtocol>]) -> usize {
    results
        .iter()
        .filter(|r| matches!(r, DecisionResult::DecisionProgressed(Some(_), _, _)))
        .count()
}

#[test]
fn assert_queued_when_init() {
    let mut scenario = setup_scenario(NodeId(0));
    let leader = scenario.decision.view().primary();
    let seq = scenario.decision.view().sequence_number();
    let targets = non_leaders(&scenario);
    let results = deliver(&mut scenario, &|n| vote_message(n, seq, VoteType::NewView(None)), leader, &targets);
    assert!(results.iter().all(|r| matches!(r, DecisionResult::MessageQueued)));
}

#[test]
fn test_new_view_leader() {
    let mut scenario = setup_scenario(NodeId(0));
    let quorum = scenario.decision.view().quorum();
    scenario.decision.set_current_state(DecisionState::Prepare(false, 0));

    let results = new_view_decision_messages(&mut scenario);

    assert_eq!(
        quorum,
        results
            .iter()
            .filter(|r| matches!(r, DecisionResult::DecisionProgressed(..)))
            .count()
    );
    assert!(matches!(scenario.decision.current_state, DecisionState::PreCommit(_, _)));
}

#[test]
fn test_pre_commit_phase() {
    let mut scenario = setup_scenario(NodeId(0));
    let quorum = scenario.decision.view().quorum();
    scenario.decision.set_current_state(DecisionState::Prepare(false, 0));
    let _ = new_view_decision_messages(&mut scenario);

    let results = phase_vote_messages(&mut scenario, VoteType::PrepareVote);

    assert_eq!(quorum - 1, count_plain_progress(&results));
    assert_eq!(1, count_certified(&results));
    assert!(matches!(scenario.decision.current_state, DecisionState::Commit(_, _)));
}

#[test]
fn test_commit_phase() {
    let mut scenario = setup_scenario(NodeId(0));
    let quorum = scenario.decision.view().quorum();
    scenario.decision.set_current_state(DecisionState::Prepare(false, 0));
    let _ = new_view_decision_messages(&mut scenario);
    let _ = phase_vote_messages(&mut scenario, VoteType::PrepareVote);

    let results = phase_vote_messages(&mut scenario, VoteType::PreCommitVote);

    assert_eq!(quorum - 1, count_plain_progress(&results));
    assert_eq!(1, count_certified(&results));
    assert!(matches!(scenario.decision.current_state, DecisionState::Decide(_, _)));
}

#[test]
fn test_decide_phase() {
    let mut scenario = setup_scenario(NodeId(0));
    let quorum = scenario.decision.view().quorum();
    scenario.decision.set_current_state(DecisionState::Prepare(false, 0));
    let _ = new_view_decision_messages(&mut scenario);
    let _ = phase_vote_messages(&mut scenario, VoteType::PrepareVote);
    let _ = phase_vote_messages(&mut scenario, VoteType::PreCommitVote);

    let results = phase_vote_messages(&mut scenario, VoteType::CommitVote);

    assert_eq!(quorum - 1, count_plain_progress(&results));
    assert_eq!(
        1,
        results
            .iter()
            .filter(|r| matches!(r, DecisionResult::Decided(..)))
            .count()
    );
    assert!(matches!(scenario.decision.current_state, DecisionState::Finally));
}

/// The leader's log after every replica sent a new view vote, and the root
/// node it proposes with the certificate built from those votes.
fn mock_leader_decision_log_new_view(
    scenario: &mut Scenario,
    decision_log: &mut MsgLeaderDecisionLog,
) -> (DecisionNode<BlankProtocol>, QC) {
    let (rqs, digest) = scenario.rq_aggr.take_pool_requests();
    let decision = DecisionNode::create_root_leaf(scenario.decision.view(), digest, rqs);
    for node in scenario.nodes.iter() {
        let msg = VoteMessage::new(VoteType::NewView(None), signature_of(*node));
        decision_log.new_view_store().accept_new_view(*node, msg).unwrap();
    }
    let qc = decision_log
        .new_view_store()
        .create_new_qc(&scenario.crypto, decision.decision_header())
        .unwrap();
    (decision, qc)
}

fn prepare_proposal_messages(
    scenario: &mut Scenario,
    decision_log: &mut MsgLeaderDecisionLog,
) -> Vec<DecisionResult<BlankProtocol>> {
    let leader = scenario.decision.view().primary();
    let seq = scenario.decision.sequence_number();
    let (node, qc) = mock_leader_decision_log_new_view(scenario, decision_log);
    scenario.decision.set_current_state(DecisionState::Prepare(false, 0));
    deliver(
        scenario,
        &|_| proposal_message(seq, ProposalType::Prepare(node.clone(), qc.clone())),
        NodeId(2),
        &[leader],
    )
}

fn mock_pre_commit(scenario: &Scenario, dec_log: &mut MsgLeaderDecisionLog) -> QC {
    let leader = scenario.decision.view().primary();
    let header = current_header(scenario);
    for node in scenario.nodes.iter().filter(|n| **n != leader) {
        let msg = VoteMessage::new(VoteType::PrepareVote(header), signature_of(*node));
        dec_log.accept_vote(*node, msg).unwrap();
    }
    dec_log
        .generate_qc(&scenario.crypto, scenario.decision.view(), QCType::PrepareVote)
        .unwrap()
}

fn pre_commit_proposal_messages(
    scenario: &mut Scenario,
    decision_log: &mut MsgLeaderDecisionLog,
) -> Vec<DecisionResult<BlankProtocol>> {
    let leader = scenario.decision.view().primary();
    let seq = scenario.decision.sequence_number();
    let qc = mock_pre_commit(scenario, decision_log);
    deliver(
        scenario,
        &|_| proposal_message(seq, ProposalType::PreCommit(qc.clone())),
        NodeId(2),
        &[leader],
    )
}

#[test]
fn test_replica_new_view() {
    let mut scenario = setup_scenario(NodeId(2));
    let mut msg_decision_log = MsgLeaderDecisionLog::new();

    let results = prepare_proposal_messages(&mut scenario, &mut msg_decision_log);

    assert_eq!(
        1,
        results
            .iter()
            .filter(|r| matches!(r, DecisionResult::DecisionProgressed(..)))
            .count()
    );
    assert!(matches!(scenario.decision.current_state, DecisionState::PreCommit(_, _)));
}

#[test]
fn test_prepare_proposal() {
    let mut scenario = setup_scenario(NodeId(2));
    let mut msg_decision_log = MsgLeaderDecisionLog::new();

    prepare_proposal_messages(&mut scenario, &mut msg_decision_log);
    let results = pre_commit_proposal_messages(&mut scenario, &mut msg_decision_log);

    assert_eq!(1, count_certified(&results));
    assert!(matches!(scenario.decision.current_state, DecisionState::Commit(_, _)));
}

#[test]
fn replica_votes_for_the_leaders_proposal() {
    let mut scenario = setup_scenario(NodeId(2));
    let mut log = MsgLeaderDecisionLog::new();
    prepare_proposal_messages(&mut scenario, &mut log);
    let header = current_header(&scenario);
    let actions = scenario.decision.take_actions();
    assert_eq!(actions.len(), 1);
    match &actions[0] {
        DecisionAction::SendVote { view_seq, vote_type, target } => {
            assert_eq!(*view_seq, SeqNo(0));
            assert_eq!(*target, NodeId(0));
            assert!(matches!(vote_type, VoteType::PrepareVote(h) if *h == header));
        }
        _ => panic!("expected a vote"),
    }
    assert!(scenario.handler.latest_prepare_qc.is_some());
}

#[test]
fn poll_of_fresh_decision_sends_new_view() {
    let mut scenario = setup_scenario(NodeId(1));
    let r = scenario.decision.poll(&scenario.handler);
    assert!(matches!(r, DecisionPollResult::Recv));
    assert!(matches!(scenario.decision.current_state, DecisionState::Prepare(false, 0)));
    let actions = scenario.decision.take_actions();
    assert_eq!(actions.len(), 1);
    assert!(matches!(
        &actions[0],
        DecisionAction::SendVote { view_seq: SeqNo(0), vote_type: VoteType::NewView(None), target: NodeId(0) }
    ));
}

#[test]
fn poll_hands_out_queued_messages_in_order() {
    let mut scenario = setup_scenario(NodeId(0));
    let seq = scenario.decision.sequence_number();
    let header = hot_iron_ox::decision_tree::DecisionNodeHeader {
        view_no: SeqNo(0),
        previous_block: None,
        current_block_digest: Digest::blank(),
        contained_client_commands: 0,
    };
    let queued = deliver(&mut scenario, &|n| vote_message(n, seq, VoteType::PrepareVote(header)), NodeId(0), &[NodeId(1), NodeId(2)]);
    assert!(queued.iter().all(|r| matches!(r, DecisionResult::MessageQueued)));
    let _ = scenario.decision.poll(&scenario.handler);
    match scenario.decision.poll(&scenario.handler) {
        DecisionPollResult::NextMessage(m) => assert_eq!(m.header.from, NodeId(1)),
        _ => panic!("expected a queued message"),
    }
    match scenario.decision.poll(&scenario.handler) {
        DecisionPollResult::NextMessage(m) => assert_eq!(m.header.from, NodeId(2)),
        _ => panic!("expected a queued message"),
    }
    assert!(matches!(scenario.decision.poll(&scenario.handler), DecisionPollResult::Recv));
}

#[test]
fn message_of_other_view_is_ignored() {
    let mut scenario = setup_scenario(NodeId(0));
    scenario.decision.set_current_state(DecisionState::Prepare(false, 0));
    let results = deliver(&mut scenario, &|n| vote_message(n, SeqNo(5), VoteType::NewView(None)), NodeId(0), &[NodeId(1)]);
    assert!(matches!(results[0], DecisionResult::MessageIgnored));
    assert!(matches!(scenario.decision.current_state, DecisionState::Prepare(false, 0)));

    let mut init = setup_scenario(NodeId(0));
    let results = deliver(&mut init, &|n| vote_message(n, SeqNo(5), VoteType::NewView(None)), NodeId(0), &[NodeId(1)]);
    assert!(matches!(results[0], DecisionResult::MessageIgnored));
}

#[test]
fn proposal_from_non_leader_is_ignored() {
    let mut scenario = setup_scenario(NodeId(2));
    let mut log = MsgLeaderDecisionLog::new();
    let (node, qc) = mock_leader_decision_log_new_view(&mut scenario, &mut log);
    scenario.decision.set_current_state(DecisionState::Prepare(false, 0));
    let results = deliver(
        &mut scenario,
        &|_| proposal_message(SeqNo(0), ProposalType::Prepare(node.clone(), qc.clone())),
        NodeId(2),
        &[NodeId(3)],
    );
    assert!(matches!(results[0], DecisionResult::MessageIgnored));
    assert!(matches!(scenario.decision.current_state, DecisionState::Prepare(false, 0)));
}

#[test]
fn duplicate_vote_is_reported() {
    let mut scenario = setup_scenario(NodeId(0));
    scenario.decision.set_current_state(DecisionState::Prepare(false, 0));
    let _ = new_view_decision_messages(&mut scenario);
    let header = current_header(&scenario);
    let leader = NodeId(0);
    let results = deliver(
        &mut scenario,
        &|n| vote_message(n, SeqNo(0), VoteType::PrepareVote(header)),
        leader,
        &[NodeId(1), NodeId(1)],
    );
    assert!(matches!(results[0], DecisionResult::DecisionProgressed(None, None, _)));
    assert!(matches!(results[1], DecisionResult::DuplicateVote(NodeId(1))));
}

#[test]
fn failed_combination_of_new_views_is_an_error() {
    let mut scenario = setup_scenario(NodeId(0));
    scenario.crypto = MockCrypto { fail: true };
    scenario.decision.set_current_state(DecisionState::Prepare(false, 0));
    let seq = scenario.decision.sequence_number();
    let mut errors = 0;
    for n in [NodeId(1), NodeId(2), NodeId(3)] {
        let message = stored(n, NodeId(0), vote_message(n, seq, VoteType::NewView(None)));
        match scenario
            .decision
            .process_message(message, &mut scenario.handler, &scenario.crypto, &scenario.rq_aggr)
        {
            Err(DecisionError::NewViewGenerateError(NewViewGenerateError::FailedToCombinePartialSignatures(_))) => {
                errors += 1
            }
            Ok(DecisionResult::DecisionProgressed(None, None, _)) => {}
            _ => panic!("unexpected result"),
        }
    }
    assert_eq!(errors, 1);
    assert!(scenario.decision.take_actions().is_empty());
}

#[test]
fn failed_combination_of_phase_votes_is_an_error() {
    let mut scenario = setup_scenario(NodeId(0));
    scenario.decision.set_current_state(DecisionState::Prepare(false, 0));
    let _ = new_view_decision_messages(&mut scenario);
    scenario.crypto = MockCrypto { fail: true };
    let header = current_header(&scenario);
    let mut errors = 0;
    for n in [NodeId(1), NodeId(2), NodeId(3)] {
        let message = stored(n, NodeId(0), vote_message(n, SeqNo(0), VoteType::PrepareVote(header)));
        match scenario
            .decision
            .process_message(message, &mut scenario.handler, &scenario.crypto, &scenario.rq_aggr)
        {
            Err(DecisionError::VoteStoreError(VoteStoreError::FailedToCreateCombinedSignature(_))) => errors += 1,
            Ok(DecisionResult::DecisionProgressed(None, None, _)) => {}
            _ => panic!("unexpected result"),
        }
    }
    assert_eq!(errors, 1);
}

#[test]
fn finished_decision_ignores_messages_and_finalizes() {
    let mut scenario = setup_scenario(NodeId(0));
    scenario.decision.set_current_state(DecisionState::Prepare(false, 0));
    let _ = new_view_decision_messages(&mut scenario);
    let _ = phase_vote_messages(&mut scenario, VoteType::PrepareVote);
    let _ = phase_vote_messages(&mut scenario, VoteType::PreCommitVote);
    let _ = phase_vote_messages(&mut scenario, VoteType::CommitVote);
    let header = current_header(&scenario);
    assert!(scenario.handler.latest_qc.is_some());
    assert_eq!(scenario.decision.can_be_finalized(), DecisionFinalizationResult::Finalized);

    let results = deliver(&mut scenario, &|n| vote_message(n, SeqNo(0), VoteType::CommitVote(header)), NodeId(0), &[NodeId(1)]);
    assert!(matches!(results[0], DecisionResult::MessageIgnored));
    assert!(matches!(scenario.decision.poll(&scenario.handler), DecisionPollResult::Decided));

    let decided = scenario.decision.finalize_decision();
    assert_eq!(decided.sequence_number(), SeqNo(0));
    assert_eq!(decided.batch_digest, header.current_block_digest);
    assert!(decided.client_commands.is_empty());
}

#[test]
fn next_view_ends_the_decision() {
    let mut scenario = setup_scenario(NodeId(1));
    scenario.decision.next_view_received();
    assert_eq!(scenario.decision.can_be_finalized(), DecisionFinalizationResult::NextView);
    let results = deliver(&mut scenario, &|n| vote_message(n, SeqNo(0), VoteType::NewView(None)), NodeId(1), &[NodeId(2)]);
    assert!(matches!(results[0], DecisionResult::MessageIgnored));
}

#[test]
fn replica_votes_once_per_decision() {
    let mut scenario = setup_scenario(NodeId(2));
    let mut log = MsgLeaderDecisionLog::new();
    let first = prepare_proposal_messages(&mut scenario, &mut log);
    assert!(matches!(first[0], DecisionResult::DecisionProgressed(..)));
    let _ = scenario.decision.take_actions();
    let mut other_log = MsgLeaderDecisionLog::new();
    let (node, qc) = mock_leader_decision_log_new_view(&mut scenario, &mut other_log);
    let again = deliver(
        &mut scenario,
        &|_| proposal_message(SeqNo(0), ProposalType::Prepare(node.clone(), qc.clone())),
        NodeId(2),
        &[NodeId(0)],
    );
    assert!(matches!(again[0], DecisionResult::MessageIgnored));
    assert!(scenario.decision.take_actions().is_empty());
    assert!(matches!(scenario.decision.current_state, DecisionState::PreCommit(false, 0)));
}

#[test]
fn leader_proposal_carries_the_combined_votes() {
    let mut scenario = setup_scenario(NodeId(0));
    scenario.decision.set_current_state(DecisionState::Prepare(false, 0));
    let _ = new_view_decision_messages(&mut scenario);
    let header = current_header(&scenario);
    let actions = scenario.decision.take_actions();
    assert_eq!(actions.len(), 2);
    match &actions[1] {
        DecisionAction::SendVote { view_seq, vote_type, target } => {
            assert_eq!(*view_seq, SeqNo(0));
            assert_eq!(*target, NodeId(0));
            assert!(matches!(vote_type, VoteType::PrepareVote(h) if *h == header));
        }
        _ => panic!("expected the leader's own vote"),
    }
    match &actions[0] {
        DecisionAction::Broadcast { message, targets } => {
            assert_eq!(targets.len(), 4);
            match &message.message {
                HotFeOxMsgType::Proposal(p) => match &p.proposal_type {
                    ProposalType::Prepare(node, qc) => {
                        assert_eq!(*node.decision_header(), header);
                        assert_eq!(qc.decision_node, header);
                        assert_eq!(qc.qc_type, QCType::PrepareVote);
                        let mut bytes = qc.signature.bytes.clone();
                        bytes.sort();
                        assert_eq!(bytes, vec![1, 2, 3]);
                    }
                    _ => panic!("expected a prepare proposal"),
                },
                _ => panic!("expected a proposal"),
            }
        }
        _ => panic!("expected a broadcast"),
    }
}

#[test]
fn replica_keeps_the_commands_of_the_proposal() {
    let mut scenario = setup_scenario(NodeId(2));
    let command = StoredMessage::new(Header { from: NodeId(9), to: NodeId(0), digest: Digest::blank() }, BlankProtocol);
    let node = DecisionNode::create_root_leaf(scenario.decision.view(), Digest::blank(), vec![command]);
    let mut log = MsgLeaderDecisionLog::new();
    for n in scenario.nodes.clone() {
        let msg = VoteMessage::new(VoteType::NewView(None), signature_of(n));
        log.new_view_store().accept_new_view(n, msg).unwrap();
    }
    let qc = log.new_view_store().create_new_qc(&scenario.crypto, node.decision_header()).unwrap();
    scenario.decision.set_current_state(DecisionState::Prepare(false, 0));
    let results = deliver(
        &mut scenario,
        &|_| proposal_message(SeqNo(0), ProposalType::Prepare(node.clone(), qc.clone())),
        NodeId(2),
        &[NodeId(0)],
    );
    assert!(matches!(results[0], DecisionResult::DecisionProgressed(None, Some(_), _)));
    let stored_node = scenario.decision.decision_log().current_proposal().as_ref().unwrap();
    assert_eq!(stored_node.client_commands().len(), 1);
    assert_eq!(stored_node.client_commands()[0].header.from, NodeId(9));
}

#[test]
fn leader_takes_part_in_its_own_round() {
    let mut scenario = setup_scenario(NodeId(0));
    scenario.decision.set_current_state(DecisionState::Prepare(false, 0));
    let _ = new_view_decision_messages(&mut scenario);
    let header = current_header(&scenario);
    assert!(scenario.handler.latest_prepare_qc.is_some());
    let _ = scenario.decision.take_actions();

    let _ = phase_vote_messages(&mut scenario, VoteType::PrepareVote);
    let prepare_qc = scenario.handler.latest_prepare_qc.clone().unwrap();
    assert_eq!(prepare_qc.qc_type, QCType::PrepareVote);
    assert_eq!(prepare_qc.decision_node, header);
    let actions = scenario.decision.take_actions();
    assert_eq!(actions.len(), 2);
    assert!(matches!(&actions[0], DecisionAction::Broadcast { .. }));
    assert!(matches!(
        &actions[1],
        DecisionAction::SendVote { vote_type: VoteType::PreCommitVote(h), target: NodeId(0), .. } if *h == header
    ));

    let _ = phase_vote_messages(&mut scenario, VoteType::PreCommitVote);
    let locked = scenario.handler.latest_locked_qc.clone().unwrap();
    assert_eq!(locked.qc_type, QCType::PreCommitVote);
    let actions = scenario.decision.take_actions();
    assert!(matches!(
        &actions[1],
        DecisionAction::SendVote { vote_type: VoteType::CommitVote(h), target: NodeId(0), .. } if *h == header
    ));

    // The leader's own votes count like every other vote.
    let own = stored(NodeId(0), NodeId(0), vote_message(NodeId(0), SeqNo(0), VoteType::CommitVote(header)));
    let r = scenario
        .decision
        .process_message(own, &mut scenario.handler, &scenario.crypto, &scenario.rq_aggr)
        .unwrap();
    assert!(matches!(r, DecisionResult::DecisionProgressed(None, None, _)));
}
