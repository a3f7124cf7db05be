use hot_iron_ox::crypto::{CryptoProvider, CryptoSignatureCombiner};
use hot_iron_ox::decision_tree::{ClientRqInfo, DecisionNodeHeader, Header, SessionBased, StoredMessage};
use hot_iron_ox::decisions::decision::{DecisionAction, DecisionFinalizationResult, DecisionPollResult, DecisionResult, DecisionState};
use hot_iron_ox::decisions::hotstuff::{HotIronDecision, HotIronPollResult, HotIronResult, HotStuffProtocol};
use hot_iron_ox::decisions::req_aggr::ReqAggregator;
use hot_iron_ox::decisions::DecisionHandler;
use hot_iron_ox::hot_iron::decision::HSDecision as IronDecision;
use hot_iron_ox::hot_iron::msg_queue::{HotStuffTBOQueue, ProposalTypes, VoteTypes};
use hot_iron_ox::messages::{HotFeOxMsg, HotFeOxMsgType, ProposalMessage, ProposalType, VoteMessage, VoteType};
use hot_iron_ox::ordering::{CombinedSignature, Digest, NodeId, PartialSignature, SeqNo};
use hot_iron_ox::view::View;

#[derive(Clone, Debug, PartialEq)]
struct Request(u32);

impl SessionBased for Request {
    fn spec_sequence_number(&self) -> SeqNo {
        SeqNo(self.0)
    }

    fn spec_session_number(&self) -> SeqNo {
        SeqNo(2)
    }

    fn sequence_number(&self) -> SeqNo {
        SeqNo(self.0)
    }

    fn session_number(&self) -> SeqNo {
        SeqNo(2)
    }
}

struct Crypto;

impl CryptoSignatureCombiner for Crypto {
    type CombinationError = ();

    fn combined(
        &self,
        _signatures: vstd::seq::Seq<(NodeId, vstd::seq::Seq<u8>)>,
    ) -> Option<vstd::seq::Seq<u8>> {
        None
    }

    fn combine_signatures(&self, signatures: &[(NodeId, PartialSignature)]) -> Result<CombinedSignature, ()> {
        Ok(CombinedSignature::new(signatures.iter().map(|(n, _)| n.0 as u8).collect()))
    }
}

impl CryptoProvider for Crypto {}

struct Pool {
    digest: Digest,
}

impl ReqAggregator<Request> for Pool {
    fn take_pool_requests(&self) -> (Vec<StoredMessage<Request>>, Digest) {
        let header = Header { from: NodeId(9), to: NodeId(0), digest: self.digest };
        (vec![StoredMessage::new(header, Request(7))], self.digest)
    }
}

fn members() -> Vec<NodeId> {
    (0..4).map(NodeId).collect()
}

fn vote(from: NodeId, to: NodeId, seq: SeqNo, v: VoteType) -> StoredMessage<HotFeOxMsg<Request>> {
    StoredMessage::new(
        Header { from, to, digest: Digest::blank() },
        HotFeOxMsg::new(seq, HotFeOxMsgType::Vote(VoteMessage::new(v, PartialSignature::new(vec![from.0 as u8])))),
    )
}

fn take_broadcast(actions: Vec<DecisionAction<Request>>) -> HotFeOxMsg<Request> {
    actions
        .into_iter()
        .filter_map(|a| match a {
            DecisionAction::Broadcast { message, .. } => Some(message),
            _ => None,
        })
        .last()
        .unwrap()
}

fn own(leader: NodeId, message: HotFeOxMsg<Request>) -> StoredMessage<HotFeOxMsg<Request>> {
    StoredMessage::new(Header { from: leader, to: leader, digest: Digest::blank() }, message)
}

fn proposal_header(p: &HotStuffProtocol<Request, Pool>) -> DecisionNodeHeader {
    *p.decisions[0].decision_log.current_proposal().as_ref().unwrap().decision_header()
}

#[test]
fn hotstuff_protocol_decides_and_moves_on() {
    let view = View::new_from_quorum(SeqNo(0), members());
    let mut p = HotStuffProtocol::new(view, NodeId(0), Pool { digest: Digest { high: 1, low: 2 } }).unwrap();
    assert_eq!(p.decisions.len(), 1);
    assert_eq!(p.sequence_number(), SeqNo(0));

    // The first poll starts the decision: the new view vote goes to the leader.
    assert!(matches!(p.poll(), HotIronPollResult::ReceiveMsg));
    assert!(matches!(p.decisions[0].current_state, DecisionState::Prepare(false, 0)));
    let _ = p.decisions[0].take_actions();

    let mut reports = Vec::new();
    for n in 1..4 {
        reports.push(p.process_message(vote(NodeId(n), NodeId(0), SeqNo(0), VoteType::NewView(None)), &Crypto).unwrap());
    }
    assert!(matches!(&reports[0], HotIronResult::ProgressedDecision(d) if matches!(d[0], HotIronDecision::MessageInfo { seq: SeqNo(0), .. })));
    assert!(matches!(&reports[2], HotIronResult::ProgressedDecision(d) if matches!(&d[0], HotIronDecision::PartialInfo { seq: SeqNo(0), qcs, .. } if qcs.len() == 1)));

    // The leader moves on by itself once it proposed: each quorum of votes
    // makes it broadcast the next proposal, until the commit votes decide.
    let phases: [fn(DecisionNodeHeader) -> VoteType; 3] = [VoteType::PrepareVote, VoteType::PreCommitVote, VoteType::CommitVote];
    let mut block = Digest::blank();
    let mut last = None;
    for make_vote in phases {
        let h = proposal_header(&p);
        block = h.current_block_digest;
        for n in 1..4 {
            last = Some(p.process_message(vote(NodeId(n), NodeId(0), SeqNo(0), make_vote(h)), &Crypto).unwrap());
        }
    }
    assert!(p.decision_handler.latest_qc.is_some());
    let last = last.unwrap();
    match last {
        HotIronResult::ProgressedDecision(ds) => {
            assert_eq!(ds.len(), 2);
            match &ds[0] {
                HotIronDecision::Completed { seq, decision } => {
                    assert_eq!(*seq, SeqNo(0));
                    assert_eq!(decision.batch_digest, block);
                    assert_eq!(decision.client_commands.len(), 1);
                    assert_eq!(decision.client_commands[0].message, Request(7));
                    assert_eq!(
                        decision.client_rq_infos,
                        vec![ClientRqInfo::new(Digest { high: 1, low: 2 }, NodeId(9), SeqNo(7), SeqNo(2))]
                    );
                }
                _ => panic!("expected the completed decision first"),
            }
            assert!(matches!(&ds[1], HotIronDecision::PartialInfo { seq: SeqNo(0), .. }));
        }
        _ => panic!("expected progress"),
    }
    assert_eq!(p.sequence_number(), SeqNo(1));
    assert_eq!(p.view().primary(), NodeId(1));
    assert_eq!(p.decisions.len(), 1);
    assert_eq!(p.decisions[0].sequence_number(), SeqNo(1));
    assert!(matches!(p.decisions[0].current_state, DecisionState::Init));
}

#[test]
fn hotstuff_protocol_drops_past_messages() {
    let view = View::new_from_quorum(SeqNo(3), members());
    let mut p = HotStuffProtocol::new(view, NodeId(1), Pool { digest: Digest::blank() }).unwrap();
    let r = p.process_message(vote(NodeId(2), NodeId(3), SeqNo(1), VoteType::NewView(None)), &Crypto).unwrap();
    assert!(matches!(r, HotIronResult::MessageDropped));
    p.queue(vote(NodeId(2), NodeId(3), SeqNo(1), VoteType::NewView(None)));
    assert!(!p.decisions[0].decision_queue.should_poll());
}

#[test]
fn hotstuff_protocol_queues_and_polls() {
    let view = View::new_from_quorum(SeqNo(0), members());
    let mut p = HotStuffProtocol::new(view, NodeId(2), Pool { digest: Digest::blank() }).unwrap();
    let header = DecisionNodeHeader {
        view_no: SeqNo(0),
        previous_block: None,
        current_block_digest: Digest::blank(),
        contained_client_commands: 0,
    };
    let r = p.process_message(vote(NodeId(3), NodeId(2), SeqNo(0), VoteType::PrepareVote(header)), &Crypto).unwrap();
    assert!(matches!(r, HotIronResult::MessageQueued));
    p.queue(vote(NodeId(1), NodeId(2), SeqNo(0), VoteType::PrepareVote(header)));
    // The first poll starts the decision and consumes the signal.
    assert!(matches!(p.poll(), HotIronPollResult::ReceiveMsg));
    assert!(matches!(p.poll(), HotIronPollResult::ReceiveMsg));
    // Queueing signals the decision again: its messages come out in order.
    p.queue(vote(NodeId(0), NodeId(2), SeqNo(0), VoteType::PrepareVote(header)));
    for from in [3, 1, 0] {
        match p.poll() {
            HotIronPollResult::Exec(m) => assert_eq!(m.header.from, NodeId(from)),
            _ => panic!("expected a queued message"),
        }
    }
    assert!(matches!(p.poll(), HotIronPollResult::ReceiveMsg));
}

#[test]
fn hotstuff_protocol_installs_sequence_and_view() {
    let view = View::new_from_quorum(SeqNo(0), members());
    let mut p = HotStuffProtocol::<Request, Pool>::new(view, NodeId(2), Pool { digest: Digest::blank() }).unwrap();
    p.install_view(View::new_from_quorum(SeqNo(2), members()));
    assert_eq!(p.sequence_number(), SeqNo(2));
    assert_eq!(p.decisions.len(), 1);
    p.install_seq_no(SeqNo(5));
    assert_eq!(p.sequence_number(), SeqNo(5));
    assert_eq!(p.view().primary(), NodeId(1));
    assert_eq!(p.decisions.len(), 0);
    assert!(p.finalize_decisions().is_empty());
}

fn iron_step(d: &mut IronDecision<Request>, h: &mut DecisionHandler, m: StoredMessage<HotFeOxMsg<Request>>) -> DecisionResult<Request> {
    d.process_message(m, h, &Crypto, &Pool { digest: Digest::blank() }).unwrap()
}

fn iron_broadcast(d: &mut IronDecision<Request>) -> HotFeOxMsg<Request> {
    take_broadcast(d.take_actions())
}

#[test]
fn iron_decision_runs_all_phases() {
    let view = View::new_from_quorum(SeqNo(0), members());
    let mut d: IronDecision<Request> = IronDecision::new(view, NodeId(0));
    let mut h = DecisionHandler::new();
    assert!(matches!(d.poll(&h), DecisionPollResult::Recv));
    assert!(matches!(d.current_state(), DecisionState::Prepare(false, 0)));
    let _ = d.take_actions();

    let r: Vec<_> = (1..4).map(|n| iron_step(&mut d, &mut h, vote(NodeId(n), NodeId(0), SeqNo(0), VoteType::NewView(None)))).collect();
    assert!(r.iter().all(|x| matches!(x, DecisionResult::DecisionProgressed(None, None, _))));
    assert!(matches!(d.current_state(), DecisionState::Prepare(true, 3)));
    // A vote after the proposal went out is counted and ignored.
    assert!(matches!(
        iron_step(&mut d, &mut h, vote(NodeId(3), NodeId(0), SeqNo(0), VoteType::NewView(None))),
        DecisionResult::MessageIgnored
    ));
    assert!(matches!(d.current_state(), DecisionState::Prepare(true, 4)));

    let phases: [fn(DecisionNodeHeader) -> VoteType; 3] = [VoteType::PrepareVote, VoteType::PreCommitVote, VoteType::CommitVote];
    let reached = [DecisionState::PreCommit(false, 0), DecisionState::Commit(false, 0), DecisionState::Decide(false, 0)];
    for (make_vote, state) in phases.into_iter().zip(reached) {
        let proposal = iron_broadcast(&mut d);
        let r = iron_step(&mut d, &mut h, own(NodeId(0), proposal));
        assert!(matches!(r, DecisionResult::DecisionProgressed(Some(_), _, _)));
        assert_eq!(d.current_state(), state);
        let header = *d.decision_log().current_proposal().as_ref().unwrap().decision_header();
        for n in 1..4 {
            iron_step(&mut d, &mut h, vote(NodeId(n), NodeId(0), SeqNo(0), make_vote(header)));
        }
    }
    let decide = iron_broadcast(&mut d);
    let r = iron_step(&mut d, &mut h, own(NodeId(0), decide));
    assert!(matches!(r, DecisionResult::Decided(Some(_), _)));
    assert_eq!(d.current_state(), DecisionState::Finally);
    assert_eq!(d.can_be_finalized(), DecisionFinalizationResult::Finalized);
    assert!(matches!(d.poll(&h), DecisionPollResult::Decided));
    let decided = d.finalize_decision();
    assert_eq!(decided.seq, SeqNo(0));
}

#[test]
fn iron_decision_ignores_strangers_and_other_views() {
    let view = View::new_from_quorum(SeqNo(0), members());
    let mut d: IronDecision<Request> = IronDecision::new(view, NodeId(2));
    let mut h = DecisionHandler::new();
    assert!(matches!(
        iron_step(&mut d, &mut h, vote(NodeId(1), NodeId(2), SeqNo(4), VoteType::NewView(None))),
        DecisionResult::MessageIgnored
    ));
    assert!(matches!(
        iron_step(&mut d, &mut h, vote(NodeId(1), NodeId(2), SeqNo(0), VoteType::NewView(None))),
        DecisionResult::MessageQueued
    ));
    let _ = d.poll(&h);
    let header = DecisionNodeHeader {
        view_no: SeqNo(0),
        previous_block: None,
        current_block_digest: Digest::blank(),
        contained_client_commands: 0,
    };
    let qc = hot_iron_ox::decisions::QC::new(
        hot_iron_ox::decisions::QCType::PrepareVote,
        SeqNo(0),
        header,
        CombinedSignature::new(vec![]),
    );
    let stranger = StoredMessage::new(
        Header { from: NodeId(3), to: NodeId(2), digest: Digest::blank() },
        HotFeOxMsg::new(SeqNo(0), HotFeOxMsgType::Proposal(ProposalMessage::new(ProposalType::PreCommit(qc)))),
    );
    assert!(matches!(iron_step(&mut d, &mut h, stranger), DecisionResult::MessageIgnored));
    assert!(matches!(d.current_state(), DecisionState::Prepare(false, 0)));
    d.next_view_received();
    assert_eq!(d.can_be_finalized(), DecisionFinalizationResult::NextView);
}

#[test]
fn iron_queue_hands_out_by_kind() {
    let mut q: HotStuffTBOQueue<Request> = HotStuffTBOQueue::new();
    assert!(!q.should_poll());
    q.queue_message(vote(NodeId(1), NodeId(0), SeqNo(0), VoteType::NewView(None)));
    q.queue_message(vote(NodeId(2), NodeId(0), SeqNo(0), VoteType::NewView(None)));
    assert!(q.should_poll());
    assert!(q.get_message_for_type(true, ProposalTypes::Prepare, VoteTypes::PrepareVote).is_none());
    let first = q.get_message_for_type(true, ProposalTypes::Prepare, VoteTypes::NewView).unwrap();
    assert_eq!(first.header.from, NodeId(1));
    let second = q.get_message_for(true, &DecisionState::Prepare(false, 0)).unwrap();
    assert_eq!(second.header.from, NodeId(2));
    assert!(q.get_message_for(true, &DecisionState::Prepare(false, 0)).is_none());
    // Outside the four phases nothing is handed out.
    q.queue_message(vote(NodeId(3), NodeId(0), SeqNo(0), VoteType::NewView(None)));
    assert!(q.get_message_for(false, &DecisionState::Init).is_none());
    assert!(!q.should_poll());
    let third = q.get_message_for(false, &DecisionState::Prepare(false, 0)).unwrap();
    assert_eq!(third.header.from, NodeId(3));
}
