use hot_iron_ox::decision_tree::{ClientRqInfo, DecisionNode, DecisionNodeHeader, Header, SessionBased, StoredMessage};
use hot_iron_ox::decisions::decision_proof::{Proof, ProofFromStorageError};
use hot_iron_ox::decisions::hotstuff::Signals;
use hot_iron_ox::decisions::log::{
    DecisionLog, DecisionLogType, LeaderDecisionLog, MsgDecisionLog, MsgLeaderDecisionLog, MsgReplicaDecisionLog,
    ReplicaDecisionLog,
};
use hot_iron_ox::decisions::{DecisionHandler, QCType, QC};
use hot_iron_ox::loggable_protocol::{
    decompose_proof, get_requests_in_proof, get_type_for_message, init_proof_from, message_types, PROPOSAL_PREPARE,
    VOTE_NEW_VIEW,
};
use hot_iron_ox::messages::serialize::HotIronOxSer;
use hot_iron_ox::messages::{HotFeOxMsg, HotFeOxMsgType, ProposalMessage, ProposalType, VoteMessage, VoteType};
use hot_iron_ox::ordering::{
    bytes_eq, copy_bytes, CombinedSignature, Digest, InvalidSeqNo, NodeId, PartialSignature, SeqNo,
};
use hot_iron_ox::view::leader_allocation::{LeaderAllocator, RoundRobinLA};
use hot_iron_ox::view::View;
use hot_iron_ox::vote_table::VoteTable;
use hot_iron_ox::{get_f_for_n, get_n_for_f, get_quorum_for_n};

#[derive(Clone, Debug, PartialEq)]
struct Req(u8);

impl SessionBased for Req {
    fn spec_sequence_number(&self) -> SeqNo {
        SeqNo(self.0 as u32)
    }

    fn spec_session_number(&self) -> SeqNo {
        SeqNo(5)
    }

    fn sequence_number(&self) -> SeqNo {
        SeqNo(self.0 as u32)
    }

    fn session_number(&self) -> SeqNo {
        SeqNo(5)
    }
}

fn members(n: u32) -> Vec<NodeId> {
    (0..n).map(NodeId).collect()
}

fn digest(v: u128) -> Digest {
    Digest { high: 0, low: v }
}

fn header(view: u32, prev: Option<Digest>, d: u128) -> DecisionNodeHeader {
    DecisionNodeHeader {
        view_no: SeqNo(view),
        previous_block: prev,
        current_block_digest: digest(d),
        contained_client_commands: 0,
    }
}

fn qc(t: QCType, view: u32, node: DecisionNodeHeader) -> QC {
    QC::new(t, SeqNo(view), node, CombinedSignature::new(vec![1, 2, 3]))
}

#[test]
fn tolerance_formulas() {
    assert_eq!(get_n_for_f(1), 4);
    assert_eq!(get_n_for_f(0), 1);
    assert_eq!(get_n_for_f(3), 10);
    assert_eq!(get_f_for_n(4), 1);
    assert_eq!(get_f_for_n(6), 1);
    assert_eq!(get_f_for_n(7), 2);
    assert_eq!(get_f_for_n(1), 0);
    assert_eq!(get_quorum_for_n(4), 3);
    assert_eq!(get_quorum_for_n(7), 5);
    assert_eq!(get_quorum_for_n(1), 1);
}

#[test]
fn tolerance_round_trip_on_values() {
    for f in 0..20usize {
        let n = get_n_for_f(f);
        assert_eq!(get_f_for_n(n), f);
        assert_eq!(get_quorum_for_n(n), 2 * f + 1);
        assert_eq!(2 * get_quorum_for_n(n) - n, f + 1);
        assert!(get_quorum_for_n(n) + get_f_for_n(n) <= n);
    }
}

#[test]
fn sequence_numbers() {
    assert_eq!(SeqNo::zero(), SeqNo(0));
    assert_eq!(SeqNo(4).next(), SeqNo(5));
    assert_eq!(SeqNo(u32::MAX).next(), SeqNo(0));
    assert_eq!(SeqNo(7).index(SeqNo(3)), Ok(4));
    assert_eq!(SeqNo(3).index(SeqNo(7)), Err(InvalidSeqNo::Small));
    assert_eq!(SeqNo(9).into_u32(), 9);
    assert!(SeqNo(5).is_after(SeqNo(4)));
    assert!(!SeqNo(4).is_after(SeqNo(4)));
}

#[test]
fn byte_helpers() {
    assert!(bytes_eq(&vec![1, 2], &vec![1, 2]));
    assert!(!bytes_eq(&vec![1, 2], &vec![1, 3]));
    assert!(!bytes_eq(&vec![1], &vec![1, 2]));
    assert_eq!(copy_bytes(&vec![4, 5, 6]), vec![4, 5, 6]);
    let s = PartialSignature::new(vec![9]);
    assert_eq!(s.duplicate().bytes, vec![9]);
    let c = CombinedSignature::new(vec![7, 8]);
    assert!(c.equals(&c.duplicate()));
    assert!(!c.equals(&CombinedSignature::new(vec![7])));
}

#[test]
fn round_robin_views() {
    let v = View::new_from_quorum(SeqNo(0), members(4));
    assert_eq!(v.primary(), NodeId(0));
    assert_eq!(v.quorum(), 3);
    assert_eq!(v.f(), 1);
    assert_eq!(v.n(), 4);
    assert_eq!(v.quorum_members(), &members(4));
    let v5 = v.with_new_seq(SeqNo(5));
    assert_eq!(v5.sequence_number(), SeqNo(5));
    assert_eq!(v5.primary(), NodeId(1));
    let v6 = v5.next_view();
    assert_eq!(v6.sequence_number(), SeqNo(6));
    assert_eq!(v6.primary(), NodeId(2));
    let d = v6.duplicate();
    assert_eq!(d.primary(), NodeId(2));
    assert_eq!(RoundRobinLA::allocate_leader_from(&members(7), SeqNo(10)), NodeId(3));
    let w = View::new_from_quorum_with_leader_allocator::<RoundRobinLA>(SeqNo(3), members(4));
    assert_eq!(w.primary(), NodeId(3));
    let explicit = View::new(SeqNo(2), members(4), NodeId(1), 1);
    assert_eq!(explicit.primary(), NodeId(1));
}

#[test]
fn signals_pop_lowest_first() {
    let mut s = Signals::new();
    assert_eq!(s.pop_signalled(), None);
    s.push_signalled(SeqNo(5));
    s.push_signalled(SeqNo(2));
    s.push_signalled(SeqNo(9));
    s.push_signalled(SeqNo(2));
    assert_eq!(s.pop_signalled(), Some(SeqNo(2)));
    assert_eq!(s.pop_signalled(), Some(SeqNo(5)));
    s.push_signalled(SeqNo(1));
    assert_eq!(s.pop_signalled(), Some(SeqNo(1)));
    assert_eq!(s.pop_signalled(), Some(SeqNo(9)));
    assert_eq!(s.pop_signalled(), None);
    s.push_signalled(SeqNo(3));
    s.clear();
    assert_eq!(s.pop_signalled(), None);
}

#[test]
fn vote_table_counts_each_voter_once() {
    let mut t: VoteTable<DecisionNodeHeader> = VoteTable::new();
    let a = header(0, None, 1);
    let b = header(1, Some(digest(1)), 2);
    assert!(t.insert_vote(a, NodeId(1), PartialSignature::new(vec![1])));
    assert!(t.insert_vote(a, NodeId(2), PartialSignature::new(vec![2])));
    assert!(!t.insert_vote(a, NodeId(1), PartialSignature::new(vec![3])));
    assert!(t.insert_vote(b, NodeId(1), PartialSignature::new(vec![4])));
    assert_eq!(t.len(), 2);
    let ia = t.find(&a).unwrap();
    assert_eq!(t.count_at(ia), 2);
    assert_eq!(*t.key(ia), a);
    assert!(t.has_vote(&a, NodeId(2)));
    assert!(!t.has_vote(&b, NodeId(2)));
    assert_eq!(t.max_votes_index(), Some(ia));
    assert_eq!(t.find(&header(3, None, 3)), None);
    let votes = t.votes_at(ia);
    let mut voters: Vec<u32> = votes.iter().map(|(n, _)| n.0).collect();
    voters.sort();
    assert_eq!(voters, vec![1, 2]);
    assert_eq!(t.insert_vote_if_absent(a, NodeId(3), PartialSignature::new(vec![5])), Some(3));
    assert_eq!(t.insert_vote_if_absent(a, NodeId(3), PartialSignature::new(vec![5])), None);
}

#[test]
fn decision_nodes_chain_their_blocks() {
    let view = View::new_from_quorum(SeqNo(2), members(4));
    let root = DecisionNode::<Req>::create_root_leaf(&view, digest(10), vec![]);
    assert_eq!(root.decision_header().previous_block(), None);
    assert_eq!(root.sequence_number(), SeqNo(2));
    assert!(!root.has_previous());
    let cmd = StoredMessage::new(Header { from: NodeId(1), to: NodeId(0), digest: digest(3) }, Req(42));
    let leaf = DecisionNode::create_leaf(root.decision_header(), digest(11), vec![cmd]);
    assert_eq!(leaf.decision_header().previous_block(), Some(digest(10)));
    assert_eq!(leaf.decision_header().contained_client_commands(), 1);
    assert_eq!(leaf.sequence_number(), SeqNo(3));
    assert!(leaf.extends_from(root.decision_header()));
    assert!(root.extends_from(leaf.decision_header()));
    let stray = DecisionNode::<Req>::create_leaf(&header(0, None, 99), digest(13), vec![]);
    assert!(!stray.extends_from(root.decision_header()));
    assert_eq!(leaf.duplicate().client_commands().len(), 1);
    let (h, cmds) = leaf.into_parts();
    assert_eq!(h.current_block_digest(), digest(11));
    assert_eq!(cmds[0].message, Req(42));
    let h2 = DecisionNodeHeader::initialize_header_from_previous(digest(12), &h, 4);
    assert_eq!(h2.view_no(), SeqNo(4));
    assert_eq!(h2.previous_block(), Some(digest(11)));
}

#[test]
fn safe_node_rule_of_handler() {
    let mut h = DecisionHandler::new();
    let root = DecisionNode::<Req>::create_root_leaf(&View::new_from_quorum(SeqNo(0), members(4)), digest(1), vec![]);
    let q0 = qc(QCType::PrepareVote, 0, *root.decision_header());
    assert!(h.safe_node(&root, &q0));
    h.install_latest_qc(qc(QCType::CommitVote, 0, *root.decision_header()));
    assert!(!h.safe_node(&root, &q0));
    let leaf = DecisionNode::<Req>::create_leaf(root.decision_header(), digest(2), vec![]);
    assert!(h.safe_node(&leaf, &qc(QCType::PrepareVote, 1, *leaf.decision_header())));
    assert!(!h.safe_node(&leaf, &qc(QCType::PrepareVote, 0, *leaf.decision_header())));
    let other = DecisionNode::<Req>::create_leaf(&header(0, None, 99), digest(3), vec![]);
    assert!(!h.safe_node(&other, &qc(QCType::PrepareVote, 1, *other.decision_header())));
    assert!(h.latest_qc().is_some());
    h.install_latest_prepare_qc(q0.duplicate());
    h.install_latest_locked_qc(q0.duplicate());
    assert!(h.latest_prepare_qc().as_ref().unwrap().equals(&q0));
    assert!(h.latest_locked_qc().as_ref().unwrap().equals(&q0));
}

fn prepare_proposal(node: DecisionNode<Req>, q: QC) -> StoredMessage<HotFeOxMsg<Req>> {
    StoredMessage::new(
        Header { from: NodeId(0), to: NodeId(1), digest: digest(0) },
        HotFeOxMsg::new(SeqNo(0), HotFeOxMsgType::Proposal(ProposalMessage::new(ProposalType::Prepare(node, q)))),
    )
}

fn a_vote() -> StoredMessage<HotFeOxMsg<Req>> {
    StoredMessage::new(
        Header { from: NodeId(2), to: NodeId(0), digest: digest(0) },
        HotFeOxMsg::new(
            SeqNo(0),
            HotFeOxMsgType::Vote(VoteMessage::new(VoteType::NewView(None), PartialSignature::new(vec![2]))),
        ),
    )
}

#[test]
fn proof_from_storage() {
    let view = View::new_from_quorum(SeqNo(0), members(4));
    let node = DecisionNode::<Req>::create_root_leaf(&view, digest(5), vec![]);
    let h = *node.decision_header();
    let q1 = qc(QCType::PrepareVote, 0, h);
    let q2 = qc(QCType::CommitVote, 0, h);

    let none = Proof::<Req>::new_from_storage(h, vec![q1.duplicate()], vec![a_vote()]);
    assert_eq!(none.err(), Some(ProofFromStorageError::FailedToObtainPrepareProposal));

    let other = header(0, None, 6);
    let wrong = Proof::new_from_storage(other, vec![], vec![a_vote(), prepare_proposal(node.duplicate(), q1.duplicate())]);
    assert_eq!(wrong.err(), Some(ProofFromStorageError::MissMatchingDecisionHeader));

    let proof = Proof::new_from_storage(
        h,
        vec![q1.duplicate(), q2.duplicate()],
        vec![a_vote(), prepare_proposal(node.duplicate(), q1.duplicate())],
    )
    .unwrap();
    assert_eq!(proof.sequence_number(), SeqNo(0));
    assert_eq!(*proof.decision_node().decision_header(), h);
    assert_eq!(proof.qcs().len(), 2);
    assert_eq!(proof.messages().len(), 2);
    assert_eq!(proof.contained_messages(), 2);
    let copy = proof.duplicate();
    assert_eq!(copy.qcs().len(), 2);

    let direct = Proof::new(node, vec![q1, q2], vec![]);
    assert_eq!(direct.qcs().len(), 2);
    assert_eq!(direct.contained_messages(), 0);
}

#[test]
fn received_messages_pass_the_wire_check() {
    let m = a_vote();
    assert_eq!(HotIronOxSer::<Req>::internally_verify_message(&m.header, &m.message), Ok(()));
    let view = View::new_from_quorum(SeqNo(0), members(4));
    let node = DecisionNode::<Req>::create_root_leaf(&view, digest(5), vec![]);
    let q = qc(QCType::PrepareVote, 0, *node.decision_header());
    let p = prepare_proposal(node, q);
    assert_eq!(HotIronOxSer::<Req>::internally_verify_message(&p.header, &p.message), Ok(()));
}

#[test]
fn basic_protocol_log_helpers() {
    assert_eq!(
        message_types(),
        vec![
            "VOTE-NEW-VIEW",
            "PROPOSAL-PREPARE",
            "VOTE-PREPARE",
            "PROPOSAL-PRE-COMMIT",
            "VOTE-PRE-COMMIT",
            "PROPOSAL-COMMIT",
            "VOTE-COMMIT",
            "PROPOSAL-DECIDE",
        ]
    );
    assert_eq!(get_type_for_message(&a_vote().message), VOTE_NEW_VIEW);
    let view = View::new_from_quorum(SeqNo(3), members(4));
    let cmd = StoredMessage::new(Header { from: NodeId(5), to: NodeId(3), digest: digest(77) }, Req(9));
    let node = DecisionNode::create_root_leaf(&view, digest(8), vec![cmd]);
    let h = *node.decision_header();
    let q = qc(QCType::CommitVote, 3, h);
    let proposal = prepare_proposal(node.duplicate(), qc(QCType::PrepareVote, 3, h));
    assert_eq!(get_type_for_message(&proposal.message), PROPOSAL_PREPARE);

    assert_eq!(
        init_proof_from::<Req>(h, vec![], vec![a_vote()]).err(),
        Some(ProofFromStorageError::FailedToObtainPrepareProposal)
    );
    let proof = init_proof_from(h, vec![q.duplicate()], vec![a_vote(), proposal]).unwrap();
    let (dh, qcs, msgs) = decompose_proof(&proof);
    assert_eq!(dh, h);
    assert_eq!(qcs.len(), 1);
    assert!(qcs[0].equals(&q));
    assert_eq!(msgs.len(), 2);
    assert_eq!(msgs[0].header.from, NodeId(2));

    let decision = get_requests_in_proof(&proof);
    assert_eq!(decision.seq, SeqNo(3));
    assert_eq!(decision.batch_digest, digest(8));
    assert_eq!(decision.client_commands.len(), 1);
    assert_eq!(decision.client_commands[0].message, Req(9));
    assert_eq!(decision.client_rq_infos, vec![ClientRqInfo::new(digest(77), NodeId(5), SeqNo(9), SeqNo(5))]);
    assert_eq!(decision.client_commands[0].header.digest, digest(77));
}

#[test]
fn decision_logs_by_role() {
    let h = header(0, None, 1);
    let mut replica = MsgDecisionLog::Replica(MsgReplicaDecisionLog::new());
    assert!(replica.as_mut_leader().is_none());
    assert!(replica.as_leader().is_none());
    replica.as_mut_replica().unwrap().prepare_qc = Some(qc(QCType::PrepareVote, 0, h));
    assert!(replica.as_replica().unwrap().prepare_qc().is_some());
    assert!(replica.as_replica().unwrap().locked_qc().is_none());

    let mut leader = MsgDecisionLog::Leader(MsgLeaderDecisionLog::new());
    assert!(leader.as_mut_replica().is_none());
    assert!(leader.as_mut_leader().is_some());

    let mut log: DecisionLog<Req> =
        DecisionLog::new(DecisionLogType::Leader(LeaderDecisionLog::new(), ReplicaDecisionLog::new()));
    log.as_mut_replica().set_locked_qc(qc(QCType::CommitVote, 0, h));
    log.as_mut_leader().set_commit_qc(qc(QCType::CommitVote, 0, h));
    assert!(log.as_replica().locked_qc.is_some());
    assert!(log.as_leader().commit_qc.is_some());
    assert!(log.as_leader().prepare_qc.is_none());
    assert!(log.current_proposal().is_none());
}
