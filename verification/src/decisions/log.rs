//! The logs of a decision: the votes a leader gathers for each phase, the new
//! view votes it starts from, and the certificates replicas keep.
use crate::crypto::{combine_partial_signatures, shares_combine_to, CryptoProvider, CryptoSignatureCombiner};
use crate::decision_tree::{DecisionNode, DecisionNodeHeader};
use crate::decisions::{opt_qc_rank, opt_qc_view, QCType, QCView, QC};
use crate::messages::{ProposalMessage, ProposalType, VoteMessage, VoteType};
use crate::ordering::{spec_next_seq, NodeId, PartialSignature, SeqNo};
use crate::view::View;
use crate::vote_table::{has_voted, vote_count, votes_match, with_vote, VoteKey, VoteTable};
use vstd::prelude::*;
use vstd::view::View as _;

verus! {

/// The log of votes for a given decision instance
pub enum MsgDecisionLog {
    Leader(MsgLeaderDecisionLog),
    Replica(MsgReplicaDecisionLog),
}

/// The certificates a leader produced in a decision.
pub struct LeaderDecisionLog {
    pub prepare_qc: Option<QC>,
    pub pre_commit_qc: Option<QC>,
    pub commit_qc: Option<QC>,
}

/// The certificates a replica received in a decision.
pub struct ReplicaDecisionLog {
    pub prepare_qc: Option<QC>,
    pub locked_qc: Option<QC>,
}

/// A leader keeps both the certificates it produced and those it received
/// as a replica of its own proposals.
pub enum DecisionLogType {
    Leader(LeaderDecisionLog, ReplicaDecisionLog),
    Replica(ReplicaDecisionLog),
}

pub struct DecisionLog<D> {
    pub current_proposal: Option<DecisionNode<D>>,
    pub decision_log_type: DecisionLogType,
}

/// The votes for each node in one phase.
pub struct VoteStore {
    pub vote_type: QCType,
    pub decision_nodes: VoteTable<DecisionNodeHeader>,
}

/// The new view votes, by the certificate each voter reported.
pub struct NewViewStore {
    pub new_view: VoteTable<Option<QC>>,
}

pub struct MsgLeaderDecisionLog {
    pub high_qc: NewViewStore,
    pub prepare_qc: VoteStore,
    pub pre_commit_qc: VoteStore,
    pub commit_qc: VoteStore,
}

pub struct MsgReplicaDecisionLog {
    pub prepare_qc: Option<QC>,
    pub locked_qc: Option<QC>,
}

#[derive(Debug)]
pub enum DecisionError {
    PrepareCertificateEmpty,
}

#[derive(Debug)]
pub enum VoteStoreError<CS> {
    NoDecisionNode,
    FailedToCreateCombinedSignature(CS),
}

#[derive(Debug, Clone, Copy, PartialEq, Eq, Structural)]
pub enum VoteAcceptError {
    NewViewVoteNotAcceptable,
}

#[derive(Debug, Clone, Copy, PartialEq, Eq, Structural)]
pub enum ProposalAcceptError {
    PrepareProposalNotAcceptable,
}

#[derive(Debug, Clone, Copy, PartialEq, Eq, Structural)]
pub enum NewViewAcceptError {
    WrongMessageType,
}

#[derive(Debug)]
pub enum NewViewGenerateError<CS> {
    FailedToGenerateHighQC,
    FailedToCombinePartialSignatures(CS),
    NotEnoughVotes,
}

impl MsgDecisionLog {
    pub fn as_replica(&self) -> (r: Option<&MsgReplicaDecisionLog>)
        ensures
            match self {
                MsgDecisionLog::Replica(l) => r == Some(l),
                MsgDecisionLog::Leader(_) => r is None,
            },
    {
        match self {
            MsgDecisionLog::Replica(replica) => Some(replica),
            _ => None,
        }
    }

    pub fn as_leader(&self) -> (r: Option<&MsgLeaderDecisionLog>)
        ensures
            match self {
                MsgDecisionLog::Leader(l) => r == Some(l),
                MsgDecisionLog::Replica(_) => r is None,
            },
    {
        match self {
            MsgDecisionLog::Leader(leader) => Some(leader),
            _ => None,
        }
    }

    /// The replica log, to change in place, when this is one.
    pub fn as_mut_replica(&mut self) -> (r: Option<&mut MsgReplicaDecisionLog>)
        ensures
            match *old(self) {
                MsgDecisionLog::Replica(l) => r is Some && *r->0 == l && *final(self) == MsgDecisionLog::Replica(
                    *final(r->0),
                ),
                MsgDecisionLog::Leader(_) => r is None && *final(self) == *old(self),
            },
    {
        match self {
            MsgDecisionLog::Replica(replica) => Some(replica),
            _ => None,
        }
    }

    /// The leader log, to change in place, when this is one.
    pub fn as_mut_leader(&mut self) -> (r: Option<&mut MsgLeaderDecisionLog>)
        ensures
            match *old(self) {
                MsgDecisionLog::Leader(l) => r is Some && *r->0 == l && *final(self) == MsgDecisionLog::Leader(
                    *final(r->0),
                ),
                MsgDecisionLog::Replica(_) => r is None && *final(self) == *old(self),
            },
    {
        match self {
            MsgDecisionLog::Leader(leader) => Some(leader),
            _ => None,
        }
    }
}

impl ReplicaDecisionLog {
    pub fn new() -> (l: ReplicaDecisionLog)
        ensures
            l.prepare_qc is None,
            l.locked_qc is None,
    {
        ReplicaDecisionLog { prepare_qc: None, locked_qc: None }
    }

    pub fn set_prepare_qc(&mut self, qc: QC)
        ensures
            opt_qc_view(final(self).prepare_qc) == Some(qc@),
            final(self).locked_qc == old(self).locked_qc,
    {
        self.prepare_qc = Some(qc);
    }

    pub fn set_locked_qc(&mut self, qc: QC)
        ensures
            opt_qc_view(final(self).locked_qc) == Some(qc@),
            final(self).prepare_qc == old(self).prepare_qc,
    {
        self.locked_qc = Some(qc);
    }
}

impl LeaderDecisionLog {
    pub fn new() -> (l: LeaderDecisionLog)
        ensures
            l.prepare_qc is None,
            l.pre_commit_qc is None,
            l.commit_qc is None,
    {
        LeaderDecisionLog { prepare_qc: None, pre_commit_qc: None, commit_qc: None }
    }

    pub fn set_prepare_qc(&mut self, qc: QC)
        ensures
            opt_qc_view(final(self).prepare_qc) == Some(qc@),
            final(self).pre_commit_qc == old(self).pre_commit_qc,
            final(self).commit_qc == old(self).commit_qc,
    {
        self.prepare_qc = Some(qc);
    }

    pub fn set_pre_commit_qc(&mut self, qc: QC)
        ensures
            opt_qc_view(final(self).pre_commit_qc) == Some(qc@),
            final(self).prepare_qc == old(self).prepare_qc,
            final(self).commit_qc == old(self).commit_qc,
    {
        self.pre_commit_qc = Some(qc);
    }

    pub fn set_commit_qc(&mut self, qc: QC)
        ensures
            opt_qc_view(final(self).commit_qc) == Some(qc@),
            final(self).prepare_qc == old(self).prepare_qc,
            final(self).pre_commit_qc == old(self).pre_commit_qc,
    {
        self.commit_qc = Some(qc);
    }
}

impl DecisionLogType {
    /// The certificates produced as the leader, for a leader's log.
    pub open spec fn leader_part(self) -> Option<LeaderDecisionLog> {
        match self {
            DecisionLogType::Leader(l, _) => Some(l),
            DecisionLogType::Replica(_) => None,
        }
    }

    /// The certificates received as a replica, which every participant keeps.
    pub open spec fn replica_part(self) -> ReplicaDecisionLog {
        match self {
            DecisionLogType::Leader(_, r) => r,
            DecisionLogType::Replica(r) => r,
        }
    }
}

impl<D> DecisionLog<D> {
    pub fn new(decision_log_type: DecisionLogType) -> (l: DecisionLog<D>)
        ensures
            l.current_proposal is None,
            l.decision_log_type == decision_log_type,
    {
        DecisionLog { current_proposal: None, decision_log_type }
    }

    pub fn current_proposal(&self) -> (p: &Option<DecisionNode<D>>)
        ensures
            *p == self.current_proposal,
    {
        &self.current_proposal
    }

    pub fn set_current_proposal(&mut self, proposal: Option<DecisionNode<D>>)
        ensures
            final(self).current_proposal == proposal,
            final(self).decision_log_type == old(self).decision_log_type,
    {
        self.current_proposal = proposal;
    }

    pub fn into_current_proposal(self) -> (p: Option<DecisionNode<D>>)
        ensures
            p == self.current_proposal,
    {
        self.current_proposal
    }

    pub fn as_replica(&self) -> (r: &ReplicaDecisionLog)
        ensures
            *r == self.decision_log_type.replica_part(),
    {
        match &self.decision_log_type {
            DecisionLogType::Replica(replica) => replica,
            DecisionLogType::Leader(_, replica) => replica,
        }
    }

    pub fn as_leader(&self) -> (r: &LeaderDecisionLog)
        requires
            self.decision_log_type is Leader,
        ensures
            self.decision_log_type matches DecisionLogType::Leader(l, _) && *r == l,
    {
        match &self.decision_log_type {
            DecisionLogType::Leader(leader, _) => leader,
            DecisionLogType::Replica(_) => vstd::pervasive::unreached(),
        }
    }

    /// The certificates received as a replica, to change in place.
    pub fn as_mut_replica(&mut self) -> (r: &mut ReplicaDecisionLog)
        ensures
            *r == old(self).decision_log_type.replica_part(),
            final(self).current_proposal == old(self).current_proposal,
            match old(self).decision_log_type {
                DecisionLogType::Leader(l, _) => final(self).decision_log_type == DecisionLogType::Leader(l, *final(r)),
                DecisionLogType::Replica(_) => final(self).decision_log_type == DecisionLogType::Replica(*final(r)),
            },
    {
        match &mut self.decision_log_type {
            DecisionLogType::Replica(replica) => replica,
            DecisionLogType::Leader(_, replica) => replica,
        }
    }

    /// The certificates the leader produced, to change in place.
    pub fn as_mut_leader(&mut self) -> (r: &mut LeaderDecisionLog)
        requires
            old(self).decision_log_type is Leader,
        ensures
            old(self).decision_log_type matches DecisionLogType::Leader(l, rep) && *r == l
                && final(self).decision_log_type == DecisionLogType::Leader(*final(r), rep),
            final(self).current_proposal == old(self).current_proposal,
    {
        match &mut self.decision_log_type {
            DecisionLogType::Leader(leader, _) => leader,
            DecisionLogType::Replica(_) => vstd::pervasive::unreached(),
        }
    }

    /// Records the prepare certificate received as a replica.
    pub fn set_replica_prepare_qc(&mut self, qc: QC)
        ensures
            opt_qc_view(final(self).decision_log_type.replica_part().prepare_qc) == Some(qc@),
            final(self).decision_log_type.replica_part().locked_qc == old(
                self,
            ).decision_log_type.replica_part().locked_qc,
            final(self).current_proposal == old(self).current_proposal,
            (final(self).decision_log_type is Leader) == (old(self).decision_log_type is Leader),
            final(self).decision_log_type.leader_part() == old(self).decision_log_type.leader_part(),
    {
        match &mut self.decision_log_type {
            DecisionLogType::Replica(replica) => replica.set_prepare_qc(qc),
            DecisionLogType::Leader(_, replica) => replica.set_prepare_qc(qc),
        }
    }

    /// Records the locked certificate received as a replica.
    pub fn set_replica_locked_qc(&mut self, qc: QC)
        ensures
            opt_qc_view(final(self).decision_log_type.replica_part().locked_qc) == Some(qc@),
            final(self).decision_log_type.replica_part().prepare_qc == old(
                self,
            ).decision_log_type.replica_part().prepare_qc,
            final(self).current_proposal == old(self).current_proposal,
            (final(self).decision_log_type is Leader) == (old(self).decision_log_type is Leader),
            final(self).decision_log_type.leader_part() == old(self).decision_log_type.leader_part(),
    {
        match &mut self.decision_log_type {
            DecisionLogType::Replica(replica) => replica.set_locked_qc(qc),
            DecisionLogType::Leader(_, replica) => replica.set_locked_qc(qc),
        }
    }

    /// Records a certificate the leader produced.
    pub fn set_leader_qc(&mut self, qc_type: QCType, qc: QC)
        requires
            old(self).decision_log_type is Leader,
        ensures
            final(self).decision_log_type is Leader,
            final(self).current_proposal == old(self).current_proposal,
            final(self).decision_log_type.replica_part() == old(
                self,
            ).decision_log_type.replica_part(),
            final(self).decision_log_type matches DecisionLogType::Leader(l, _) && match qc_type {
                QCType::PrepareVote => opt_qc_view(l.prepare_qc) == Some(qc@),
                QCType::PreCommitVote => opt_qc_view(l.pre_commit_qc) == Some(qc@),
                QCType::CommitVote => opt_qc_view(l.commit_qc) == Some(qc@),
            },
    {
        match &mut self.decision_log_type {
            DecisionLogType::Leader(leader, _) => match qc_type {
                QCType::PrepareVote => leader.set_prepare_qc(qc),
                QCType::PreCommitVote => leader.set_pre_commit_qc(qc),
                QCType::CommitVote => leader.set_commit_qc(qc),
            },
            DecisionLogType::Replica(_) => {},
        }
    }
}

/// `h` is a node of `store` with the most votes.
pub open spec fn most_voted(store: Map<DecisionNodeHeader, Map<NodeId, Seq<u8>>>, h: DecisionNodeHeader) -> bool {
    &&& store.dom().contains(h)
    &&& forall|k: DecisionNodeHeader| #[trigger] store.dom().contains(k) ==> vote_count(store, k) <= vote_count(store, h)
}

/// What the outcome of generating a certificate from `store` with `crypto`
/// states: an empty store yields no certificate; otherwise the votes of a node
/// with the most votes are combined, and the certificate, of the store's phase
/// and for the given view, carries their combination, or the combination
/// failed on them.
pub open spec fn generated_from<CP: CryptoSignatureCombiner>(
    store: Map<DecisionNodeHeader, Map<NodeId, Seq<u8>>>,
    vote_type: QCType,
    view_seq: SeqNo,
    crypto: CP,
    r: Result<QC, VoteStoreError<CP::CombinationError>>,
) -> bool {
    &&& (r matches Err(VoteStoreError::NoDecisionNode)) <==> store.dom() =~= Set::empty()
    &&& r matches Ok(qc) ==> {
        &&& qc.qc_type == vote_type
        &&& qc.view_seq == view_seq
        &&& most_voted(store, qc.decision_node)
        &&& shares_combine_to(crypto, store[qc.decision_node], Some(qc.signature@))
    }
    &&& r matches Err(VoteStoreError::FailedToCreateCombinedSignature(_)) ==> exists|h: DecisionNodeHeader|
        #[trigger] most_voted(store, h) && shares_combine_to(crypto, store[h], None)
}

impl VoteStore {
    pub open spec fn wf(&self) -> bool {
        self.decision_nodes.wf()
    }

    pub fn new(vote_type: QCType) -> (s: VoteStore)
        ensures
            s.wf(),
            s.vote_type == vote_type,
            s.decision_nodes@ == Map::<DecisionNodeHeader, Map<NodeId, Seq<u8>>>::empty(),
    {
        VoteStore { vote_type, decision_nodes: VoteTable::new() }
    }

    /// Accept a vote received through the protocol; a repeated vote replaces
    /// the signature stored for it.
    /// Returns true if the vote was accepted, false if the vote was already present.
    pub fn accept_vote(
        &mut self,
        voter: NodeId,
        voted_node: DecisionNodeHeader,
        vote_signature: PartialSignature,
    ) -> (accepted: bool)
        requires
            old(self).wf(),
        ensures
            final(self).wf(),
            final(self).vote_type == old(self).vote_type,
            final(self).decision_nodes@ == with_vote(
                old(self).decision_nodes@,
                voted_node,
                voter,
                vote_signature@,
            ),
            accepted == !has_voted(old(self).decision_nodes@, voted_node, voter),
    {
        self.decision_nodes.insert_vote(voted_node, voter, vote_signature)
    }

    /// A certificate for the node with the most votes, signed by its voters.
    pub fn generate_qc<CP: CryptoProvider>(&mut self, crypto_info: &CP, view: &View) -> (r: Result<
        QC,
        VoteStoreError<CP::CombinationError>,
    >)
        requires
            old(self).wf(),
        ensures
            *final(self) == *old(self),
            generated_from(old(self).decision_nodes@, old(self).vote_type, view.spec_seq(), *crypto_info, r),
    {
        match self.decision_nodes.max_votes_index() {
            Some(i) => {
                let node = *self.decision_nodes.key(i);
                let votes = self.decision_nodes.votes_at(i);
                match combine_partial_signatures(crypto_info, votes.as_slice()) {
                    Ok(signature) => {
                        let qc = QC::new(self.vote_type, view.sequence_number(), node, signature);
                        proof {
                            self.decision_nodes.lemma_keys();
                            assert(votes_match(votes@, self.decision_nodes@[node]));
                        }
                        Ok(qc)
                    },
                    Err(err) => {
                        proof {
                            self.decision_nodes.lemma_keys();
                            assert(self.decision_nodes@.dom().contains(node));
                            assert(votes_match(votes@, self.decision_nodes@[node]));
                            assert(most_voted(self.decision_nodes@, node));
                        }
                        Err(VoteStoreError::FailedToCreateCombinedSignature(err))
                    },
                }
            },
            None => Err(VoteStoreError::NoDecisionNode),
        }
    }
}

/// The view number of the certificate a leader derives from the highest new
/// view vote: the view after the reported certificate, or zero without one.
pub open spec fn new_view_qc_seq(high: Option<QCView>) -> SeqNo {
    match high {
        Some(qc) => spec_next_seq(qc.view_seq),
        None => SeqNo(0),
    }
}

/// `high` is a certificate reported by new view votes of `store`, and none
/// reports a newer one.
pub open spec fn highest_reported(store: Map<Option<QCView>, Map<NodeId, Seq<u8>>>, high: Option<QCView>) -> bool {
    &&& store.dom().contains(high)
    &&& forall|k: Option<QCView>| #[trigger] store.dom().contains(k) ==> opt_qc_rank(k) <= opt_qc_rank(high)
}

/// What building the leader's prepare certificate for `header` from the new
/// view votes `store` with `crypto` gives: no certificate without votes;
/// otherwise the votes reporting a highest certificate are combined, and the
/// certificate, for the view after that certificate, carries their
/// combination, or the combination failed on them.
pub open spec fn new_view_qc_from<CP: CryptoSignatureCombiner>(
    store: Map<Option<QCView>, Map<NodeId, Seq<u8>>>,
    header: DecisionNodeHeader,
    crypto: CP,
    r: Result<QC, NewViewGenerateError<CP::CombinationError>>,
) -> bool {
    &&& (r matches Err(NewViewGenerateError::NotEnoughVotes)) <==> store.dom() =~= Set::empty()
    &&& !(r matches Err(NewViewGenerateError::FailedToGenerateHighQC))
    &&& r matches Ok(qc) ==> {
        &&& qc.qc_type == QCType::PrepareVote
        &&& qc.decision_node == header
        &&& exists|high: Option<QCView>| #[trigger] highest_reported(store, high) && qc.view_seq == new_view_qc_seq(high)
            && shares_combine_to(crypto, store[high], Some(qc.signature@))
    }
    &&& r matches Err(NewViewGenerateError::FailedToCombinePartialSignatures(_)) ==> new_view_combination_failed(store, crypto)
}

/// Combining the new view votes reporting a highest certificate failed.
pub open spec fn new_view_combination_failed<CP: CryptoSignatureCombiner>(
    store: Map<Option<QCView>, Map<NodeId, Seq<u8>>>,
    crypto: CP,
) -> bool {
    exists|high: Option<QCView>| #[trigger] highest_reported(store, high) && shares_combine_to(crypto, store[high], None)
}

impl NewViewStore {
    pub open spec fn wf(&self) -> bool {
        self.new_view.wf()
    }

    pub fn new() -> (s: NewViewStore)
        ensures
            s.wf(),
            s.new_view@ == Map::<Option<QCView>, Map<NodeId, Seq<u8>>>::empty(),
    {
        NewViewStore { new_view: VoteTable::new() }
    }

    /// Records a new view vote under the certificate it reports.
    pub fn accept_new_view(&mut self, voter: NodeId, vote_message: VoteMessage) -> (r: Result<
        (),
        NewViewAcceptError,
    >)
        requires
            old(self).wf(),
        ensures
            final(self).wf(),
            match vote_message.vote_type {
                VoteType::NewView(qc) => r is Ok && final(self).new_view@ == with_vote(
                    old(self).new_view@,
                    opt_qc_view(qc),
                    voter,
                    vote_message.signature@,
                ),
                _ => r == Err::<(), _>(NewViewAcceptError::WrongMessageType) && final(self).new_view@
                    == old(self).new_view@,
            },
    {
        let (vote_type, sig) = vote_message.into_inner();
        match vote_type {
            VoteType::NewView(qc) => {
                self.new_view.insert_vote(qc, voter, sig);
                Ok(())
            },
            _ => Err(NewViewAcceptError::WrongMessageType),
        }
    }

    /// The highest certificate reported in the new view votes, if any vote
    /// reported one.
    pub fn get_high_qc(&self) -> (r: Option<&QC>)
        requires
            self.wf(),
        ensures
            match r {
                Some(qc) => self.new_view@.dom().contains(Some(qc@)) && forall|k: Option<QCView>|
                    #[trigger] self.new_view@.dom().contains(k) ==> opt_qc_rank(k) <= opt_qc_rank(
                        Some(qc@),
                    ),
                None => forall|k: Option<QCView>| #[trigger]
                    self.new_view@.dom().contains(k) ==> k is None,
            },
    {
        proof {
            self.new_view.lemma_keys();
        }
        match self.new_view.max_rank_index() {
            Some(i) => {
                let key = self.new_view.key(i);
                match key {
                    Some(qc) => Some(qc),
                    None => {
                        proof {
                            assert forall|k: Option<QCView>| #[trigger]
                                self.new_view@.dom().contains(k) implies k is None by {
                                assert(opt_qc_rank(k) <= 0);
                            }
                        }
                        None
                    },
                }
            },
            None => None,
        }
    }

    /// The prepare certificate a leader proposes with: signed by the voters of
    /// the highest reported certificate, for the view after it.
    pub fn create_new_qc<CP: CryptoProvider>(
        &self,
        crypto_info: &CP,
        decision_node_header: &DecisionNodeHeader,
    ) -> (r: Result<QC, NewViewGenerateError<CP::CombinationError>>)
        requires
            self.wf(),
        ensures
            (r matches Err(NewViewGenerateError::NotEnoughVotes)) <==> self.new_view@.dom()
                =~= Set::empty(),
            r matches Err(NewViewGenerateError::FailedToGenerateHighQC) ==> false,
            new_view_qc_from(self.new_view@, *decision_node_header, *crypto_info, r),
    {
        proof {
            self.new_view.lemma_keys();
        }
        let i = match self.new_view.max_rank_index() {
            Some(i) => i,
            None => {
                return Err(NewViewGenerateError::NotEnoughVotes);
            },
        };
        let ghost high = self.new_view.key_at(i as int);
        let votes = self.new_view.votes_at(i);
        let combined_signature = match combine_partial_signatures(crypto_info, votes.as_slice()) {
            Ok(sig) => sig,
            Err(err) => {
                proof {
                    assert(self.new_view@.dom().contains(high));
                    assert(votes_match(votes@, self.new_view@[high]));
                    assert(highest_reported(self.new_view@, high));
                }
                return Err(NewViewGenerateError::FailedToCombinePartialSignatures(err));
            },
        };
        let view_seq = match self.new_view.key(i) {
            Some(qc) => qc.view_seq.next(),
            None => SeqNo::zero(),
        };
        let qc = QC::new(QCType::PrepareVote, view_seq, *decision_node_header, combined_signature);
        proof {
            assert(self.new_view@.dom().contains(high));
            assert(votes_match(votes@, self.new_view@[high]));
            assert(highest_reported(self.new_view@, high));
        }
        Ok(qc)
    }
}

impl MsgLeaderDecisionLog {
    pub open spec fn wf(&self) -> bool {
        &&& self.high_qc.wf()
        &&& self.prepare_qc.wf()
        &&& self.pre_commit_qc.wf()
        &&& self.commit_qc.wf()
        &&& self.prepare_qc.vote_type == QCType::PrepareVote
        &&& self.pre_commit_qc.vote_type == QCType::PreCommitVote
        &&& self.commit_qc.vote_type == QCType::CommitVote
    }

    /// The store of the votes of the given phase.
    pub open spec fn store_for(&self, qc_type: QCType) -> VoteStore {
        match qc_type {
            QCType::PrepareVote => self.prepare_qc,
            QCType::PreCommitVote => self.pre_commit_qc,
            QCType::CommitVote => self.commit_qc,
        }
    }

    pub fn new() -> (l: MsgLeaderDecisionLog)
        ensures
            l.wf(),
            l.high_qc.new_view@ == Map::<Option<QCView>, Map<NodeId, Seq<u8>>>::empty(),
            forall|t: QCType| #[trigger] l.store_for(t).decision_nodes@ == Map::<
                DecisionNodeHeader,
                Map<NodeId, Seq<u8>>,
            >::empty(),
    {
        let l = MsgLeaderDecisionLog {
            high_qc: NewViewStore::new(),
            prepare_qc: VoteStore::new(QCType::PrepareVote),
            pre_commit_qc: VoteStore::new(QCType::PreCommitVote),
            commit_qc: VoteStore::new(QCType::CommitVote),
        };
        proof {
            assert forall|t: QCType| #[trigger] l.store_for(t).decision_nodes@ == Map::<
                DecisionNodeHeader,
                Map<NodeId, Seq<u8>>,
            >::empty() by {
                match t {
                    QCType::PrepareVote => {},
                    QCType::PreCommitVote => {},
                    QCType::CommitVote => {},
                }
            }
        }
        l
    }

    pub fn new_view_store(&mut self) -> (s: &mut NewViewStore)
        ensures
            *s == old(self).high_qc,
            final(self).high_qc == *final(s),
            final(self).prepare_qc == old(self).prepare_qc,
            final(self).pre_commit_qc == old(self).pre_commit_qc,
            final(self).commit_qc == old(self).commit_qc,
    {
        &mut self.high_qc
    }

    /// Records a phase vote in the store of its phase; new view votes are not
    /// phase votes and are refused.
    pub fn accept_vote(&mut self, sender: NodeId, vote: VoteMessage) -> (r: Result<
        bool,
        VoteAcceptError,
    >)
        requires
            old(self).wf(),
        ensures
            final(self).wf(),
            final(self).high_qc == old(self).high_qc,
            match vote.vote_type {
                VoteType::NewView(_) => r == Err::<bool, _>(
                    VoteAcceptError::NewViewVoteNotAcceptable,
                ) && *final(self) == *old(self),
                VoteType::PrepareVote(n) => accepted_into(
                    *old(self),
                    *final(self),
                    QCType::PrepareVote,
                    n,
                    sender,
                    vote.signature@,
                    r,
                ),
                VoteType::PreCommitVote(n) => accepted_into(
                    *old(self),
                    *final(self),
                    QCType::PreCommitVote,
                    n,
                    sender,
                    vote.signature@,
                    r,
                ),
                VoteType::CommitVote(n) => accepted_into(
                    *old(self),
                    *final(self),
                    QCType::CommitVote,
                    n,
                    sender,
                    vote.signature@,
                    r,
                ),
            },
    {
        let (vote, signature) = vote.into_inner();
        match vote {
            VoteType::NewView(_) => Err(VoteAcceptError::NewViewVoteNotAcceptable),
            VoteType::PrepareVote(vote) => Ok(self.prepare_qc.accept_vote(sender, vote, signature)),
            VoteType::PreCommitVote(vote) => Ok(
                self.pre_commit_qc.accept_vote(sender, vote, signature),
            ),
            VoteType::CommitVote(commit_vote) => Ok(
                self.commit_qc.accept_vote(sender, commit_vote, signature),
            ),
        }
    }

    /// A certificate from the votes of the given phase.
    pub fn generate_qc<CP: CryptoProvider>(
        &mut self,
        crypto_info: &CP,
        view: &View,
        qc_type: QCType,
    ) -> (r: Result<QC, VoteStoreError<CP::CombinationError>>)
        requires
            old(self).wf(),
        ensures
            *final(self) == *old(self),
            generated_from(
                old(self).store_for(qc_type).decision_nodes@,
                qc_type,
                view.spec_seq(),
                *crypto_info,
                r,
            ),
    {
        match qc_type {
            QCType::PrepareVote => self.prepare_qc.generate_qc(crypto_info, view),
            QCType::PreCommitVote => self.pre_commit_qc.generate_qc(crypto_info, view),
            QCType::CommitVote => self.commit_qc.generate_qc(crypto_info, view),
        }
    }
}

/// The vote of `sender` for `node` went into the store of phase `t`, and
/// nothing else changed.
pub open spec fn accepted_into(
    pre: MsgLeaderDecisionLog,
    post: MsgLeaderDecisionLog,
    t: QCType,
    node: DecisionNodeHeader,
    sender: NodeId,
    sig: Seq<u8>,
    r: Result<bool, VoteAcceptError>,
) -> bool {
    &&& r == Ok::<bool, VoteAcceptError>(
        !has_voted(pre.store_for(t).decision_nodes@, node, sender),
    )
    &&& post.store_for(t).decision_nodes@ == with_vote(
        pre.store_for(t).decision_nodes@,
        node,
        sender,
        sig,
    )
    &&& forall|u: QCType| u != t ==> #[trigger] post.store_for(u) == pre.store_for(u)
}

impl MsgReplicaDecisionLog {
    pub fn new() -> (l: MsgReplicaDecisionLog)
        ensures
            l.prepare_qc is None,
            l.locked_qc is None,
    {
        MsgReplicaDecisionLog { prepare_qc: None, locked_qc: None }
    }

    pub fn prepare_qc(&self) -> (q: &Option<QC>)
        ensures
            *q == self.prepare_qc,
    {
        &self.prepare_qc
    }

    pub fn locked_qc(&self) -> (q: &Option<QC>)
        ensures
            *q == self.locked_qc,
    {
        &self.locked_qc
    }

    /// Records the certificate a phase proposal carries: a pre-commit proposal
    /// carries the prepare certificate, a commit proposal the locked one.
    pub fn accept_proposal<D>(&mut self, proposal: ProposalMessage<D>) -> (r: Result<
        (),
        ProposalAcceptError,
    >)
        ensures
            match proposal.proposal_type {
                ProposalType::Prepare(_, _) => r == Err::<(), _>(
                    ProposalAcceptError::PrepareProposalNotAcceptable,
                ) && *final(self) == *old(self),
                ProposalType::PreCommit(qc) => r is Ok && opt_qc_view(final(self).prepare_qc)
                    == Some(qc@) && final(self).locked_qc == old(self).locked_qc,
                ProposalType::Commit(qc) => r is Ok && opt_qc_view(final(self).locked_qc) == Some(
                    qc@,
                ) && final(self).prepare_qc == old(self).prepare_qc,
                ProposalType::Decide(_) => r is Ok && *final(self) == *old(self),
            },
    {
        match proposal.into_proposal_type() {
            ProposalType::Prepare(_, _) => Err(ProposalAcceptError::PrepareProposalNotAcceptable),
            ProposalType::PreCommit(qc) => {
                self.prepare_qc = Some(qc);
                Ok(())
            },
            ProposalType::Commit(locked_qc) => {
                self.locked_qc = Some(locked_qc);
                Ok(())
            },
            ProposalType::Decide(_) => Ok(()),
        }
    }
}

} // verus!
