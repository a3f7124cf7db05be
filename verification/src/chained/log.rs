//! The vote logs of a chained decision: the new view votes its leader
//! gathers, and the votes the leader of the next view gathers for it.
use crate::chained::messages::{justify_rank, NewViewMessage, VoteDetails, VoteDetailsView, VoteMessage};
use crate::chained::{chained_rank, opt_chained_view, ChainedQC, ChainedQCView};
use crate::crypto::{combine_partial_signatures, shares_combine_to, CryptoProvider, CryptoSignatureCombiner};
use crate::ordering::{NodeId, PartialSignature, SeqNo};
use crate::spec_quorum_for_n;
use crate::view::View;
use crate::vote_table::{has_voted, vote_count, votes_match, with_vote, VoteTable};
use vstd::prelude::*;
use vstd::view::View as _;

verus! {

pub enum DecisionLog {
    /// The decision log for the leader
    Leader(NewViewStore),
    NextLeader(VoteStore),
    Replica,
}

/// The new view votes received, by the certificate they report.
pub struct NewViewStore {
    pub new_view: VoteTable<Option<ChainedQC>>,
}

/// The certificate reported by the most recent new view votes, with the
/// signatures of those votes.
pub struct NewViewQCResult {
    pub high_qc: Option<ChainedQC>,
    pub signatures: Vec<(NodeId, PartialSignature)>,
}

/// The votes received for the nodes of a view, and whether the next view was
/// already proposed from them.
pub struct VoteStore {
    pub votes: VoteTable<VoteDetails>,
    pub proposed: bool,
}

#[derive(Debug)]
pub enum NewViewGenerateError<CS> {
    FailedToGenerateHighQC,
    FailedToCombinePartialSignatures(CS),
    NotEnoughVotes,
    FailedToGenerateQC(ChainedQCGenerateError<CS>),
    FailedToGenerateNewViewQC(NewViewQCError),
}

#[derive(Debug)]
pub enum ChainedQCGenerateError<CS> {
    FailedToCombinePartialSignatures(CS),
    NotEnoughVotes,
}

#[derive(Debug, Clone, Copy, PartialEq, Eq, Structural)]
pub enum NewViewQCError {
    NoVotesReceived,
}

impl DecisionLog {
    pub open spec fn wf(&self) -> bool {
        match self {
            DecisionLog::Leader(s) => s.wf(),
            DecisionLog::NextLeader(s) => s.wf(),
            DecisionLog::Replica => true,
        }
    }

    pub fn as_mut_leader(&mut self) -> (l: &mut NewViewStore)
        requires
            *old(self) is Leader,
        ensures
            *l == (*old(self))->Leader_0,
            *final(self) == DecisionLog::Leader(*final(l)),
    {
        match self {
            DecisionLog::Leader(log) => log,
            _ => vstd::pervasive::unreached(),
        }
    }

    pub fn as_mut_next_leader(&mut self) -> (l: &mut VoteStore)
        requires
            *old(self) is NextLeader,
        ensures
            *l == (*old(self))->NextLeader_0,
            *final(self) == DecisionLog::NextLeader(*final(l)),
    {
        match self {
            DecisionLog::NextLeader(log) => log,
            _ => vstd::pervasive::unreached(),
        }
    }
}

/// `high` is reported by some new view vote of `store`, and no vote reports a
/// newer certificate.
pub open spec fn is_high_qc(store: Map<Option<ChainedQCView>, Map<NodeId, Seq<u8>>>, high: Option<ChainedQCView>) -> bool {
    &&& store.dom().contains(high)
    &&& forall|k: Option<ChainedQCView>| #[trigger] store.dom().contains(k) ==> chained_rank(k) <= chained_rank(high)
}

impl NewViewStore {
    pub open spec fn wf(&self) -> bool {
        self.new_view.wf()
    }

    pub fn new() -> (s: NewViewStore)
        ensures
            s.wf(),
            s.new_view@ == Map::<Option<ChainedQCView>, Map<NodeId, Seq<u8>>>::empty(),
    {
        NewViewStore { new_view: VoteTable::new() }
    }

    /// Record the new view vote of `voter`, unless it already voted reporting
    /// the same certificate; returns whether the vote was recorded.
    pub fn accept_new_view(&mut self, voter: NodeId, vote_message: NewViewMessage) -> (r: bool)
        requires
            old(self).wf(),
        ensures
            final(self).wf(),
            r == !has_voted(old(self).new_view@, opt_chained_view(vote_message.qc), voter),
            r ==> final(self).new_view@ == with_vote(
                old(self).new_view@,
                opt_chained_view(vote_message.qc),
                voter,
                vote_message.signature@,
            ),
            !r ==> *final(self) == *old(self),
    {
        let (qc, signature) = vote_message.into_parts();
        match self.new_view.insert_vote_if_absent(qc, voter, signature) {
            Some(_) => true,
            None => false,
        }
    }

    /// The newest certificate the new view votes report, with their signatures.
    pub fn get_high_qc(&self) -> (r: Result<NewViewQCResult, NewViewQCError>)
        requires
            self.wf(),
        ensures
            (r is Err) <==> self.new_view@.dom() =~= Set::empty(),
            r is Err ==> r == Err::<NewViewQCResult, NewViewQCError>(NewViewQCError::NoVotesReceived),
            r matches Ok(res) ==> is_high_qc(self.new_view@, opt_chained_view(res.high_qc))
                && votes_match(res.signatures@, self.new_view@[opt_chained_view(res.high_qc)]),
    {
        match self.new_view.max_rank_index() {
            Some(i) => {
                let high_qc = duplicate_key(self.new_view.key(i));
                let signatures = self.new_view.votes_at(i);
                proof {
                    self.new_view.lemma_keys();
                }
                Ok(NewViewQCResult { high_qc, signatures })
            },
            None => Err(NewViewQCError::NoVotesReceived),
        }
    }
}

fn duplicate_key(q: &Option<ChainedQC>) -> (r: Option<ChainedQC>)
    ensures
        opt_chained_view(r) == opt_chained_view(*q),
{
    crate::chained::duplicate_opt_chained(q)
}

impl NewViewQCResult {
    pub fn high_qc(&self) -> (q: &Option<ChainedQC>)
        ensures
            *q == self.high_qc,
    {
        &self.high_qc
    }

    pub fn signatures(&self) -> (s: &Vec<(NodeId, PartialSignature)>)
        ensures
            *s == self.signatures,
    {
        &self.signatures
    }
}

/// `k` has a quorum of votes in `store`, and no details have more votes.
pub open spec fn quorum_leader(store: Map<VoteDetailsView, Map<NodeId, Seq<u8>>>, quorum: int, k: VoteDetailsView) -> bool {
    &&& store.dom().contains(k)
    &&& vote_count(store, k) >= quorum
    &&& forall|k2: VoteDetailsView| #[trigger] store.dom().contains(k2) ==> vote_count(store, k2) <= vote_count(store, k)
}

/// What generating a certificate from the votes of `store` with `crypto` gave
/// at view `view_seq` with quorum `quorum`: no certificate when no details
/// have a quorum of votes; otherwise the votes of details with the most votes
/// are combined, and the certificate of the view for their node carries the
/// combination, or the combination failed on them.
pub open spec fn quorum_qc_from<CP: CryptoSignatureCombiner>(
    store: Map<VoteDetailsView, Map<NodeId, Seq<u8>>>,
    view_seq: SeqNo,
    quorum: int,
    crypto: CP,
    r: Result<ChainedQC, ChainedQCGenerateError<CP::CombinationError>>,
) -> bool {
    &&& (r matches Err(ChainedQCGenerateError::NotEnoughVotes)) <==> !(exists|k: VoteDetailsView|
        #[trigger] store.dom().contains(k) && vote_count(store, k) >= quorum)
    &&& r matches Ok(qc) ==> {
        &&& qc.seq_no == view_seq
        &&& exists|k: VoteDetailsView| #[trigger] quorum_leader(store, quorum, k) && k.node == qc.decision_node
            && shares_combine_to(crypto, store[k], Some(qc.signature@))
    }
    &&& r matches Err(ChainedQCGenerateError::FailedToCombinePartialSignatures(_)) ==> exists|k: VoteDetailsView|
        #[trigger] quorum_leader(store, quorum, k) && shares_combine_to(crypto, store[k], None)
}

impl VoteStore {
    pub open spec fn wf(&self) -> bool {
        self.votes.wf()
    }

    pub fn new() -> (s: VoteStore)
        ensures
            s.wf(),
            s.votes@ == Map::<VoteDetailsView, Map<NodeId, Seq<u8>>>::empty(),
            !s.proposed,
    {
        VoteStore { votes: VoteTable::new(), proposed: false }
    }

    /// Record the vote of `voter`, unless it already voted for the same
    /// details; returns the number of votes for those details when recorded.
    pub fn accept_vote(&mut self, voter: NodeId, vote_message: VoteMessage) -> (r: Option<usize>)
        requires
            old(self).wf(),
        ensures
            final(self).wf(),
            final(self).proposed == old(self).proposed,
            has_voted(old(self).votes@, vote_message.vote_details@, voter) ==> r is None
                && *final(self) == *old(self),
            !has_voted(old(self).votes@, vote_message.vote_details@, voter) ==> final(self).votes@
                == with_vote(old(self).votes@, vote_message.vote_details@, voter, vote_message.signature@)
                && r == Some(vote_count(final(self).votes@, vote_message.vote_details@) as usize)
                && vote_count(final(self).votes@, vote_message.vote_details@) <= usize::MAX,
    {
        let VoteMessage { vote_details, signature } = vote_message;
        self.votes.insert_vote_if_absent(vote_details, voter, signature)
    }

    /// The details voted for whose justification is the newest.
    pub fn get_high_justify_qc(&self) -> (r: Option<&VoteDetails>)
        requires
            self.wf(),
        ensures
            r is None <==> self.votes@.dom() =~= Set::empty(),
            r matches Some(d) ==> self.votes@.dom().contains(d@) && forall|k: VoteDetailsView| #[trigger]
                self.votes@.dom().contains(k) ==> justify_rank(k) <= justify_rank(d@),
    {
        match self.votes.max_rank_index() {
            Some(i) => {
                proof {
                    self.votes.lemma_keys();
                }
                Some(self.votes.key(i))
            },
            None => None,
        }
    }

    pub fn is_proposed(&self) -> (b: bool)
        ensures
            b == self.proposed,
    {
        self.proposed
    }

    pub fn set_proposed(&mut self, proposed: bool)
        ensures
            final(self).proposed == proposed,
            final(self).votes == old(self).votes,
    {
        self.proposed = proposed;
    }

    /// A certificate of the view for the node with the most votes, once it has
    /// a quorum of them.
    pub fn get_quorum_qc<CP: CryptoProvider>(&mut self, view: &View, crypto_info: &CP) -> (r: Result<
        ChainedQC,
        ChainedQCGenerateError<CP::CombinationError>,
    >)
        requires
            old(self).wf(),
            view.spec_members().len() > 0,
        ensures
            *final(self) == *old(self),
            quorum_qc_from(
                old(self).votes@,
                view.spec_seq(),
                spec_quorum_for_n(view.spec_members().len() as int),
                *crypto_info,
                r,
            ),
    {
        proof {
            self.votes.lemma_keys();
        }
        let i = match self.votes.max_votes_index() {
            Some(i) => i,
            None => {
                return Err(ChainedQCGenerateError::NotEnoughVotes);
            },
        };
        let count = self.votes.count_at(i);
        if count < view.quorum() {
            proof {
                assert forall|k: VoteDetailsView| #[trigger] self.votes@.dom().contains(k) implies vote_count(
                    self.votes@,
                    k,
                ) < spec_quorum_for_n(view.spec_members().len() as int) by {
                }
            }
            return Err(ChainedQCGenerateError::NotEnoughVotes);
        }
        let node = self.votes.key(i).node;
        let votes = self.votes.votes_at(i);
        let ghost key = self.votes.key_at(i as int);
        proof {
            assert(self.votes@.dom().contains(key));
            assert(quorum_leader(self.votes@, spec_quorum_for_n(view.spec_members().len() as int), key));
            assert(votes_match(votes@, self.votes@[key]));
        }
        match combine_partial_signatures(crypto_info, votes.as_slice()) {
            Ok(signature) => Ok(ChainedQC::new(view.sequence_number(), node, signature)),
            Err(e) => Err(ChainedQCGenerateError::FailedToCombinePartialSignatures(e)),
        }
    }
}

} // verus!
