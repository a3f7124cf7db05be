//! The proof of a chained decision: the decided node, the proposal that
//! carried it, and the certificates of the chain on it, one per phase.
use crate::chained::chained_decision_tree::ChainedDecisionNode;
use crate::chained::messages::IronChainMessage;
use crate::chained::{ChainedQC, ChainedQCView};
use crate::decision_tree::{DecisionNodeHeader, StoredMessage};
use crate::ordering::SeqNo;
use vstd::prelude::*;
use vstd::view::View as _;

verus! {

/// The phase of the chain a certificate completes, counted from the decision.
#[derive(Clone, Copy, Debug, PartialEq, Eq, Structural, Hash)]
pub enum ProofQCType {
    PrePrepare,
    Prepare,
    Commit,
    Decide,
}

/// No two certificates are kept for the same phase.
pub open spec fn distinct_slots(qcs: Seq<(ProofQCType, ChainedQC)>) -> bool {
    forall|i: int, j: int|
        0 <= i < qcs.len() && 0 <= j < qcs.len() && i != j ==> (#[trigger] qcs[i]).0 != (#[trigger] qcs[j]).0
}

/// The certificates of a list without repeated phases, by phase.
pub open spec fn slot_map(qcs: Seq<(ProofQCType, ChainedQC)>) -> Map<ProofQCType, ChainedQCView> {
    Map::new(
        |t: ProofQCType| exists|i: int| 0 <= i < qcs.len() && (#[trigger] qcs[i]).0 == t,
        |t: ProofQCType| qcs[choose|i: int| 0 <= i < qcs.len() && (#[trigger] qcs[i]).0 == t].1@,
    )
}

pub struct ChainedProof<D> {
    decision_node: ChainedDecisionNode<D>,
    proposal_message: StoredMessage<IronChainMessage<D>>,
    qcs: Vec<(ProofQCType, ChainedQC)>,
}

impl<D> ChainedProof<D> {
    pub closed spec fn spec_decision_node(&self) -> ChainedDecisionNode<D> {
        self.decision_node
    }

    pub closed spec fn spec_proposal_message(&self) -> StoredMessage<IronChainMessage<D>> {
        self.proposal_message
    }

    pub closed spec fn spec_qcs(&self) -> Map<ProofQCType, ChainedQCView> {
        slot_map(self.qcs@)
    }

    pub closed spec fn wf(&self) -> bool {
        distinct_slots(self.qcs@)
    }

    pub fn new(
        decision_node: ChainedDecisionNode<D>,
        proposal_message: StoredMessage<IronChainMessage<D>>,
        qcs: Vec<(ProofQCType, ChainedQC)>,
    ) -> (p: ChainedProof<D>)
        requires
            distinct_slots(qcs@),
        ensures
            p.wf(),
            p.spec_decision_node() == decision_node,
            p.spec_proposal_message() == proposal_message,
            p.spec_qcs() == slot_map(qcs@),
    {
        ChainedProof { decision_node, proposal_message, qcs }
    }

    pub fn decision_node(&self) -> (n: &ChainedDecisionNode<D>)
        ensures
            *n == self.spec_decision_node(),
    {
        &self.decision_node
    }

    /// The certificates, one per phase.
    pub fn qcs(&self) -> (q: &Vec<(ProofQCType, ChainedQC)>)
        requires
            self.wf(),
        ensures
            distinct_slots(q@),
            slot_map(q@) == self.spec_qcs(),
    {
        &self.qcs
    }

    /// The certificate of one phase, if the proof holds one.
    pub fn qc(&self, qc_type: ProofQCType) -> (r: Option<&ChainedQC>)
        requires
            self.wf(),
        ensures
            match r {
                Some(q) => self.spec_qcs().dom().contains(qc_type) && q@ == self.spec_qcs()[qc_type],
                None => !self.spec_qcs().dom().contains(qc_type),
            },
    {
        let mut i: usize = 0;
        while i < self.qcs.len()
            invariant
                self.wf(),
                0 <= i <= self.qcs@.len(),
                forall|j: int| 0 <= j < i ==> (#[trigger] self.qcs@[j]).0 != qc_type,
            decreases self.qcs.len() - i,
        {
            if self.qcs[i].0 == qc_type {
                proof {
                    lemma_slot_at(self.qcs@, i as int);
                }
                return Some(&self.qcs[i].1);
            }
            i = i + 1;
        }
        proof {
            if self.spec_qcs().dom().contains(qc_type) {
                let k = choose|k: int| 0 <= k < self.qcs@.len() && (#[trigger] self.qcs@[k]).0 == qc_type;
                assert(self.qcs@[k].0 != qc_type);
            }
        }
        None
    }

    pub fn proposal_message(&self) -> (m: &StoredMessage<IronChainMessage<D>>)
        ensures
            *m == self.spec_proposal_message(),
    {
        &self.proposal_message
    }

    pub fn sequence_number(&self) -> (s: SeqNo)
        ensures
            s == self.spec_decision_node().decision_node.decision_header.view_no,
    {
        self.decision_node.decision_node.decision_header.view_no
    }

    /// The number of client commands of the decided node.
    pub fn contained_messages(&self) -> (n: usize)
        ensures
            n == self.spec_decision_node().decision_node.decision_header.contained_client_commands,
    {
        self.decision_node.decision_node.decision_header.contained_client_commands
    }

    /// Two proofs are equal when they decide the same node with the same
    /// certificates.
    pub fn equals(&self, other: &ChainedProof<D>) -> (r: bool)
        requires
            self.wf(),
            other.wf(),
        ensures
            r == (self.spec_decision_node().decision_node.decision_header
                == other.spec_decision_node().decision_node.decision_header && self.spec_qcs()
                == other.spec_qcs()),
    {
        if self.decision_node.decision_node.decision_header != other.decision_node.decision_node.decision_header {
            return false;
        }
        if self.qcs.len() != other.qcs.len() {
            proof {
                lemma_slot_map_len(self.qcs@);
                lemma_slot_map_len(other.qcs@);
            }
            return false;
        }
        let mut i: usize = 0;
        while i < self.qcs.len()
            invariant
                0 <= i <= self.qcs@.len(),
                self.qcs@.len() == other.qcs@.len(),
                self.wf(),
                other.wf(),
                forall|j: int| 0 <= j < i ==> other.spec_qcs().dom().contains((#[trigger] self.qcs@[j]).0)
                    && other.spec_qcs()[self.qcs@[j].0] == self.qcs@[j].1@,
            decreases self.qcs.len() - i,
        {
            let t = self.qcs[i].0;
            match other.qc(t) {
                Some(q) => {
                    if !q.equals(&self.qcs[i].1) {
                        proof {
                            lemma_slot_at(self.qcs@, i as int);
                        }
                        return false;
                    }
                },
                None => {
                    proof {
                        lemma_slot_at(self.qcs@, i as int);
                    }
                    return false;
                },
            }
            i = i + 1;
        }
        proof {
            assert(self.spec_qcs() =~= other.spec_qcs()) by {
                lemma_slot_map_len(self.qcs@);
                lemma_slot_map_len(other.qcs@);
                assert forall|t: ProofQCType| #[trigger] self.spec_qcs().dom().contains(t) implies other.spec_qcs().dom().contains(t)
                    && other.spec_qcs()[t] == self.spec_qcs()[t] by {
                    let k = choose|k: int| 0 <= k < self.qcs@.len() && (#[trigger] self.qcs@[k]).0 == t;
                    lemma_slot_at(self.qcs@, k);
                }
                assert(self.spec_qcs().dom().subset_of(other.spec_qcs().dom()));
                vstd::set_lib::lemma_len_subset(self.spec_qcs().dom(), other.spec_qcs().dom());
                assert(self.spec_qcs().dom() =~= other.spec_qcs().dom()) by {
                    if !(other.spec_qcs().dom().subset_of(self.spec_qcs().dom())) {
                        let t = choose|t: ProofQCType| other.spec_qcs().dom().contains(t) && !self.spec_qcs().dom().contains(t);
                        vstd::set_lib::lemma_len_subset(self.spec_qcs().dom().insert(t), other.spec_qcs().dom());
                    }
                }
            }
        }
        true
    }
}

/// The entry at `i` of a list without repeated phases is what the map holds
/// for its phase.
pub proof fn lemma_slot_at(qcs: Seq<(ProofQCType, ChainedQC)>, i: int)
    requires
        distinct_slots(qcs),
        0 <= i < qcs.len(),
    ensures
        slot_map(qcs).dom().contains(qcs[i].0),
        slot_map(qcs)[qcs[i].0] == qcs[i].1@,
{
    let t = qcs[i].0;
    assert(slot_map(qcs).dom().contains(t));
    let k = choose|k: int| 0 <= k < qcs.len() && (#[trigger] qcs[k]).0 == t;
    if k != i {
        assert(qcs[k].0 != qcs[i].0);
    }
}

/// A list without repeated phases has as many entries as its map has phases.
pub proof fn lemma_slot_map_len(qcs: Seq<(ProofQCType, ChainedQC)>)
    requires
        distinct_slots(qcs),
    ensures
        slot_map(qcs).dom().finite(),
        slot_map(qcs).dom().len() == qcs.len(),
{
    let ks = Seq::new(qcs.len(), |i: int| qcs[i].0);
    assert(slot_map(qcs).dom() =~= ks.to_set()) by {
        assert forall|t: ProofQCType| slot_map(qcs).dom().contains(t) implies ks.to_set().contains(t) by {
            let i = choose|i: int| 0 <= i < qcs.len() && (#[trigger] qcs[i]).0 == t;
            assert(ks[i] == t);
        }
        assert forall|t: ProofQCType| ks.to_set().contains(t) implies slot_map(qcs).dom().contains(t) by {
            let i = choose|i: int| 0 <= i < ks.len() && ks[i] == t;
            assert(qcs[i].0 == t);
        }
    }
    assert(ks.no_duplicates()) by {
        assert forall|i: int, j: int| 0 <= i < ks.len() && 0 <= j < ks.len() && i != j implies ks[i] != ks[j] by {
            assert(qcs[i].0 != qcs[j].0);
        }
    }
    ks.unique_seq_to_set();
    vstd::seq_lib::seq_to_set_is_finite(ks);
}

} // verus!
