//! The nodes of the chained protocol, each carrying the certificate that
//! justifies it, and the store of the nodes not yet decided, by block digest.
use crate::chained::{opt_chained_view, ChainedQC, ChainedQCView};
use crate::decision_tree::{copied_command, DecisionNode, DecisionNodeHeader, StoredMessage};
use crate::ordering::{Digest, SeqNo};
use crate::view::View;
use vstd::prelude::*;
use vstd::view::View as _;

verus! {

/// A decision node with the certificate of the node it builds on.
#[derive(Clone, Debug)]
pub struct ChainedDecisionNode<D> {
    pub decision_node: DecisionNode<D>,
    pub justify: Option<ChainedQC>,
}

/// The header of a chained leaf of sequence number `seq` on `previous`.
pub open spec fn chained_leaf_header(
    seq: SeqNo,
    previous: DecisionNodeHeader,
    digest: Digest,
    commands: usize,
) -> DecisionNodeHeader {
    DecisionNodeHeader {
        view_no: seq,
        previous_block: Some(previous.current_block_digest),
        current_block_digest: digest,
        contained_client_commands: commands,
    }
}

impl<D> ChainedDecisionNode<D> {
    /// A node on top of `previous`, justified by the certificate `qc`.
    pub fn create_leaf(
        seq: SeqNo,
        previous: &DecisionNodeHeader,
        digest: Digest,
        client_commands: Vec<StoredMessage<D>>,
        qc: ChainedQC,
    ) -> (n: ChainedDecisionNode<D>)
        ensures
            n.decision_node.decision_header == chained_leaf_header(seq, *previous, digest, client_commands.len()),
            n.decision_node.client_commands == client_commands,
            opt_chained_view(n.justify) == Some(qc@),
    {
        let header = DecisionNodeHeader {
            view_no: seq,
            previous_block: Some(previous.current_block_digest),
            current_block_digest: digest,
            contained_client_commands: client_commands.len(),
        };
        ChainedDecisionNode {
            decision_node: DecisionNode { decision_header: header, client_commands },
            justify: Some(qc),
        }
    }

    /// A root node of the view, which builds on nothing.
    pub fn create_root(view: &View, digest: Digest, client_commands: Vec<StoredMessage<D>>) -> (n:
        ChainedDecisionNode<D>)
        ensures
            n.decision_node.decision_header == (DecisionNodeHeader {
                view_no: view.spec_seq(),
                previous_block: None,
                current_block_digest: digest,
                contained_client_commands: client_commands.len(),
            }),
            n.decision_node.client_commands == client_commands,
            n.justify is None,
    {
        let header = DecisionNodeHeader {
            view_no: view.sequence_number(),
            previous_block: None,
            current_block_digest: digest,
            contained_client_commands: client_commands.len(),
        };
        ChainedDecisionNode {
            decision_node: DecisionNode { decision_header: header, client_commands },
            justify: None,
        }
    }

    pub fn decision_header(&self) -> (h: &DecisionNodeHeader)
        ensures
            *h == self.decision_node.decision_header,
    {
        &self.decision_node.decision_header
    }

    pub fn justify(&self) -> (j: &Option<ChainedQC>)
        ensures
            *j == self.justify,
    {
        &self.justify
    }

    pub fn sequence_number(&self) -> (s: SeqNo)
        ensures
            s == self.decision_node.decision_header.view_no,
    {
        self.decision_node.decision_header.view_no
    }

    pub fn into_decision_node(self) -> (n: DecisionNode<D>)
        ensures
            n == self.decision_node,
    {
        self.decision_node
    }
}

impl<D: Clone> ChainedDecisionNode<D> {
    /// A copy of the node: the same header and justification, and as many
    /// (cloned) commands.
    pub fn duplicate(&self) -> (n: ChainedDecisionNode<D>)
        ensures
            n.decision_node.decision_header == self.decision_node.decision_header,
            n.decision_node.client_commands.len() == self.decision_node.client_commands.len(),
            forall|i: int| 0 <= i < n.decision_node.client_commands.len() ==> copied_command(
                #[trigger] self.decision_node.client_commands@[i],
                n.decision_node.client_commands@[i],
            ),
            opt_chained_view(n.justify) == opt_chained_view(self.justify),
    {
        ChainedDecisionNode {
            decision_node: self.decision_node.duplicate(),
            justify: crate::chained::duplicate_opt_chained(&self.justify),
        }
    }
}

/// The nodes received but not yet decided, each under its block digest.
pub struct PendingDecisionNodes<D> {
    nodes: Vec<ChainedDecisionNode<D>>,
}

/// The block digest a node is stored under.
pub open spec fn node_digest<D>(n: ChainedDecisionNode<D>) -> Digest {
    n.decision_node.decision_header.current_block_digest
}

impl<D> PendingDecisionNodes<D> {
    /// The stored nodes by block digest.
    pub closed spec fn spec_map(&self) -> Map<Digest, ChainedDecisionNode<D>> {
        Map::new(
            |d: Digest| exists|i: int| 0 <= i < self.nodes@.len() && node_digest(#[trigger] self.nodes@[i]) == d,
            |d: Digest| self.nodes@[choose|i: int| 0 <= i < self.nodes@.len() && node_digest(#[trigger] self.nodes@[i]) == d],
        )
    }

    /// No two nodes are stored under the same digest.
    pub closed spec fn wf(&self) -> bool {
        forall|i: int, j: int|
            0 <= i < self.nodes@.len() && 0 <= j < self.nodes@.len() && i != j ==> node_digest(#[trigger] self.nodes@[i])
                != node_digest(#[trigger] self.nodes@[j])
    }

    pub fn new() -> (p: PendingDecisionNodes<D>)
        ensures
            p.wf(),
            p.spec_map() =~= Map::empty(),
    {
        PendingDecisionNodes { nodes: Vec::new() }
    }

    fn find(&self, digest: &Digest) -> (r: Option<usize>)
        requires
            self.wf(),
        ensures
            match r {
                Some(i) => i < self.nodes@.len() && node_digest(self.nodes@[i as int]) == *digest,
                None => !self.spec_map().dom().contains(*digest),
            },
    {
        let mut i: usize = 0;
        while i < self.nodes.len()
            invariant
                0 <= i <= self.nodes@.len(),
                forall|j: int| 0 <= j < i ==> node_digest(#[trigger] self.nodes@[j]) != *digest,
            decreases self.nodes.len() - i,
        {
            if self.nodes[i].decision_node.decision_header.current_block_digest == *digest {
                return Some(i);
            }
            i = i + 1;
        }
        None
    }

    proof fn lemma_at(&self, i: int)
        requires
            self.wf(),
            0 <= i < self.nodes@.len(),
        ensures
            self.spec_map().dom().contains(node_digest(self.nodes@[i])),
            self.spec_map()[node_digest(self.nodes@[i])] == self.nodes@[i],
    {
        let d = node_digest(self.nodes@[i]);
        assert(self.spec_map().dom().contains(d));
        let k = choose|k: int| 0 <= k < self.nodes@.len() && node_digest(#[trigger] self.nodes@[k]) == d;
        if k != i {
            assert(node_digest(self.nodes@[k]) != node_digest(self.nodes@[i]));
        }
    }

    /// Store a node under its block digest, in place of a node stored there before.
    pub fn insert(&mut self, node: ChainedDecisionNode<D>)
        requires
            old(self).wf(),
        ensures
            final(self).wf(),
            final(self).spec_map() == old(self).spec_map().insert(node_digest(node), node),
    {
        let ghost pre = self.nodes@;
        let ghost d = node_digest(node);
        let ghost mut pos: int = 0;
        match self.find(&node.decision_node.decision_header.current_block_digest) {
            Some(i) => {
                self.nodes.set(i, node);
                proof {
                    pos = i as int;
                }
            },
            None => {
                self.nodes.push(node);
                proof {
                    pos = pre.len() as int;
                }
            },
        }
        proof {
            let post = self.nodes@;
            assert forall|a: int, b: int|
                0 <= a < post.len() && 0 <= b < post.len() && a != b implies node_digest(#[trigger] post[a])
                    != node_digest(#[trigger] post[b]) by {
                if a < pre.len() && b < pre.len() && post[a] == pre[a] && post[b] == pre[b] {
                } else if a < pre.len() && post[a] == pre[a] {
                    assert(post[b] == node);
                    if node_digest(pre[a]) == d {
                        assert(old(self).spec_map().dom().contains(d)) by {
                            old(self).lemma_at(a);
                        }
                    }
                } else if b < pre.len() && post[b] == pre[b] {
                    assert(post[a] == node);
                    if node_digest(pre[b]) == d {
                        assert(old(self).spec_map().dom().contains(d)) by {
                            old(self).lemma_at(b);
                        }
                    }
                } else {
                    assert(post[a] == node && post[b] == node);
                }
            }
            assert(self.spec_map() =~= old(self).spec_map().insert(d, node)) by {
                assert forall|k: Digest| #[trigger] self.spec_map().dom().contains(k) <==> old(self).spec_map().insert(d, node).dom().contains(k) by {
                    if self.spec_map().dom().contains(k) {
                        let i = choose|i: int| 0 <= i < post.len() && node_digest(#[trigger] post[i]) == k;
                        if k != d {
                            assert(post[i] == pre[i]);
                            old(self).lemma_at(i);
                        }
                    }
                    if old(self).spec_map().dom().contains(k) && k != d {
                        let i = choose|i: int| 0 <= i < pre.len() && node_digest(#[trigger] pre[i]) == k;
                        assert(post[i] == pre[i]);
                        self.lemma_at(i);
                    }
                    if k == d {
                        assert(post[pos] == node);
                        self.lemma_at(pos);
                    }
                }
                assert forall|k: Digest| #[trigger] self.spec_map().dom().contains(k) implies self.spec_map()[k]
                    == old(self).spec_map().insert(d, node)[k] by {
                    let i = choose|i: int| 0 <= i < post.len() && node_digest(#[trigger] post[i]) == k;
                    self.lemma_at(i);
                    if k != d {
                        assert(post[i] == pre[i]);
                        old(self).lemma_at(i);
                    }
                }
            }
        }
    }

    pub fn get(&self, digest: &Digest) -> (r: Option<&ChainedDecisionNode<D>>)
        requires
            self.wf(),
        ensures
            match r {
                Some(n) => self.spec_map().dom().contains(*digest) && *n == self.spec_map()[*digest]
                    && node_digest(*n) == *digest,
                None => !self.spec_map().dom().contains(*digest),
            },
    {
        match self.find(digest) {
            Some(i) => {
                proof {
                    self.lemma_at(i as int);
                }
                Some(&self.nodes[i])
            },
            None => None,
        }
    }

    pub fn remove(&mut self, digest: &Digest) -> (r: Option<ChainedDecisionNode<D>>)
        requires
            old(self).wf(),
        ensures
            final(self).wf(),
            final(self).spec_map() == old(self).spec_map().remove(*digest),
            match r {
                Some(n) => old(self).spec_map().dom().contains(*digest) && n == old(self).spec_map()[*digest]
                    && node_digest(n) == *digest,
                None => !old(self).spec_map().dom().contains(*digest),
            },
    {
        match self.find(digest) {
            Some(i) => {
                let ghost pre = self.nodes@;
                proof {
                    old(self).lemma_at(i as int);
                }
                let n = self.nodes.remove(i);
                proof {
                    let post = self.nodes@;
                    assert forall|a: int| 0 <= a < post.len() implies #[trigger] post[a] == (if a < i { pre[a] } else { pre[a + 1] }) by {
                    }
                    assert forall|a: int, b: int|
                        0 <= a < post.len() && 0 <= b < post.len() && a != b implies node_digest(#[trigger] post[a])
                            != node_digest(#[trigger] post[b]) by {
                        let a2 = if a < i { a } else { a + 1 };
                        let b2 = if b < i { b } else { b + 1 };
                        assert(post[a] == pre[a2] && post[b] == pre[b2]);
                    }
                    assert(self.spec_map() =~= old(self).spec_map().remove(*digest)) by {
                        assert forall|k: Digest| #[trigger] self.spec_map().dom().contains(k) <==> old(self).spec_map().remove(*digest).dom().contains(k) by {
                            if self.spec_map().dom().contains(k) {
                                let a = choose|a: int| 0 <= a < post.len() && node_digest(#[trigger] post[a]) == k;
                                let a2 = if a < i { a } else { a + 1 };
                                assert(post[a] == pre[a2]);
                                old(self).lemma_at(a2);
                                assert(node_digest(pre[a2]) != node_digest(pre[i as int]));
                            }
                            if old(self).spec_map().remove(*digest).dom().contains(k) {
                                let a = choose|a: int| 0 <= a < pre.len() && node_digest(#[trigger] pre[a]) == k;
                                assert(a != i);
                                let a1 = if a < i { a } else { a - 1 };
                                assert(post[a1] == pre[a]);
                                self.lemma_at(a1);
                            }
                        }
                        assert forall|k: Digest| #[trigger] self.spec_map().dom().contains(k) implies self.spec_map()[k]
                            == old(self).spec_map().remove(*digest)[k] by {
                            let a = choose|a: int| 0 <= a < post.len() && node_digest(#[trigger] post[a]) == k;
                            let a2 = if a < i { a } else { a + 1 };
                            assert(post[a] == pre[a2]);
                            self.lemma_at(a);
                            old(self).lemma_at(a2);
                        }
                    }
                }
                Some(n)
            },
            None => None,
        }
    }
}

} // verus!
