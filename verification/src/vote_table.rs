//! A table of signed votes: for every key (the node or certificate voted for)
//! the signature share each voter sent. Each voter counts once per key.
use crate::ordering::{NodeId, PartialSignature};
use vstd::prelude::*;

verus! {

/// What a table can be keyed by: a value with an abstract view, compared and
/// ranked by that view.
pub trait VoteKey: Sized {
    type V;

    spec fn key_view(&self) -> Self::V;

    /// The rank by which keys are compared when the highest key is looked for.
    spec fn view_rank(v: Self::V) -> nat;

    fn key_eq(&self, other: &Self) -> (r: bool)
        ensures
            r == (self.key_view() == other.key_view()),
    ;

    fn key_clone(&self) -> (r: Self)
        ensures
            r.key_view() == self.key_view(),
    ;

    fn rank(&self) -> (r: u64)
        ensures
            r == Self::view_rank(self.key_view()),
    ;
}

/// The votes received for one key.
pub struct VoteEntry<K> {
    pub key: K,
    pub votes: Vec<(NodeId, PartialSignature)>,
}

/// The voters of a list of votes, in order.
pub open spec fn voters_of(votes: Seq<(NodeId, PartialSignature)>) -> Seq<NodeId> {
    Seq::new(votes.len(), |a: int| votes[a].0)
}

/// `votes` lists, once per voter, exactly the signatures of `m`.
pub open spec fn votes_match(votes: Seq<(NodeId, PartialSignature)>, m: Map<NodeId, Seq<u8>>) -> bool {
    &&& forall|a: int, b: int|
        0 <= a < votes.len() && 0 <= b < votes.len() && a != b ==> #[trigger] votes[a].0
            != #[trigger] votes[b].0
    &&& forall|v: NodeId| #[trigger] m.dom().contains(v) ==> exists|a: int| 0 <= a < votes.len() && #[trigger] votes[a].0 == v
    &&& forall|a: int|
        0 <= a < votes.len() ==> #[trigger] m.dom().contains(votes[a].0) && m[votes[a].0]
            == votes[a].1@
}

/// A table of votes for keys of type `K`.
pub struct VoteTable<K: VoteKey> {
    entries: Vec<VoteEntry<K>>,
    model: Ghost<Map<K::V, Map<NodeId, Seq<u8>>>>,
}

impl<K: VoteKey> View for VoteTable<K> {
    type V = Map<K::V, Map<NodeId, Seq<u8>>>;

    closed spec fn view(&self) -> Map<K::V, Map<NodeId, Seq<u8>>> {
        self.model@
    }
}

/// The number of votes for `k` in a table whose view is `m`.
pub open spec fn vote_count<V>(m: Map<V, Map<NodeId, Seq<u8>>>, k: V) -> nat {
    m[k].dom().len()
}

/// The view of the table after `voter` cast a vote signed `sig` for `k`.
pub open spec fn with_vote<V>(
    m: Map<V, Map<NodeId, Seq<u8>>>,
    k: V,
    voter: NodeId,
    sig: Seq<u8>,
) -> Map<V, Map<NodeId, Seq<u8>>> {
    let inner = if m.dom().contains(k) {
        m[k]
    } else {
        Map::empty()
    };
    m.insert(k, inner.insert(voter, sig))
}

/// Whether `voter` has already voted for `k`.
pub open spec fn has_voted<V>(m: Map<V, Map<NodeId, Seq<u8>>>, k: V, voter: NodeId) -> bool {
    m.dom().contains(k) && m[k].dom().contains(voter)
}

/// Each voter counts once per key: after a vote the voter is recorded for the
/// key, the key's count grew by one exactly when the voter had not voted for
/// it before, and the other keys kept their votes.
pub proof fn lemma_each_voter_counts_once<V>(
    m: Map<V, Map<NodeId, Seq<u8>>>,
    k: V,
    voter: NodeId,
    sig: Seq<u8>,
)
    requires
        m.dom().contains(k) ==> m[k].dom().finite(),
    ensures
        has_voted(with_vote(m, k, voter, sig), k, voter),
        vote_count(with_vote(m, k, voter, sig), k) == if has_voted(m, k, voter) {
            vote_count(m, k)
        } else if m.dom().contains(k) {
            vote_count(m, k) + 1
        } else {
            1
        },
        forall|j: V| j != k ==> #[trigger] with_vote(m, k, voter, sig).dom().contains(j) == m.dom().contains(j)
            && (m.dom().contains(j) ==> with_vote(m, k, voter, sig)[j] == m[j]),
{
    let after = with_vote(m, k, voter, sig);
    if m.dom().contains(k) {
        if !m[k].dom().contains(voter) {
            assert(after[k].dom() =~= m[k].dom().insert(voter));
        } else {
            assert(after[k].dom() =~= m[k].dom());
        }
    } else {
        assert(after[k].dom() =~= Set::empty().insert(voter));
    }
}

pub proof fn lemma_votes_count(votes: Seq<(NodeId, PartialSignature)>, m: Map<NodeId, Seq<u8>>)
    requires
        votes_match(votes, m),
    ensures
        m.dom().finite(),
        m.dom().len() == votes.len(),
{
    let vs = voters_of(votes);
    assert(m.dom() =~= vs.to_set()) by {
        assert forall|v: NodeId| m.dom().contains(v) implies vs.to_set().contains(v) by {
            let a = choose|a: int| 0 <= a < votes.len() && #[trigger] votes[a].0 == v;
            assert(vs[a] == v);
        }
        assert forall|v: NodeId| vs.to_set().contains(v) implies m.dom().contains(v) by {
            let a = choose|a: int| 0 <= a < vs.len() && vs[a] == v;
            assert(votes[a].0 == v);
        }
    }
    assert(vs.no_duplicates()) by {
        assert forall|i: int, j: int| 0 <= i < vs.len() && 0 <= j < vs.len() && i != j implies vs[i]
            != vs[j] by {
            assert(votes[i].0 != votes[j].0);
        }
    }
    vs.unique_seq_to_set();
    vstd::seq_lib::seq_to_set_is_finite(vs);
}

impl<K: VoteKey> VoteTable<K> {
    pub closed spec fn wf(&self) -> bool {
        &&& forall|i: int, j: int|
            0 <= i < self.entries.len() && 0 <= j < self.entries.len() && i != j ==> (
            #[trigger] self.entries[i]).key.key_view() != (#[trigger] self.entries[j]).key.key_view()
        &&& forall|k: K::V| #[trigger]
            self.model@.dom().contains(k) ==> exists|i: int|
                0 <= i < self.entries.len() && (#[trigger] self.entries[i]).key.key_view() == k
        &&& forall|i: int|
            0 <= i < self.entries.len() ==> self.model@.dom().contains(
                (#[trigger] self.entries[i]).key.key_view(),
            ) && votes_match(self.entries[i].votes@, self.model@[self.entries[i].key.key_view()])
    }

    /// The key stored at position `i`.
    pub closed spec fn key_at(&self, i: int) -> K::V {
        self.entries[i].key.key_view()
    }

    /// The number of keys in the table.
    pub closed spec fn spec_len(&self) -> nat {
        self.entries@.len()
    }

    pub proof fn lemma_keys(&self)
        requires
            self.wf(),
        ensures
            forall|i: int| 0 <= i < self.spec_len() ==> #[trigger] self@.dom().contains(self.key_at(i)),
            forall|k: K::V| #[trigger] self@.dom().contains(k) ==> exists|i: int|
                0 <= i < self.spec_len() && self.key_at(i) == k,
            self@.dom().finite(),
            self@.dom().len() == self.spec_len(),
            self.spec_len() == 0 <==> self@.dom() =~= Set::empty(),
            forall|k: K::V| #[trigger]
                self@.dom().contains(k) ==> self@[k].dom().finite(),
    {
        assert forall|k: K::V| #[trigger] self@.dom().contains(k) implies exists|i: int|
            0 <= i < self.spec_len() && self.key_at(i) == k by {
            let i = choose|i: int|
                0 <= i < self.entries.len() && (#[trigger] self.entries[i]).key.key_view() == k;
            assert(self.key_at(i) == k);
        }
        assert forall|k: K::V| #[trigger] self@.dom().contains(k) implies self@[k].dom().finite() by {
            let i = choose|i: int|
                0 <= i < self.entries.len() && (#[trigger] self.entries[i]).key.key_view() == k;
            lemma_votes_count(self.entries[i].votes@, self@[k]);
        }
        let ks = Seq::new(self.entries.len() as nat, |i: int| self.entries[i].key.key_view());
        assert(self@.dom() =~= ks.to_set()) by {
            assert forall|k: K::V| self@.dom().contains(k) implies ks.to_set().contains(k) by {
                let i = choose|i: int|
                    0 <= i < self.entries.len() && (#[trigger] self.entries[i]).key.key_view() == k;
                assert(ks[i] == k);
            }
            assert forall|k: K::V| ks.to_set().contains(k) implies self@.dom().contains(k) by {
                let i = choose|i: int| 0 <= i < ks.len() && ks[i] == k;
                assert(self.model@.dom().contains(self.entries[i].key.key_view()));
            }
        }
        assert(ks.no_duplicates()) by {
            assert forall|i: int, j: int| 0 <= i < ks.len() && 0 <= j < ks.len() && i != j implies ks[i]
                != ks[j] by {
                assert(self.entries[i].key.key_view() != self.entries[j].key.key_view());
            }
        }
        ks.unique_seq_to_set();
        vstd::seq_lib::seq_to_set_is_finite(ks);
        if self.spec_len() == 0 {
            assert(self@.dom() =~= Set::empty());
        }
    }

    pub fn new() -> (t: Self)
        ensures
            t.wf(),
            t@ == Map::<K::V, Map<NodeId, Seq<u8>>>::empty(),
    {
        VoteTable { entries: Vec::new(), model: Ghost(Map::empty()) }
    }

    pub fn len(&self) -> (n: usize)
        ensures
            n == self.spec_len(),
    {
        self.entries.len()
    }

    /// The position of `key` in the table, if it is there.
    pub fn find(&self, key: &K) -> (r: Option<usize>)
        requires
            self.wf(),
        ensures
            match r {
                Some(i) => i < self.spec_len() && self.key_at(i as int) == key.key_view(),
                None => !self@.dom().contains(key.key_view()),
            },
    {
        let mut i: usize = 0;
        while i < self.entries.len()
            invariant
                self.wf(),
                0 <= i <= self.entries.len(),
                forall|j: int| 0 <= j < i ==> self.entries[j].key.key_view() != key.key_view(),
            decreases self.entries.len() - i,
        {
            if self.entries[i].key.key_eq(key) {
                return Some(i);
            }
            i = i + 1;
        }
        proof {
            if self.model@.dom().contains(key.key_view()) {
                let j = choose|j: int|
                    0 <= j < self.entries.len() && (#[trigger] self.entries[j]).key.key_view()
                        == key.key_view();
                assert(self.entries[j].key.key_view() == key.key_view());
            }
        }
        None
    }

    pub fn key(&self, i: usize) -> (k: &K)
        requires
            i < self.spec_len(),
        ensures
            k.key_view() == self.key_at(i as int),
    {
        &self.entries[i].key
    }

    /// The number of votes stored at position `i`.
    pub fn count_at(&self, i: usize) -> (n: usize)
        requires
            self.wf(),
            i < self.spec_len(),
        ensures
            n == vote_count(self@, self.key_at(i as int)),
    {
        proof {
            lemma_votes_count(self.entries[i as int].votes@, self.model@[self.key_at(i as int)]);
        }
        self.entries[i].votes.len()
    }

    /// A copy of the votes stored at position `i`.
    pub fn votes_at(&self, i: usize) -> (v: Vec<(NodeId, PartialSignature)>)
        requires
            self.wf(),
            i < self.spec_len(),
        ensures
            votes_match(v@, self@[self.key_at(i as int)]),
    {
        let src = &self.entries[i].votes;
        let mut out: Vec<(NodeId, PartialSignature)> = Vec::new();
        let mut a: usize = 0;
        while a < src.len()
            invariant
                0 <= a <= src.len(),
                out.len() == a,
                forall|b: int| 0 <= b < a ==> (#[trigger] out@[b]).0 == src@[b].0 && out@[b].1@
                    == src@[b].1@,
            decreases src.len() - a,
        {
            let (voter, sig) = (src[a].0, src[a].1.duplicate());
            out.push((voter, sig));
            a = a + 1;
        }
        proof {
            let m = self.model@[self.key_at(i as int)];
            assert(votes_match(src@, m));
            let ov = out@;
            assert(votes_match(ov, m)) by {
                assert forall|x: int, y: int|
                    0 <= x < ov.len() && 0 <= y < ov.len() && x != y implies #[trigger] ov[x].0
                    != #[trigger] ov[y].0 by {
                    assert(src@[x].0 != src@[y].0);
                }
                assert forall|v: NodeId| #[trigger] m.dom().contains(v) implies exists|x: int|
                    0 <= x < ov.len() && #[trigger] ov[x].0 == v by {
                    let x = choose|x: int| 0 <= x < src@.len() && #[trigger] src@[x].0 == v;
                    assert(ov[x].0 == v);
                }
                assert forall|x: int| 0 <= x < ov.len() implies #[trigger] m.dom().contains(
                    ov[x].0,
                ) && m[ov[x].0] == ov[x].1@ by {
                    assert(src@[x].0 == ov[x].0);
                    assert(m.dom().contains(src@[x].0));
                }

            }
        }
        out
    }

    /// The position of a key with the most votes; `None` when the table is empty.
    pub fn max_votes_index(&self) -> (r: Option<usize>)
        requires
            self.wf(),
        ensures
            r is None <==> self@.dom() =~= Set::empty(),
            r matches Some(i) ==> i < self.spec_len() && forall|k: K::V| #[trigger]
                self@.dom().contains(k) ==> vote_count(self@, k) <= vote_count(
                    self@,
                    self.key_at(i as int),
                ),
    {
        proof {
            self.lemma_keys();
        }
        if self.entries.len() == 0 {
            return None;
        }
        let mut best: usize = 0;
        let mut i: usize = 1;
        while i < self.entries.len()
            invariant
                self.wf(),
                1 <= i <= self.entries.len(),
                best < i,
                forall|j: int|
                    0 <= j < i ==> self.entries[j].votes.len() <= self.entries[best as int].votes.len(),
            decreases self.entries.len() - i,
        {
            if self.entries[i].votes.len() >= self.entries[best].votes.len() {
                best = i;
            }
            i = i + 1;
        }
        proof {
            assert forall|k: K::V| #[trigger] self@.dom().contains(k) implies vote_count(self@, k)
                <= vote_count(self@, self.key_at(best as int)) by {
                let j = choose|j: int| 0 <= j < self.spec_len() && self.key_at(j) == k;
                lemma_votes_count(self.entries[j].votes@, self.model@[k]);
                lemma_votes_count(
                    self.entries[best as int].votes@,
                    self.model@[self.key_at(best as int)],
                );
            }
        }
        Some(best)
    }

    /// The position of a key of the highest rank; `None` when the table is empty.
    pub fn max_rank_index(&self) -> (r: Option<usize>)
        requires
            self.wf(),
        ensures
            r is None <==> self@.dom() =~= Set::empty(),
            r matches Some(i) ==> i < self.spec_len() && forall|k: K::V| #[trigger]
                self@.dom().contains(k) ==> K::view_rank(k) <= K::view_rank(self.key_at(i as int)),
    {
        proof {
            self.lemma_keys();
        }
        if self.entries.len() == 0 {
            return None;
        }
        let mut best: usize = 0;
        let mut best_rank: u64 = self.entries[0].key.rank();
        let mut i: usize = 1;
        while i < self.entries.len()
            invariant
                self.wf(),
                1 <= i <= self.entries.len(),
                best < i,
                best_rank == K::view_rank(self.entries[best as int].key.key_view()),
                forall|j: int|
                    0 <= j < i ==> K::view_rank(self.entries[j].key.key_view()) <= best_rank,
            decreases self.entries.len() - i,
        {
            let r = self.entries[i].key.rank();
            if r >= best_rank {
                best = i;
                best_rank = r;
            }
            i = i + 1;
        }
        proof {
            assert forall|k: K::V| #[trigger] self@.dom().contains(k) implies K::view_rank(k)
                <= K::view_rank(self.key_at(best as int)) by {
                let j = choose|j: int| 0 <= j < self.spec_len() && self.key_at(j) == k;
                assert(K::view_rank(self.entries[j].key.key_view()) <= best_rank);
            }
        }
        Some(best)
    }

    /// Records that `voter` voted for `key` with signature `sig`; a later vote of
    /// the same voter for the same key replaces the earlier signature.
    /// Returns whether the voter had not voted for that key before.
    pub fn insert_vote(&mut self, key: K, voter: NodeId, sig: PartialSignature) -> (fresh: bool)
        requires
            old(self).wf(),
        ensures
            final(self).wf(),
            final(self)@ == with_vote(old(self)@, key.key_view(), voter, sig@),
            fresh == !has_voted(old(self)@, key.key_view(), voter),
    {
        let ghost kv = key.key_view();
        let ghost sv = sig@;
        match self.find(&key) {
            Some(i) => {
                let ghost orig = self.entries@;
                let ghost m_old = self.model@[kv];
                let mut entry_votes: Vec<(NodeId, PartialSignature)> = Vec::new();
                std::mem::swap(&mut entry_votes, &mut self.entries[i].votes);
                assert(votes_match(entry_votes@, m_old));
                let mut a: usize = 0;
                let mut found: Option<usize> = None;
                while a < entry_votes.len()
                    invariant_except_break
                        0 <= a <= entry_votes.len(),
                        found is None,
                        forall|b: int| 0 <= b < a ==> entry_votes@[b].0 != voter,
                    ensures
                        found matches Some(b) ==> b < entry_votes.len() && entry_votes@[b as int].0
                            == voter,
                        found is None ==> forall|b: int|
                            0 <= b < entry_votes.len() ==> entry_votes@[b].0 != voter,
                    decreases entry_votes.len() - a,
                {
                    if entry_votes[a].0 == voter {
                        found = Some(a);
                        break;
                    }
                    a = a + 1;
                }
                let ghost pre_votes = entry_votes@;
                let fresh = match found {
                    Some(b) => {
                        entry_votes.set(b, (voter, sig));
                        false
                    },
                    None => {
                        entry_votes.push((voter, sig));
                        true
                    },
                };
                let ghost m_new = m_old.insert(voter, sv);
                proof {
                    let post = entry_votes@;
                    match found {
                        Some(b) => {
                            assert(post == pre_votes.update(b as int, (voter, sig)));
                            assert forall|x: int, y: int|
                                0 <= x < post.len() && 0 <= y < post.len() && x != y implies #[trigger] post[x].0
                                != #[trigger] post[y].0 by {
                                assert(pre_votes[x].0 != pre_votes[y].0);
                            }
                            assert forall|v: NodeId| #[trigger] m_new.dom().contains(v) implies exists|x: int|
                                0 <= x < post.len() && #[trigger] post[x].0 == v by {
                                if v == voter {
                                    assert(post[b as int].0 == v);
                                } else {
                                    let x = choose|x: int| 0 <= x < pre_votes.len() && #[trigger] pre_votes[x].0 == v;
                                    assert(post[x].0 == v);
                                }
                            }
                            assert forall|x: int| 0 <= x < post.len() implies #[trigger] m_new.dom().contains(
                                post[x].0,
                            ) && m_new[post[x].0] == post[x].1@ by {
                                if x != b {
                                    assert(pre_votes[x].0 != pre_votes[b as int].0);
                                }
                            }
                            assert(m_old.dom().contains(voter));
                        },
                        None => {
                            assert(post == pre_votes.push((voter, sig)));
                            assert forall|x: int, y: int|
                                0 <= x < post.len() && 0 <= y < post.len() && x != y implies #[trigger] post[x].0
                                != #[trigger] post[y].0 by {
                                if x < pre_votes.len() && y < pre_votes.len() {
                                    assert(pre_votes[x].0 != pre_votes[y].0);
                                }
                            }
                            assert forall|v: NodeId| #[trigger] m_new.dom().contains(v) implies exists|x: int|
                                0 <= x < post.len() && #[trigger] post[x].0 == v by {
                                if v == voter {
                                    assert(post[pre_votes.len() as int].0 == v);
                                } else {
                                    let x = choose|x: int| 0 <= x < pre_votes.len() && #[trigger] pre_votes[x].0 == v;
                                    assert(post[x].0 == v);
                                }
                            }
                            assert forall|x: int| 0 <= x < post.len() implies #[trigger] m_new.dom().contains(
                                post[x].0,
                            ) && m_new[post[x].0] == post[x].1@ by {
                                if x < pre_votes.len() {
                                    assert(pre_votes[x].0 != voter);
                                }
                            }
                            if m_old.dom().contains(voter) {
                                let x = choose|x: int| 0 <= x < pre_votes.len() && #[trigger] pre_votes[x].0 == voter;
                                assert(false);
                            }
                        },
                    }
                    assert(votes_match(post, m_new));
                }
                let ghost old_entries = self.entries@;
                std::mem::swap(&mut entry_votes, &mut self.entries[i].votes);
                proof {
                    self.model@ = self.model@.insert(kv, m_new);
                    assert forall|j: int| 0 <= j < self.entries.len() && j != i implies self.entries[j]
                        == old_entries[j] by {}
                    assert(self.wf()) by {
                        assert forall|k: K::V| #[trigger] self.model@.dom().contains(k) implies exists|j: int|
                            0 <= j < self.entries.len() && (#[trigger] self.entries[j]).key.key_view() == k by {
                            if k == kv {
                                assert(self.entries[i as int].key.key_view() == k);
                            } else {
                                assert(old(self).model@.dom().contains(k));
                                let j = choose|j: int|
                                    0 <= j < orig.len() && (#[trigger] orig[j]).key.key_view() == k;
                                assert(self.entries[j].key == orig[j].key);
                                assert(self.entries[j].key.key_view() == k);
                            }
                        }
                        assert forall|j: int|
                            0 <= j < self.entries.len() implies self.model@.dom().contains(
                                (#[trigger] self.entries[j]).key.key_view(),
                            ) && votes_match(self.entries[j].votes@, self.model@[self.entries[j].key.key_view()]) by {
                            if j != i {
                                assert(old_entries[j].key.key_view() != old_entries[i as int].key.key_view());
                            }
                        }
                        assert forall|x: int, y: int|
                            0 <= x < self.entries.len() && 0 <= y < self.entries.len() && x != y implies (
                            #[trigger] self.entries[x]).key.key_view() != (#[trigger] self.entries[y]).key.key_view() by {
                            assert(old_entries[x].key.key_view() != old_entries[y].key.key_view());
                        }
                    }
                    assert(self.model@ =~= with_vote(old(self)@, kv, voter, sv));
                }
                fresh
            },
            None => {
                let mut votes: Vec<(NodeId, PartialSignature)> = Vec::new();
                votes.push((voter, sig));
                let ghost m_new = Map::<NodeId, Seq<u8>>::empty().insert(voter, sv);
                proof {
                    assert(votes@[0].0 == voter);
                    assert(votes_match(votes@, m_new)) by {
                        assert forall|v: NodeId| #[trigger] m_new.dom().contains(v) implies exists|x: int|
                            0 <= x < votes@.len() && #[trigger] votes@[x].0 == v by {
                            assert(votes@[0].0 == v);
                        }
                    }
                }
                let ghost old_entries = self.entries@;
                self.entries.push(VoteEntry { key, votes });
                proof {
                    self.model@ = self.model@.insert(kv, m_new);
                    let n = old_entries.len() as int;
                    assert(self.entries@[n].key.key_view() == kv);
                    assert forall|j: int| 0 <= j < n implies self.entries@[j] == old_entries[j] by {}
                    assert(self.wf()) by {
                        assert forall|k: K::V| #[trigger] self.model@.dom().contains(k) implies exists|j: int|
                            0 <= j < self.entries.len() && (#[trigger] self.entries[j]).key.key_view() == k by {
                            if k == kv {
                                assert(self.entries[n].key.key_view() == k);
                            } else {
                                assert(old(self).model@.dom().contains(k));
                                let j = choose|j: int|
                                    0 <= j < old_entries.len() && (#[trigger] old_entries[j]).key.key_view() == k;
                                assert(self.entries[j].key.key_view() == k);
                            }
                        }
                        assert forall|j: int|
                            0 <= j < self.entries.len() implies self.model@.dom().contains(
                                (#[trigger] self.entries[j]).key.key_view(),
                            ) && votes_match(self.entries[j].votes@, self.model@[self.entries[j].key.key_view()]) by {
                            if j < n {
                                assert(old(self).model@.dom().contains(old_entries[j].key.key_view()));
                                assert(old_entries[j].key.key_view() != kv);
                            }
                        }
                        assert forall|x: int, y: int|
                            0 <= x < self.entries.len() && 0 <= y < self.entries.len() && x != y implies (
                            #[trigger] self.entries[x]).key.key_view() != (#[trigger] self.entries[y]).key.key_view() by {
                            if x < n && y < n {
                                assert(old_entries[x].key.key_view() != old_entries[y].key.key_view());
                            } else if x < n {
                                assert(old(self).model@.dom().contains(old_entries[x].key.key_view()));
                            } else if y < n {
                                assert(old(self).model@.dom().contains(old_entries[y].key.key_view()));
                            }
                        }
                    }
                    assert(self.model@ =~= with_vote(old(self)@, kv, voter, sv));
                }
                true
            },
        }
    }

    /// Records the vote of `voter` for `key` only when the voter had not voted for
    /// that key yet, and then returns the number of votes for the key.
    pub fn insert_vote_if_absent(&mut self, key: K, voter: NodeId, sig: PartialSignature) -> (r:
        Option<usize>)
        requires
            old(self).wf(),
        ensures
            final(self).wf(),
            has_voted(old(self)@, key.key_view(), voter) ==> r is None && *final(self) == *old(self),
            !has_voted(old(self)@, key.key_view(), voter) ==> final(self)@ == with_vote(
                old(self)@,
                key.key_view(),
                voter,
                sig@,
            ) && r == Some(vote_count(final(self)@, key.key_view()) as usize) && vote_count(final(self)@, key.key_view()) <= usize::MAX,
    {
        let ghost kv = key.key_view();
        if self.has_vote(&key, voter) {
            return None;
        }
        let key_copy = key.key_clone();
        self.insert_vote(key, voter, sig);
        match self.find(&key_copy) {
            Some(i) => Some(self.count_at(i)),
            None => {
                proof {
                    assert(self@.dom().contains(kv));
                }
                vstd::pervasive::unreached()
            },
        }
    }

    /// Whether `voter` has voted for `key`.
    pub fn has_vote(&self, key: &K, voter: NodeId) -> (b: bool)
        requires
            self.wf(),
        ensures
            b == has_voted(self@, key.key_view(), voter),
    {
        match self.find(key) {
            None => false,
            Some(i) => {
                let votes = &self.entries[i].votes;
                let ghost m = self.model@[key.key_view()];
                proof {
                    assert(self.model@.dom().contains(self.entries[i as int].key.key_view()));
                }
                let mut a: usize = 0;
                while a < votes.len()
                    invariant
                        0 <= a <= votes.len(),
                        votes_match(votes@, m),
                        m == self@[key.key_view()],
                        self@.dom().contains(key.key_view()),
                        forall|b: int| 0 <= b < a ==> votes@[b].0 != voter,
                    decreases votes.len() - a,
                {
                    if votes[a].0 == voter {
                        proof {
                            assert(m.dom().contains(votes@[a as int].0));
                        }
                        return true;
                    }
                    a = a + 1;
                }
                proof {
                    if m.dom().contains(voter) {
                        let x = choose|x: int| 0 <= x < votes@.len() && #[trigger] votes@[x].0 == voter;
                        assert(votes@[x].0 != voter);
                    }
                }
                false
            },
        }
    }
}

} // verus!
