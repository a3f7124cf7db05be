//! Identifiers, sequence numbers, digests and signature values that the
//! protocols order, compare and carry.
use vstd::prelude::*;

verus! {

/// A sequence number (of a view or of a decision).
#[derive(Clone, Copy, Debug, PartialEq, Eq, Structural, Hash)]
pub struct SeqNo(pub u32);

/// The identifier of a replica.
#[derive(Clone, Copy, Debug, PartialEq, Eq, Structural, Hash)]
pub struct NodeId(pub u32);

/// A 256 bit digest, held as its high and low halves.
#[derive(Clone, Copy, Debug, PartialEq, Eq, Structural, Hash)]
pub struct Digest {
    pub high: u128,
    pub low: u128,
}

/// The error of a sequence number that lies before the one it is indexed against.
#[derive(Clone, Copy, Debug, PartialEq, Eq, Structural)]
pub enum InvalidSeqNo {
    Small,
}

/// The successor of a sequence number, wrapping to zero after the largest one.
pub open spec fn spec_next_seq(s: SeqNo) -> SeqNo {
    if s.0 == u32::MAX {
        SeqNo(0)
    } else {
        SeqNo((s.0 + 1) as u32)
    }
}

/// The position of `s` counted from `base`, when `s` does not lie before `base`.
pub open spec fn spec_seq_index(s: SeqNo, base: SeqNo) -> Result<usize, InvalidSeqNo> {
    if s.0 >= base.0 {
        Ok((s.0 - base.0) as usize)
    } else {
        Err(InvalidSeqNo::Small)
    }
}

impl SeqNo {
    pub fn zero() -> (s: SeqNo)
        ensures
            s.0 == 0,
    {
        SeqNo(0)
    }

    pub fn next(self) -> (s: SeqNo)
        ensures
            s == spec_next_seq(self),
    {
        if self.0 == u32::MAX {
            SeqNo(0)
        } else {
            SeqNo(self.0 + 1)
        }
    }

    /// The position of this sequence number counted from `base`.
    pub fn index(self, base: SeqNo) -> (r: Result<usize, InvalidSeqNo>)
        ensures
            r == spec_seq_index(self, base),
    {
        if self.0 >= base.0 {
            Ok((self.0 - base.0) as usize)
        } else {
            Err(InvalidSeqNo::Small)
        }
    }

    pub fn into_u32(self) -> (v: u32)
        ensures
            v == self.0,
    {
        self.0
    }

    /// Whether this sequence number is strictly after `other`.
    pub fn is_after(self, other: SeqNo) -> (b: bool)
        ensures
            b == (self.0 > other.0),
    {
        self.0 > other.0
    }
}

impl Digest {
    /// The all-zero digest.
    pub fn blank() -> (d: Digest)
        ensures
            d.high == 0 && d.low == 0,
    {
        Digest { high: 0, low: 0 }
    }
}

/// Whether two byte strings are equal.
pub fn bytes_eq(a: &Vec<u8>, b: &Vec<u8>) -> (r: bool)
    ensures
        r == (a@ == b@),
{
    if a.len() != b.len() {
        return false;
    }
    let mut i: usize = 0;
    while i < a.len()
        invariant
            a.len() == b.len(),
            0 <= i <= a.len(),
            forall|j: int| 0 <= j < i ==> a@[j] == b@[j],
        decreases a.len() - i,
    {
        if a[i] != b[i] {
            return false;
        }
        i = i + 1;
    }
    assert(a@ =~= b@);
    true
}

/// A copy of a byte string.
pub fn copy_bytes(a: &Vec<u8>) -> (r: Vec<u8>)
    ensures
        r@ == a@,
{
    let mut r: Vec<u8> = Vec::new();
    let mut i: usize = 0;
    while i < a.len()
        invariant
            0 <= i <= a.len(),
            r@ == a@.subrange(0, i as int),
        decreases a.len() - i,
    {
        r.push(a[i]);
        i = i + 1;
    }
    assert(r@ =~= a@);
    r
}

/// The share of a threshold signature produced by one replica.
#[derive(Clone, Debug)]
pub struct PartialSignature {
    pub bytes: Vec<u8>,
}

/// A threshold signature combined from the shares of a quorum.
#[derive(Clone, Debug)]
pub struct CombinedSignature {
    pub bytes: Vec<u8>,
}

impl View for PartialSignature {
    type V = Seq<u8>;

    open spec fn view(&self) -> Seq<u8> {
        self.bytes@
    }
}

impl View for CombinedSignature {
    type V = Seq<u8>;

    open spec fn view(&self) -> Seq<u8> {
        self.bytes@
    }
}

impl PartialSignature {
    pub fn new(bytes: Vec<u8>) -> (s: PartialSignature)
        ensures
            s@ == bytes@,
    {
        PartialSignature { bytes }
    }

    pub fn duplicate(&self) -> (s: PartialSignature)
        ensures
            s@ == self@,
    {
        PartialSignature { bytes: copy_bytes(&self.bytes) }
    }
}

impl CombinedSignature {
    pub fn new(bytes: Vec<u8>) -> (s: CombinedSignature)
        ensures
            s@ == bytes@,
    {
        CombinedSignature { bytes }
    }

    pub fn duplicate(&self) -> (s: CombinedSignature)
        ensures
            s@ == self@,
    {
        CombinedSignature { bytes: copy_bytes(&self.bytes) }
    }

    pub fn equals(&self, other: &CombinedSignature) -> (r: bool)
        ensures
            r == (self@ == other@),
    {
        bytes_eq(&self.bytes, &other.bytes)
    }
}

} // verus!
