//! The threshold signature operations the protocols rely on.
use crate::ordering::{CombinedSignature, NodeId, PartialSignature};
use crate::vote_table::votes_match;
use vstd::prelude::*;

verus! {

/// The voters and signature shares of a list of votes.
pub open spec fn share_views(signatures: Seq<(NodeId, PartialSignature)>) -> Seq<(NodeId, Seq<u8>)> {
    Seq::new(signatures.len(), |i: int| (signatures[i].0, signatures[i].1@))
}

/// Combines the signature shares of a quorum into one threshold signature.
/// Implemented by whoever holds the key material of the replica: combining is
/// a function of the shares handed over, `combined`, which gives no signature
/// exactly when combining fails.
pub trait CryptoSignatureCombiner {
    type CombinationError;

    /// The signature combined from the given shares, when they combine.
    spec fn combined(&self, signatures: Seq<(NodeId, Seq<u8>)>) -> Option<Seq<u8>>;

    fn combine_signatures(&self, signatures: &[(NodeId, PartialSignature)]) -> (r: Result<
        CombinedSignature,
        Self::CombinationError,
    >)
        ensures
            match r {
                Ok(s) => self.combined(share_views(signatures@)) == Some(s@),
                Err(_) => self.combined(share_views(signatures@)) is None,
            },
    ;
}

/// Combining the votes `votes` (one share per voter, in some order) with
/// `crypto` gives `r`.
pub open spec fn shares_combine_to<CP: CryptoSignatureCombiner>(
    crypto: CP,
    votes: Map<NodeId, Seq<u8>>,
    r: Option<Seq<u8>>,
) -> bool {
    exists|s: Seq<(NodeId, PartialSignature)>| #[trigger] votes_match(s, votes) && crypto.combined(share_views(s)) == r
}

/// The cryptographic capabilities a protocol instance needs.
pub trait CryptoProvider: CryptoSignatureCombiner {

}

/// The signature shares could not be combined.
#[derive(Debug, Clone, Copy, PartialEq, Eq, Structural)]
pub enum CombinationError {
    FailedToCombinePartialSignatures,
}

/// Combines the shares of a quorum with the given provider: the provider's
/// combination of exactly these shares.
pub fn combine_partial_signatures<CP: CryptoSignatureCombiner>(
    crypto_info: &CP,
    signatures: &[(NodeId, PartialSignature)],
) -> (r: Result<CombinedSignature, CP::CombinationError>)
    ensures
        match r {
            Ok(s) => crypto_info.combined(share_views(signatures@)) == Some(s@),
            Err(_) => crypto_info.combined(share_views(signatures@)) is None,
        },
{
    crypto_info.combine_signatures(signatures)
}

} // verus!
