//! Where a leader takes the client requests it proposes from.
use crate::decision_tree::StoredMessage;
use crate::ordering::Digest;
use vstd::prelude::*;

verus! {

/// The aggregator of pending client requests: taking its pool hands out the
/// requests gathered so far together with their digest, and empties it.
pub trait ReqAggregator<RQ> {
    /// Whether the pool hands out the requests `requests`, in this order, with
    /// the digest `digest` of their batch. A pool that says nothing more
    /// leaves this open.
    closed spec fn hands_out(&self, requests: Seq<StoredMessage<RQ>>, digest: Digest) -> bool {
        true
    }

    fn take_pool_requests(&self) -> (r: (Vec<StoredMessage<RQ>>, Digest))
        ensures
            self.hands_out(r.0@, r.1),
    ;
}

} // verus!
