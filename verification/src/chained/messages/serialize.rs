//! The wire format marker of the chained protocol's messages.
use crate::chained::messages::IronChainMessage;
use crate::decision_tree::Header;
use std::marker::PhantomData;
use vstd::prelude::*;

verus! {

/// The serialization of the chained protocol's messages for requests of type `RQ`.
pub struct IronChainSer<RQ>(pub PhantomData<RQ>);

impl<RQ> IronChainSer<RQ> {
    /// The checks a received message passes before the protocol sees it: the
    /// protocol accepts every well-formed message, and checks the rest itself.
    pub fn internally_verify_message(_header: &Header, _message: &IronChainMessage<RQ>) -> (r: Result<(), ()>)
        ensures
            r is Ok,
    {
        Ok(())
    }
}

} // verus!
