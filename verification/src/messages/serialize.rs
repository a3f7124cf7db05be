//! The wire format marker of the basic protocol's messages.
use crate::decision_tree::Header;
use crate::messages::HotFeOxMsg;
use std::marker::PhantomData;
use vstd::prelude::*;

verus! {

/// The serialization of the basic protocol's messages for requests of type `RQ`.
pub struct HotIronOxSer<RQ>(pub PhantomData<RQ>);

impl<RQ> HotIronOxSer<RQ> {
    /// The checks a received message passes before the protocol sees it: the
    /// protocol accepts every well-formed message, and checks the rest itself.
    pub fn internally_verify_message(_header: &Header, _message: &HotFeOxMsg<RQ>) -> (r: Result<(), ()>)
        ensures
            r is Ok,
    {
        Ok(())
    }
}

} // verus!
