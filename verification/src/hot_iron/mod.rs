//! The second generation of basic HotStuff: the same phases, with messages
//! queued by their kind and one leader routine for every phase.
pub mod decision;
pub mod msg_queue;
