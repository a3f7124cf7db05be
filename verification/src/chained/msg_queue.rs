//! The messages a chained decision could not handle yet, in arrival order.
use crate::chained::messages::IronChainMessage;
use crate::decision_tree::StoredMessage;
use std::collections::VecDeque;
use vstd::prelude::*;

verus! {

pub struct ChainedHotStuffMsgQueue<D> {
    pub get_queue: bool,
    pub pending_messages: VecDeque<StoredMessage<IronChainMessage<D>>>,
}

impl<D> ChainedHotStuffMsgQueue<D> {
    pub fn new() -> (q: ChainedHotStuffMsgQueue<D>)
        ensures
            !q.get_queue,
            q.pending_messages@ == Seq::<StoredMessage<IronChainMessage<D>>>::empty(),
    {
        ChainedHotStuffMsgQueue { get_queue: false, pending_messages: VecDeque::new() }
    }

    pub fn should_poll(&self) -> (b: bool)
        ensures
            b == self.get_queue,
    {
        self.get_queue
    }

    /// Append a message and mark the queue as worth polling.
    pub fn queue_message(&mut self, message: StoredMessage<IronChainMessage<D>>)
        ensures
            final(self).get_queue,
            final(self).pending_messages@ == old(self).pending_messages@.push(message),
    {
        self.get_queue = true;
        self.pending_messages.push_back(message);
    }

    /// Take the oldest message; an empty queue is no longer worth polling.
    pub fn pop_message(&mut self) -> (r: Option<StoredMessage<IronChainMessage<D>>>)
        ensures
            old(self).pending_messages@.len() == 0 ==> r is None && !final(self).get_queue
                && final(self).pending_messages@ == old(self).pending_messages@,
            old(self).pending_messages@.len() > 0 ==> r == Some(old(self).pending_messages@[0])
                && final(self).get_queue == old(self).get_queue && final(self).pending_messages@
                == old(self).pending_messages@.drop_first(),
    {
        let popped = self.pending_messages.pop_front();
        if popped.is_none() {
            self.get_queue = false;
        }
        popped
    }
}

} // verus!
