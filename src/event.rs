//! Deduplication of events: a shared flag that lets at most one copy of an
//! event wait in the queue.
use vstd::prelude::*;

use std::sync::atomic::{AtomicBool, Ordering};
use std::sync::Arc;

verus! {

/// A flag shared between the senders of one kind of event and the receiver.
/// A sender queues the event only when it sets the flag; the receiver clears
/// the flag when it takes the event out.
#[derive(Clone, Debug)]
pub struct UniqueInstance(Arc<AtomicBool>);

impl UniqueInstance {
    /// A new flag, clear.
    pub fn new() -> (r: UniqueInstance) {
        UniqueInstance(Arc::new(AtomicBool::new(false)))
    }

    /// Set the flag if it is clear.  Returns whether this call set it, and
    /// so must queue the event.
    pub fn claim(&self) -> (r: bool) {
        let inner: &AtomicBool = &self.0;
        match inner.compare_exchange(false, true, Ordering::SeqCst, Ordering::SeqCst) {
            Ok(_) => true,
            Err(_) => false,
        }
    }

    /// Clear the flag, once the event has been taken out of the queue.
    pub fn release(&self) {
        let inner: &AtomicBool = &self.0;
        inner.store(false, Ordering::SeqCst);
    }
}

} // verus!
