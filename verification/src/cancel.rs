//! Cooperative cancellation.

use std::sync::atomic::AtomicBool;
use std::sync::Arc;
use vstd::prelude::*;

verus! {

/// A flag that a run and its callers share. A clone is a handle to the same
/// flag.
#[derive(Debug)]
pub struct CancellationToken {
    /// The flag. What a reading of it gives depends on what other holders have
    /// done by then.
    pub cancelled: Arc<AtomicBool>,
}

impl Clone for CancellationToken {
    fn clone(&self) -> (token: CancellationToken)
        ensures
            token == *self,
    {
        CancellationToken { cancelled: self.cancelled.clone() }
    }
}

impl CancellationToken {
    /// A token that is not cancelled: its flag is one that was made unset. What
    /// the flag holds later is not part of its value.
    pub fn new() -> (token: CancellationToken)
        ensures
            call_ensures(AtomicBool::new, (false,), *token.cancelled),
    {
        let make = AtomicBool::new;
        CancellationToken { cancelled: Arc::new(make(false)) }
    }

    /// Cancels the token, for all its holders: its flag is set.
    pub fn cancel(&self)
        ensures
            call_ensures(
                AtomicBool::store,
                (&*self.cancelled, true, std::sync::atomic::Ordering::SeqCst),
                (),
            ),
    {
        let store = AtomicBool::store;
        store(&*self.cancelled, true, std::sync::atomic::Ordering::SeqCst)
    }

    /// Whether the token, or a clone of it, was cancelled: what its flag reads.
    pub fn is_cancelled(&self) -> (yes: bool)
        ensures
            call_ensures(
                AtomicBool::load,
                (&*self.cancelled, std::sync::atomic::Ordering::SeqCst),
                yes,
            ),
    {
        let load = AtomicBool::load;
        load(&*self.cancelled, std::sync::atomic::Ordering::SeqCst)
    }
}

} // verus!
