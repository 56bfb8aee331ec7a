//! Completion tokens for staged transfers.
//!
//! A token pair shares one write-once atomic flag: the allocator keeps one
//! half inside the pending-transfer record and flips the flag when the
//! transfer lands; the caller keeps the other half and may poll it from any
//! thread without blocking.

use core::sync::atomic::{AtomicBool, Ordering};
use std::sync::Arc;
use vstd::prelude::*;

verus! {

/// A cheap, shareable completion flag for one staged transfer.
///
/// The `id` names the transfer in the allocator's ghost history; the flag is
/// the run-time observable. The flag transitions `false -> true` exactly once
/// and never reverses, so a reader must treat `false` as "unknown, possibly
/// still in flight", never as "not started".
#[derive(Debug)]
pub struct TransferToken {
    id: u64,
    complete: Arc<AtomicBool>,
}

/// Relies on `Arc::clone`: the returned handle shares the same flag cell as
/// the argument.
#[verifier::external_body]
fn clone_flag(flag: &Arc<AtomicBool>) -> (r: Arc<AtomicBool>)
    ensures
        r == *flag,
{
    flag.clone()
}

impl TransferToken {
    /// The transfer this token was minted for, as recorded in the
    /// allocator's ghost history.
    pub closed spec fn id_spec(&self) -> u64 {
        self.id
    }

    /// The transfer id this token was minted for.
    pub fn id(&self) -> (r: u64)
        ensures
            r == self.id_spec(),
    {
        self.id
    }

    /// Mints the two halves of one token: both name the same transfer and
    /// share the same flag, which starts out unset.
    pub fn create_pair(id: u64) -> (r: (TransferToken, TransferToken))
        ensures
            r.0.id_spec() == id,
            r.1.id_spec() == id,
    {
        let complete = Arc::new(AtomicBool::new(false));
        let other = clone_flag(&complete);
        (TransferToken { id, complete }, TransferToken { id, complete: other })
    }

    /// Whether the transfer this token was minted for has landed.
    ///
    /// The result is a relaxed atomic load of the shared flag: it may lag a
    /// completion observed elsewhere, but once it reads `true` it reads
    /// `true` forever. Which transfers are complete after each allocator
    /// operation is stated on the allocator itself, over token ids.
    pub fn is_complete(&self) -> bool {
        self.complete.load(Ordering::Relaxed)
    }

    /// Sets the shared flag. The allocator calls this on the internal half
    /// of a pair exactly when the transfer it names has landed; the external
    /// half observes the same cell.
    pub fn mark_completed(&self) {
        self.complete.store(true, Ordering::Relaxed);
    }
}

impl Clone for TransferToken {
    /// The clone names the same transfer and shares the same flag.
    fn clone(&self) -> (r: Self)
        ensures
            r.id_spec() == self.id_spec(),
    {
        TransferToken { id: self.id, complete: clone_flag(&self.complete) }
    }
}

} // verus!
