//! Bidirectional byte bridging between a local reader/writer pair (helper
//! stdio, or a spawned git service's pipes) and an iroh stream pair: what the end
//! of one direction means for the stream, for the other direction, and for the
//! bridge. `E` is the error of a failed copy.
use vstd::prelude::*;

verus! {

/// How the copying in one direction came to an end.
pub enum CopyEvent<E> {
    /// All was copied, as many bytes.
    Finished(u64),
    /// Copying failed.
    Failed(E),
    /// The other direction failed.
    Cancelled,
}

/// What is to be done with the stream that was copied to or from.
pub enum CopyEnd<E> {
    /// Close it in good order, so that its reader sees the end.
    Close(u64),
    /// Leave it to the error.
    Fail(E),
    /// Abort it, and report the direction as cancelled.
    Abort,
}

/// What the end of a direction asks for: a clean end closes the stream, a cancelled
/// direction aborts it.
pub fn copy_end<E>(event: CopyEvent<E>) -> (r: CopyEnd<E>)
    ensures
        r == match event {
            CopyEvent::Finished(n) => CopyEnd::Close(n),
            CopyEvent::Failed(e) => CopyEnd::Fail(e),
            CopyEvent::Cancelled => CopyEnd::Abort,
        },
{
    match event {
        CopyEvent::Finished(n) => CopyEnd::Close(n),
        CopyEvent::Failed(e) => CopyEnd::Fail(e),
        CopyEvent::Cancelled => CopyEnd::Abort,
    }
}

/// Whether the other direction is to be cancelled: an error on one direction cancels
/// the other; a clean EOF does not (half-close is a normal part of the git protocols).
pub fn cancels_other<E>(res: &Result<u64, E>) -> (r: bool)
    ensures
        r == (res is Err),
{
    match res {
        Ok(_) => false,
        Err(_) => true,
    }
}

/// How the bridge ended, once both directions have: well where both did, and else with
/// the error of the direction to the remote, where it failed, before that of the other.
pub fn forward_bidi<E>(to_remote: Result<u64, E>, to_local: Result<u64, E>) -> (r: Result<(), E>)
    ensures
        r == match (to_remote, to_local) {
            (Err(e), _) => Err::<(), E>(e),
            (Ok(_), Err(e)) => Err::<(), E>(e),
            (Ok(_), Ok(_)) => Ok::<(), E>(()),
        },
{
    match to_remote {
        Err(e) => Err(e),
        Ok(_) => match to_local {
            Err(e) => Err(e),
            Ok(_) => Ok(()),
        },
    }
}

} // verus!
