//! The agent's side of the revert sequence: pull the hub's full ledger,
//! replay it into the local staging area, and have the hub clear it.
use vstd::prelude::*;

use crate::counts::{merge_fits, KeystrokesStats, StoreError};
use crate::local::{revert_replayed, LocalStore};

verus! {

/// Why a revert did not complete. Each variant says whether the hub
/// confirmed the cancel that followed; the local store is left as it was.
#[derive(Debug)]
pub enum RevertError<E> {
    /// The hub did not hand out its ledger.
    Initiate { error: E, cancelled: bool },
    /// The ledger could not be replayed into the staging area.
    Replay { error: StoreError, cancelled: bool },
    /// The hub did not confirm that it cleared the ledger.
    Terminate { error: E, cancelled: bool },
}

/// Runs a revert against the hub through `initiate`, `terminate` and
/// `cancel`, which make the three requests of the protocol.
///
/// The local store changes only once the hub has confirmed `terminate`:
/// then it holds the hub's ledger replayed into its staging area and no
/// summary. On any failure after `initiate` was sent, `cancel` is called so
/// that the hub unfreezes the user, and the store is left as it was, so the
/// revert may be run again from the start.
pub fn revert<E, I, T, C>(store: &mut LocalStore, initiate: I, terminate: T, cancel: C) -> (r:
    Result<(), RevertError<E>>)
    where
        I: FnOnce() -> Result<KeystrokesStats, E>,
        T: FnOnce() -> Result<(), E>,
        C: FnOnce() -> Result<(), E>,
    requires
        old(store).wf(),
        initiate.requires(()),
        terminate.requires(()),
        cancel.requires(()),
    ensures
        final(store).wf(),
        r is Err ==> final(store).same_state(*old(store)),
        r is Ok ==> exists|t: Result<(), E>| t is Ok && #[trigger] terminate.ensures((), t),
        r is Ok ==> exists|export: KeystrokesStats|
            #[trigger] initiate.ensures((), Ok::<KeystrokesStats, E>(export)) && revert_replayed(
                *old(store),
                *final(store),
                export@,
            ),
        r matches Err(RevertError::Initiate { error, cancelled }) ==> initiate.ensures(
            (),
            Err::<KeystrokesStats, E>(error),
        ) && exists|c: Result<(), E>| #[trigger] cancel.ensures((), c) && cancelled == c is Ok,
        r matches Err(RevertError::Replay { error, cancelled }) ==> (exists|v: KeystrokesStats|
            #[trigger] initiate.ensures((), Ok::<KeystrokesStats, E>(v)) && !merge_fits(
                old(store).staging_rows(),
                v@,
            )) && exists|c: Result<(), E>| #[trigger] cancel.ensures((), c) && cancelled == c is Ok,
        r matches Err(RevertError::Terminate { error, cancelled }) ==> terminate.ensures(
            (),
            Err::<(), E>(error),
        ) && exists|c: Result<(), E>| #[trigger] cancel.ensures((), c) && cancelled == c is Ok,
{
    let export = match initiate() {
        Ok(v) => v,
        Err(error) => {
            let c = cancel();
            let cancelled = c.is_ok();
            return Err(RevertError::Initiate { error, cancelled });
        },
    };
    let ghost got = export;
    let mut next = store.snapshot();
    match next.apply_revert(&export) {
        Ok(()) => {},
        Err(error) => {
            assert(initiate.ensures((), Ok::<KeystrokesStats, E>(got)));
            let c = cancel();
            let cancelled = c.is_ok();
            return Err(RevertError::Replay { error, cancelled });
        },
    }
    let done = terminate();
    let ghost done_g = done;
    match done {
        Ok(()) => {
            assert(terminate.ensures((), done_g));
        },
        Err(error) => {
            let c = cancel();
            let cancelled = c.is_ok();
            return Err(RevertError::Terminate { error, cancelled });
        },
    }
    *store = next;
    assert(initiate.ensures((), Ok::<KeystrokesStats, E>(got)));
    Ok(())
}

} // verus!
