//! The hub's request handlers: each authenticates the caller, runs one
//! store operation, and reports failures as errors with an HTTP status.
use vstd::prelude::*;

use crate::counts::KeystrokesStats;
use crate::hub::{
    hub_commit_done, initiate_done, terminate_done, HubStore, KeyrHubstorageError, MaybeUserId,
    Token,
};
use crate::types::{Summary, SynchronizeRequest};

verus! {

/// Why the hub refused a request.
#[derive(Clone, Debug)]
pub enum KeyrHubError {
    /// A protected route was called without a token header.
    MissingKeyrTokenHeader,
    /// The store refused the operation.
    Storage(KeyrHubstorageError),
    /// The requested counts are not public.
    PrivateData,
}

/// The HTTP status that reports `e`.
pub open spec fn status_of(e: KeyrHubError) -> u16 {
    match e {
        KeyrHubError::PrivateData => 401,
        KeyrHubError::MissingKeyrTokenHeader => 401,
        KeyrHubError::Storage(s) => match s {
            KeyrHubstorageError::InvalidToken => 401,
            KeyrHubstorageError::UnknownUser => 400,
            KeyrHubstorageError::AlreadyUsedNickname(_) => 400,
            KeyrHubstorageError::InvalidTimestamp => 400,
            _ => 500,
        },
    }
}

/// A store result as a request result.
pub open spec fn lift<T>(r: Result<T, KeyrHubstorageError>) -> Result<T, KeyrHubError> {
    match r {
        Ok(v) => Ok(v),
        Err(e) => Err(KeyrHubError::Storage(e)),
    }
}

impl KeyrHubError {
    /// The HTTP status that reports this error.
    pub fn status_code(&self) -> (r: u16)
        ensures
            r == status_of(*self),
    {
        match self {
            KeyrHubError::PrivateData => 401,
            KeyrHubError::MissingKeyrTokenHeader => 401,
            KeyrHubError::Storage(s) => match s {
                KeyrHubstorageError::InvalidToken => 401,
                KeyrHubstorageError::UnknownUser => 400,
                KeyrHubstorageError::AlreadyUsedNickname(_) => 400,
                KeyrHubstorageError::InvalidTimestamp => 400,
                _ => 500,
            },
        }
    }
}

/// The user that the request's token authenticates.
fn authenticate(hub: &HubStore, token: Option<&Token>) -> (r: Result<MaybeUserId, KeyrHubError>)
    requires
        hub.wf(),
    ensures
        token is None ==> r matches Err(KeyrHubError::MissingKeyrTokenHeader),
        token matches Some(t) ==> match hub.token_user(t.0@) {
            None => r matches Err(KeyrHubError::Storage(KeyrHubstorageError::InvalidToken)),
            Some(id) => r matches Ok(u) && u.0 == id && hub.has_user(id),
        },
{
    match token {
        None => Err(KeyrHubError::MissingKeyrTokenHeader),
        Some(t) => match hub.identify_user_by_token(t) {
            Ok(u) => Ok(u),
            Err(e) => Err(KeyrHubError::Storage(e)),
        },
    }
}

/// `POST /commit`: merges the request's staging area into the caller's
/// ledger and returns the summary.
pub fn commit(hub: &mut HubStore, token: Option<&Token>, request: &SynchronizeRequest) -> (r:
    Result<Summary, KeyrHubError>)
    requires
        old(hub).wf(),
    ensures
        final(hub).wf(),
        token is None ==> (r matches Err(KeyrHubError::MissingKeyrTokenHeader)) && final(hub).same_state(*old(hub)),
        token matches Some(t) ==> match old(hub).token_user(t.0@) {
            None => (r matches Err(KeyrHubError::Storage(KeyrHubstorageError::InvalidToken)))
                && final(hub).same_state(*old(hub)),
            Some(id) => exists|hr: Result<Summary, KeyrHubstorageError>|
                hub_commit_done(*old(hub), *final(hub), id, request.today, request.staging_area@, hr)
                    && r == #[trigger] lift(hr),
        },
{
    let mid = match authenticate(hub, token) {
        Ok(m) => m,
        Err(e) => return Err(e),
    };
    let hr = hub.commit(mid, request.today, &request.staging_area);
    assert(lift(hr) == match hr {
        Ok(v) => Ok::<Summary, KeyrHubError>(v),
        Err(e) => Err(KeyrHubError::Storage(e)),
    });
    match hr {
        Ok(s) => Ok(s),
        Err(e) => Err(KeyrHubError::Storage(e)),
    }
}

/// `POST /revert/initiate`: freezes the caller and returns its full ledger.
pub fn revert_initiate(hub: &mut HubStore, token: Option<&Token>) -> (r: Result<
    KeystrokesStats,
    KeyrHubError,
>)
    requires
        old(hub).wf(),
    ensures
        final(hub).wf(),
        token is None ==> (r matches Err(KeyrHubError::MissingKeyrTokenHeader)) && final(hub).same_state(*old(hub)),
        token matches Some(t) ==> match old(hub).token_user(t.0@) {
            None => (r matches Err(KeyrHubError::Storage(KeyrHubstorageError::InvalidToken)))
                && final(hub).same_state(*old(hub)),
            Some(id) => exists|hr: Result<KeystrokesStats, KeyrHubstorageError>|
                initiate_done(*old(hub), *final(hub), id, hr) && r == #[trigger] lift(hr),
        },
{
    let mid = match authenticate(hub, token) {
        Ok(m) => m,
        Err(e) => return Err(e),
    };
    let hr = hub.initiate_revert(mid);
    let ghost g = hr;
    match hr {
        Ok(v) => {
            assert(lift(g) == Ok::<KeystrokesStats, KeyrHubError>(v));
            Ok(v)
        },
        Err(e) => {
            assert(lift(g) == Err::<KeystrokesStats, KeyrHubError>(KeyrHubError::Storage(e)));
            Err(KeyrHubError::Storage(e))
        },
    }
}

/// `POST /revert/terminate`: deletes the caller's ledger and unfreezes it.
pub fn revert_terminate(hub: &mut HubStore, token: Option<&Token>) -> (r: Result<(), KeyrHubError>)
    requires
        old(hub).wf(),
    ensures
        final(hub).wf(),
        token is None ==> (r matches Err(KeyrHubError::MissingKeyrTokenHeader)) && final(hub).same_state(*old(hub)),
        token matches Some(t) ==> match old(hub).token_user(t.0@) {
            None => (r matches Err(KeyrHubError::Storage(KeyrHubstorageError::InvalidToken)))
                && final(hub).same_state(*old(hub)),
            Some(id) => exists|hr: Result<(), KeyrHubstorageError>|
                terminate_done(*old(hub), *final(hub), id, hr) && r == #[trigger] lift(hr),
        },
{
    let mid = match authenticate(hub, token) {
        Ok(m) => m,
        Err(e) => return Err(e),
    };
    let hr = hub.terminate_revert(mid);
    let ghost g = hr;
    match hr {
        Ok(v) => {
            assert(lift(g) == Ok::<(), KeyrHubError>(v));
            Ok(v)
        },
        Err(e) => {
            assert(lift(g) == Err::<(), KeyrHubError>(KeyrHubError::Storage(e)));
            Err(KeyrHubError::Storage(e))
        },
    }
}

/// `POST /revert/cancel`: unfreezes the caller without deleting anything.
pub fn revert_cancel(hub: &mut HubStore, token: Option<&Token>) -> (r: Result<(), KeyrHubError>)
    requires
        old(hub).wf(),
    ensures
        final(hub).wf(),
        token is None ==> (r matches Err(KeyrHubError::MissingKeyrTokenHeader)) && final(hub).same_state(*old(hub)),
        token matches Some(t) ==> match old(hub).token_user(t.0@) {
            None => (r matches Err(KeyrHubError::Storage(KeyrHubstorageError::InvalidToken)))
                && final(hub).same_state(*old(hub)),
            Some(id) => r is Ok && !final(hub).frozen_of(id) && final(hub).rows_of(id) == old(
                hub,
            ).rows_of(id) && final(hub).others_unchanged(*old(hub), id),
        },
{
    let mid = match authenticate(hub, token) {
        Ok(m) => m,
        Err(e) => return Err(e),
    };
    match hub.cancel_revert(mid) {
        Ok(()) => Ok(()),
        Err(e) => Err(KeyrHubError::Storage(e)),
    }
}

/// `GET /view/{name}`: the ledger of the user named `name`, where that user
/// made it public.
pub fn view_stats(hub: &HubStore, name: &String) -> (r: Result<KeystrokesStats, KeyrHubError>)
    requires
        hub.wf(),
    ensures
        !hub.name_taken(name@) ==> r matches Err(
            KeyrHubError::Storage(KeyrHubstorageError::UnknownUser),
        ),
        forall|id: int|
            hub.has_user(id) && #[trigger] hub.name_of(id) == name@ ==> if hub.visible_of(id) {
                r matches Ok(v) && v@ == hub.rows_of(id)
            } else {
                r matches Err(KeyrHubError::PrivateData)
            },
{
    let id = match hub.find_user_by_name(name) {
        Ok(id) => id,
        Err(e) => return Err(KeyrHubError::Storage(e)),
    };
    proof {
        assert forall|j: int| hub.has_user(j) && #[trigger] hub.name_of(j) == name@ implies j
            == id.0 by {
            if j != id.0 {
                assert(hub.name_of(j) != hub.name_of(id.0 as int));
            }
        }
    }
    if !hub.is_visible(id) {
        return Err(KeyrHubError::PrivateData);
    }
    Ok(hub.get_keystrokes_stats(id))
}

} // verus!
