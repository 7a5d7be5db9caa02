//! The local state cache: what is remembered between invocations, and the
//! rules for updating it.  Reading and writing the backing file is done
//! outside this crate; these functions decide what the contents become.

use vstd::prelude::*;
use crate::output::clone_user;
use crate::protocol::User;

verus! {

/// The locally cached state.
#[derive(Clone, Debug, PartialEq)]
pub struct LocalState {
    pub current_user: Option<User>,
    pub api_base_url: Option<String>,
    pub updated_at: Option<i64>,
    pub release_manifest_url: Option<String>,
    pub last_update_check_at: Option<i64>,
    pub last_update_notified_version: Option<String>,
    pub last_seen_release_version: Option<String>,
}

impl LocalState {
    /// The state of a fresh install: nothing remembered.
    pub fn empty() -> (r: LocalState)
        ensures
            r.current_user is None,
            r.api_base_url is None,
            r.updated_at is None,
            r.release_manifest_url is None,
            r.last_update_check_at is None,
            r.last_update_notified_version is None,
            r.last_seen_release_version is None,
    {
        LocalState {
            current_user: Option::None,
            api_base_url: Option::None,
            updated_at: Option::None,
            release_manifest_url: Option::None,
            last_update_check_at: Option::None,
            last_update_notified_version: Option::None,
            last_seen_release_version: Option::None,
        }
    }
}

/// Handle on the local state cache: where it lives and which API base URL
/// its contents belong to.
#[derive(Clone, Debug, PartialEq)]
pub struct LocalDb {
    pub path: String,
    pub api_base_url: String,
}

impl LocalDb {
    /// A handle for the given file and API base URL.
    pub fn new(path: String, api_base_url: String) -> (r: LocalDb)
        ensures
            r.path == path,
            r.api_base_url == api_base_url,
    {
        LocalDb { path, api_base_url }
    }

    /// Validates freshly loaded state: contents recorded against another
    /// API base URL are discarded and replaced by the empty state.
    pub fn accept_loaded_state(&self, state: LocalState) -> (r: LocalState)
        ensures
            match state.api_base_url {
                Option::Some(url) => if url@ == self.api_base_url@ {
                    r == state
                } else {
                    r.current_user is None && r.api_base_url is None && r.updated_at is None
                        && r.release_manifest_url is None && r.last_update_check_at is None
                        && r.last_update_notified_version is None
                        && r.last_seen_release_version is None
                },
                Option::None => r == state,
            },
    {
        match &state.api_base_url {
            Option::Some(url) => {
                if crate::strutil::str_eq(url.as_str(), self.api_base_url.as_str()) {
                    state
                } else {
                    LocalState::empty()
                }
            }
            Option::None => state,
        }
    }

    /// Records the signed-in user: the user is set, the state is stamped
    /// with this handle's API base URL and the given time, and everything
    /// else is kept.
    pub fn set_current_user(&self, state: LocalState, user: &User, now: i64) -> (r: LocalState)
        ensures
            r.current_user matches Option::Some(u) && u == *user,
            r.api_base_url matches Option::Some(url) && url@ == self.api_base_url@,
            r.updated_at == Option::Some(now),
            r.release_manifest_url == state.release_manifest_url,
            r.last_update_check_at == state.last_update_check_at,
            r.last_update_notified_version == state.last_update_notified_version,
            r.last_seen_release_version == state.last_seen_release_version,
    {
        LocalState {
            current_user: Option::Some(clone_user(user)),
            api_base_url: Option::Some(self.api_base_url.clone()),
            updated_at: Option::Some(now),
            ..state
        }
    }

    /// Clears the signed-in user, stamping the state like
    /// [`Self::set_current_user`] does.
    pub fn clear_current_user(&self, state: LocalState, now: i64) -> (r: LocalState)
        ensures
            r.current_user is None,
            r.api_base_url matches Option::Some(url) && url@ == self.api_base_url@,
            r.updated_at == Option::Some(now),
            r.release_manifest_url == state.release_manifest_url,
            r.last_update_check_at == state.last_update_check_at,
            r.last_update_notified_version == state.last_update_notified_version,
            r.last_seen_release_version == state.last_seen_release_version,
    {
        LocalState {
            current_user: Option::None,
            api_base_url: Option::Some(self.api_base_url.clone()),
            updated_at: Option::Some(now),
            ..state
        }
    }
}

} // verus!
