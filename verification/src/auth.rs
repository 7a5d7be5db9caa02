//! The token store's rules: which saved or injected token counts, and
//! what gets written back.  File and environment access happen outside
//! this crate.

use vstd::prelude::*;
use crate::query::{spec_skip_space, spec_trim_end};
use crate::strutil::str_eq;

verus! {

/// The contents of the secrets file.
#[derive(Clone, Debug, PartialEq)]
pub struct SecretsFile {
    pub token: Option<String>,
    pub api_base_url: Option<String>,
    pub updated_at: Option<i64>,
}

/// Handle on the token store: where it lives and which API base URL its
/// contents belong to.
#[derive(Clone, Debug, PartialEq)]
pub struct AuthStore {
    pub path: String,
    pub api_base_url: String,
}

/// A string that is empty or all whitespace.
pub open spec fn spec_blank(s: Seq<char>) -> bool {
    spec_skip_space(s, 0) >= spec_trim_end(s, s.len() as int)
}

/// Whether a string is empty or all whitespace.
pub fn is_blank(s: &str) -> (r: bool)
    ensures
        r == spec_blank(s@),
{
    let n = s.unicode_len();
    crate::query::skip_space(s, n, 0) >= crate::query::trim_end_index(s, n)
}

/// What falling back to the secrets file yields: its token exactly when
/// the file belongs to this API base URL (or names none) and the token is
/// not blank.
pub open spec fn spec_file_selection(
    api_base_url: Seq<char>,
    secrets: Option<SecretsFile>,
    r: Option<String>,
) -> bool {
    match secrets {
        Option::Some(file) => {
            let url_ok = match file.api_base_url {
                Option::Some(url) => url@ == api_base_url,
                Option::None => true,
            };
            match file.token {
                Option::Some(tok) => if url_ok && !spec_blank(tok@) {
                    r == Option::Some(tok)
                } else {
                    r is None
                },
                Option::None => r is None,
            }
        },
        Option::None => r is None,
    }
}

impl AuthStore {
    /// A store handle for the given file and API base URL.
    pub fn new(path: String, api_base_url: String) -> (r: AuthStore)
        ensures
            r.path == path,
            r.api_base_url == api_base_url,
    {
        AuthStore { path, api_base_url }
    }

    /// The token to use, if any: a non-blank environment token wins;
    /// otherwise the file's token counts only when the file was written
    /// for this store's API base URL (or names none) and the token is not
    /// blank.
    pub fn select_token(&self, env_token: Option<String>, secrets: Option<SecretsFile>) -> (r:
        Option<String>)
        ensures
            match env_token {
                Option::Some(t) => if !spec_blank(t@) {
                    r == Option::Some(t)
                } else {
                    spec_file_selection(self.api_base_url@, secrets, r)
                },
                Option::None => spec_file_selection(self.api_base_url@, secrets, r),
            },
    {
        match env_token {
            Option::Some(t) => {
                if !is_blank(t.as_str()) {
                    return Option::Some(t);
                }
            }
            Option::None => {}
        }
        match secrets {
            Option::Some(file) => {
                let url_ok = match &file.api_base_url {
                    Option::Some(url) => str_eq(url.as_str(), self.api_base_url.as_str()),
                    Option::None => true,
                };
                match file.token {
                    Option::Some(tok) => {
                        if url_ok && !is_blank(tok.as_str()) {
                            Option::Some(tok)
                        } else {
                            Option::None
                        }
                    }
                    Option::None => Option::None,
                }
            }
            Option::None => Option::None,
        }
    }

    /// The secrets file contents for a freshly stored token, stamped with
    /// this store's API base URL and the given time.
    pub fn build_secrets(&self, token: String, now: i64) -> (r: SecretsFile)
        ensures
            r.token == Option::Some(token),
            r.api_base_url matches Option::Some(url) && url@ == self.api_base_url@,
            r.updated_at == Option::Some(now),
    {
        SecretsFile {
            token: Option::Some(token),
            api_base_url: Option::Some(self.api_base_url.clone()),
            updated_at: Option::Some(now),
        }
    }
}

} // verus!
