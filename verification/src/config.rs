//! Configuration resolution: turning raw environment values into the
//! effective endpoints and paths.  The environment itself is read outside
//! this crate; these functions decide what each setting becomes.

use vstd::prelude::*;
use vstd::string::*;

verus! {

broadcast use vstd::string::group_string_axioms;

/// The resolved configuration.
#[derive(Clone, Debug, PartialEq)]
pub struct Config {
    pub api_base_url: String,
    pub realtime_url: String,
    pub data_dir: String,
    pub secrets_path: String,
    pub state_path: String,
    pub release_manifest_url: Option<String>,
    pub release_install_url: Option<String>,
}

/// The string with every trailing `/` removed.
pub open spec fn spec_trim_trailing_slashes(s: Seq<char>, e: int) -> int
    decreases e,
{
    if 0 < e <= s.len() && s[e - 1] == '/' {
        spec_trim_trailing_slashes(s, e - 1)
    } else {
        e
    }
}

/// Strips every trailing `/` from a URL.
pub fn trim_trailing_slashes(s: &str) -> (r: String)
    ensures
        r@ == s@.subrange(0, spec_trim_trailing_slashes(s@, s@.len() as int)),
{
    let n = s.unicode_len();
    let mut e: usize = n;
    while e > 0 && s.get_char(e - 1) == '/'
        invariant
            e <= n,
            n == s@.len(),
            spec_trim_trailing_slashes(s@, n as int) == spec_trim_trailing_slashes(
                s@,
                e as int,
            ),
        decreases e,
    {
        e = e - 1;
    }
    String::from_str(s.substring_char(0, e))
}

/// One setting: the environment value when present, the default otherwise.
pub fn setting_or(env_value: Option<String>, default: &str) -> (r: String)
    ensures
        match env_value {
            Option::Some(v) => r == v,
            Option::None => r@ == default@,
        },
{
    match env_value {
        Option::Some(v) => v,
        Option::None => String::from_str(default),
    }
}

} // verus!
