//! Self-update decisions: when to check, when to notify, how versions
//! compare, and the checksum rendering.  Downloading, unpacking and
//! installing happen outside this crate.

use vstd::prelude::*;
use vstd::string::*;
use crate::state::LocalState;
use crate::strutil::{digit_char, str_eq};

verus! {

broadcast use vstd::string::group_string_axioms;

/// How long one waits between update checks.
pub const UPDATE_CHECK_INTERVAL_SECS: i64 = 21_600;

/// The lowercase hex rendering of a byte run, two digits per byte.
pub open spec fn spec_hex_of(bytes: Seq<u8>) -> Seq<char>
    decreases bytes.len(),
{
    if bytes.len() == 0 {
        Seq::empty()
    } else {
        spec_hex_of(bytes.drop_last()) + seq![
            spec_hex_digit(bytes.last() as int / 16),
            spec_hex_digit(bytes.last() as int % 16),
        ]
    }
}

/// One lowercase hex digit.
pub open spec fn spec_hex_digit(d: int) -> char {
    if d < 10 {
        digit_char(d)
    } else if d == 10 { 'a' }
    else if d == 11 { 'b' }
    else if d == 12 { 'c' }
    else if d == 13 { 'd' }
    else if d == 14 { 'e' }
    else { 'f' }
}

/// One lowercase hex digit.
fn hex_digit(d: u8) -> (r: &'static str)
    requires
        d < 16,
    ensures
        r@ == seq![spec_hex_digit(d as int)],
{
    proof {
        reveal_strlit("0");
        reveal_strlit("1");
        reveal_strlit("2");
        reveal_strlit("3");
        reveal_strlit("4");
        reveal_strlit("5");
        reveal_strlit("6");
        reveal_strlit("7");
        reveal_strlit("8");
        reveal_strlit("9");
        reveal_strlit("a");
        reveal_strlit("b");
        reveal_strlit("c");
        reveal_strlit("d");
        reveal_strlit("e");
        reveal_strlit("f");
    }
    let r: &'static str = if d == 0 { "0" }
    else if d == 1 { "1" }
    else if d == 2 { "2" }
    else if d == 3 { "3" }
    else if d == 4 { "4" }
    else if d == 5 { "5" }
    else if d == 6 { "6" }
    else if d == 7 { "7" }
    else if d == 8 { "8" }
    else if d == 9 { "9" }
    else if d == 10 { "a" }
    else if d == 11 { "b" }
    else if d == 12 { "c" }
    else if d == 13 { "d" }
    else if d == 14 { "e" }
    else { "f" };
    assert(r@ =~= seq![spec_hex_digit(d as int)]);
    r
}

/// Renders bytes as lowercase hex, two digits per byte.
pub fn bytes_to_hex(bytes: &Vec<u8>) -> (r: String)
    ensures
        r@ == spec_hex_of(bytes@),
{
    let n = bytes.len();
    let mut out = String::new();
    let mut i: usize = 0;
    while i < n
        invariant
            i <= n,
            n == bytes@.len(),
            out@ =~= spec_hex_of(bytes@.subrange(0, i as int)),
        decreases n - i,
    {
        let b = bytes[i];
        out.append(hex_digit(b / 16));
        out.append(hex_digit(b % 16));
        proof {
            assert(bytes@.subrange(0, i as int + 1).drop_last() =~= bytes@.subrange(
                0,
                i as int,
            ));
            assert(bytes@.subrange(0, i as int + 1).last() == b);
            assert(out@ =~= spec_hex_of(bytes@.subrange(0, i as int + 1)));
        }
        i = i + 1;
    }
    proof {
        assert(bytes@.subrange(0, n as int) =~= bytes@);
    }
    out
}

/// The value of one hex digit character, upper or lower case.
pub open spec fn spec_hex_val(c: char) -> Option<int> {
    if '0' <= c && c <= '9' {
        Option::Some(c as int - '0' as int)
    } else if 'a' <= c && c <= 'f' {
        Option::Some(c as int - 'a' as int + 10)
    } else if 'A' <= c && c <= 'F' {
        Option::Some(c as int - 'A' as int + 10)
    } else {
        Option::None
    }
}

/// The value of one hex digit character.
fn hex_val(c: char) -> (r: Option<u8>)
    ensures
        match r {
            Option::Some(v) => spec_hex_val(c) == Option::Some(v as int),
            Option::None => spec_hex_val(c) is None,
        },
{
    if '0' <= c && c <= '9' {
        Option::Some((c as u32 - 48) as u8)
    } else if 'a' <= c && c <= 'f' {
        Option::Some((c as u32 - 97 + 10) as u8)
    } else if 'A' <= c && c <= 'F' {
        Option::Some((c as u32 - 65 + 10) as u8)
    } else {
        Option::None
    }
}

/// Byte `k` of the parsed run is the value of its digit pair.
pub open spec fn hex_pair_ok(text: Seq<char>, v: Seq<u8>, k: int) -> bool {
    spec_hex_val(text[2 * k]) is Some && spec_hex_val(text[2 * k + 1]) is Some && v[k] as int
        == spec_hex_val(text[2 * k])->0 * 16 + spec_hex_val(text[2 * k + 1])->0
}

/// Parses lowercase or uppercase hex text into bytes, two digits per
/// byte: succeeds exactly on even-length all-hex input, and each byte is
/// the value of its digit pair.
pub fn hex_to_bytes(text: &str) -> (r: Option<Vec<u8>>)
    ensures
        match r {
            Option::Some(v) => text@.len() % 2 == 0 && v@.len() * 2 == text@.len()
                && forall|i: int| 0 <= i < v@.len() ==> #[trigger] hex_pair_ok(text@, v@, i),
            Option::None => text@.len() % 2 != 0 || exists|j: int|
                0 <= j < text@.len() && spec_hex_val(#[trigger] text@[j]) is None,
        },
{
    let n = text.unicode_len();
    if n % 2 != 0 {
        return Option::None;
    }
    let mut out: Vec<u8> = Vec::new();
    let mut i: usize = 0;
    while i < n
        invariant
            i <= n,
            i % 2 == 0,
            n % 2 == 0,
            n == text@.len(),
            out@.len() * 2 == i,
            forall|k: int| 0 <= k < out@.len() ==> #[trigger] hex_pair_ok(text@, out@, k),
        decreases n - i,
    {
        let hi = match hex_val(text.get_char(i)) {
            Option::Some(v) => v,
            Option::None => {
                proof {
                    assert(spec_hex_val(text@[i as int]) is None);
                }
                return Option::None;
            }
        };
        let lo = match hex_val(text.get_char(i + 1)) {
            Option::Some(v) => v,
            Option::None => {
                proof {
                    assert(spec_hex_val(text@[i as int + 1]) is None);
                }
                return Option::None;
            }
        };
        let ghost pre_out = out@;
        out.push(hi * 16 + lo);
        proof {
            assert forall|k: int|
                0 <= k < out@.len() implies #[trigger] hex_pair_ok(text@, out@, k) by {
                if k == out@.len() - 1 {
                    assert(2 * k == i as int);
                    assert(out@[k] == hi * 16 + lo);
                    assert(spec_hex_val(text@[2 * k]) == Option::Some(hi as int));
                    assert(spec_hex_val(text@[2 * k + 1]) == Option::Some(lo as int));
                } else {
                    assert(hex_pair_ok(text@, pre_out, k));
                    assert(out@[k] == pre_out[k]);
                }
            }
        }
        i = i + 2;
    }
    Option::Some(out)
}

/// Parsing inverts rendering: the hex rendering of any byte run is even,
/// all-hex, and parses back to the same bytes digit pair by digit pair.
pub proof fn lemma_hex_round_trip(bytes: Seq<u8>)
    ensures
        spec_hex_of(bytes).len() == 2 * bytes.len(),
        forall|i: int|
            0 <= i < bytes.len() ==> spec_hex_val(#[trigger] spec_hex_of(bytes)[2 * i])
                == Option::Some(bytes[i] as int / 16) && spec_hex_val(
                spec_hex_of(bytes)[2 * i + 1],
            ) == Option::Some(bytes[i] as int % 16),
    decreases bytes.len(),
{
    if bytes.len() > 0 {
        lemma_hex_round_trip(bytes.drop_last());
        lemma_hex_digit_val(bytes.last() as int / 16);
        lemma_hex_digit_val(bytes.last() as int % 16);
        assert(forall|i: int|
            0 <= i < bytes.len() - 1 ==> #[trigger] bytes.drop_last()[i] == bytes[i]);
        assert(forall|i: int|
            0 <= i < 2 * (bytes.len() - 1) ==> #[trigger] spec_hex_of(bytes)[i]
                == spec_hex_of(bytes.drop_last())[i]);
    }
}

/// A hex digit character reads back as its value.
proof fn lemma_hex_digit_val(d: int)
    requires
        0 <= d < 16,
    ensures
        spec_hex_val(spec_hex_digit(d)) == Option::Some(d),
{
}

/// What `semver`'s parser extracts from a version string: the numeric
/// triple and whether a pre-release tag is present, or nothing when the
/// string is not a semantic version; a function of the string alone.
pub uninterp spec fn semver_key_of(s: Seq<char>) -> Option<(u64, u64, u64, bool)>;

/// Relies on `semver::Version::parse`: major, minor, patch and the
/// presence of a pre-release tag, or nothing when the string does not
/// parse.
#[verifier::external_body]
pub fn parse_version(s: &str) -> (r: Option<(u64, u64, u64, bool)>)
    ensures
        r == semver_key_of(s@),
{
    match semver::Version::parse(s) {
        Ok(v) => Some((v.major, v.minor, v.patch, !v.pre.is_empty())),
        Err(_) => None,
    }
}

/// Whether version `a` precedes version `b`: the numeric triples compare
/// lexicographically, and on an equal triple a pre-release precedes the
/// plain release.
pub open spec fn spec_version_lt(a: (u64, u64, u64, bool), b: (u64, u64, u64, bool)) -> bool {
    a.0 < b.0 || (a.0 == b.0 && (a.1 < b.1 || (a.1 == b.1 && (a.2 < b.2 || (a.2 == b.2 && a.3
        && !b.3)))))
}

/// Compares two parsed versions.
pub fn version_lt(a: (u64, u64, u64, bool), b: (u64, u64, u64, bool)) -> (r: bool)
    ensures
        r == spec_version_lt(a, b),
{
    a.0 < b.0 || (a.0 == b.0 && (a.1 < b.1 || (a.1 == b.1 && (a.2 < b.2 || (a.2 == b.2 && a.3
        && !b.3)))))
}

/// Whether an update check is due: never checked before, or the interval
/// has passed since the last check (a clock that went backward never
/// triggers a check).
pub fn should_check_for_update(last_check_at: Option<i64>, now: i64) -> (r: bool)
    ensures
        match last_check_at {
            Option::Some(last) => r == (now - last >= UPDATE_CHECK_INTERVAL_SECS),
            Option::None => r,
        },
{
    match last_check_at {
        Option::Some(last) => match now.checked_sub(last) {
            Option::Some(elapsed) => elapsed >= UPDATE_CHECK_INTERVAL_SECS,
            Option::None => now >= 0,
        },
        Option::None => true,
    }
}

/// Forgets the update-check bookkeeping when the manifest URL changed:
/// state recorded against another manifest does not carry over.
pub fn reset_for_manifest(state: LocalState, manifest_url: &str) -> (r: LocalState)
    ensures
        match state.release_manifest_url {
            Option::Some(url) => if url@ == manifest_url@ {
                r == state
            } else {
                r.last_update_check_at is None && r.last_update_notified_version is None
                    && r.last_seen_release_version is None && r.current_user
                    == state.current_user && r.api_base_url == state.api_base_url
                    && r.updated_at == state.updated_at && r.release_manifest_url
                    == state.release_manifest_url
            },
            Option::None => r.last_update_check_at is None && r.last_update_notified_version
                is None && r.last_seen_release_version is None && r.current_user
                == state.current_user && r.api_base_url == state.api_base_url && r.updated_at
                == state.updated_at && r.release_manifest_url == state.release_manifest_url,
        },
{
    let same = match &state.release_manifest_url {
        Option::Some(url) => str_eq(url.as_str(), manifest_url),
        Option::None => false,
    };
    if same {
        state
    } else {
        LocalState {
            last_update_check_at: Option::None,
            last_update_notified_version: Option::None,
            last_seen_release_version: Option::None,
            ..state
        }
    }
}

/// Whether the user should be told about `latest`: only when it was not
/// already announced.
pub fn should_notify(last_notified: &Option<String>, latest: &str) -> (r: bool)
    ensures
        match last_notified {
            Option::Some(v) => r == (v@ != latest@),
            Option::None => r,
        },
{
    match last_notified {
        Option::Some(v) => !str_eq(v.as_str(), latest),
        Option::None => true,
    }
}

} // verus!
