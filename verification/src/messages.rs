//! Pure helpers behind the message commands: time filtering, id
//! collection, list limits, and search/translation input normalization.

use vstd::prelude::*;
use vstd::string::*;
use vstd::seq_lib::*;
use crate::protocol::{GetChatsResult, Message};
use crate::query::spec_space;

verus! {

broadcast use vstd::string::group_string_axioms;

/// The ids of the given messages, in order.
pub fn collect_message_ids(messages: &Vec<Message>) -> (r: Vec<i64>)
    ensures
        r@ == messages@.map_values(|m: Message| m.id),
{
    let n = messages.len();
    let mut out: Vec<i64> = Vec::new();
    let mut i: usize = 0;
    while i < n
        invariant
            i <= n,
            n == messages@.len(),
            out@ =~= messages@.subrange(0, i as int).map_values(|m: Message| m.id),
        decreases n - i,
    {
        out.push(messages[i].id);
        proof {
            assert(out@ =~= messages@.subrange(0, i as int + 1).map_values(
                |m: Message| m.id,
            ));
        }
        i = i + 1;
    }
    proof {
        assert(messages@.subrange(0, n as int) =~= messages@);
    }
    out
}

/// A message passes the time window: at or after `since`, at or before
/// `until`, with an absent bound never excluding anything.
pub open spec fn spec_in_window(m: Message, since: Option<i64>, until: Option<i64>) -> bool {
    (match since {
        Option::Some(s) => m.date >= s,
        Option::None => true,
    }) && (match until {
        Option::Some(u) => m.date <= u,
        Option::None => true,
    })
}

/// Keeps exactly the messages inside the time window, in order.
pub fn filter_messages_by_time(
    messages: &mut Vec<Message>,
    since_ts: Option<i64>,
    until_ts: Option<i64>,
)
    ensures
        final(messages)@ == old(messages)@.filter(
            |m: Message| spec_in_window(m, since_ts, until_ts),
        ),
{
    let ghost original = old(messages)@;
    let ghost pred = |m: Message| spec_in_window(m, since_ts, until_ts);
    let mut i: usize = 0;
    let ghost mut k: int = 0;
    proof {
        reveal(Seq::filter);
        assert(original.subrange(0, 0) =~= Seq::<Message>::empty());
        assert(original.subrange(0, 0).filter(pred) + original.skip(0) =~= original);
    }
    while i < messages.len()
        invariant
            0 <= k <= original.len(),
            messages@ == original.subrange(0, k).filter(pred) + original.skip(k),
            i == original.subrange(0, k).filter(pred).len(),
            messages@.len() == i + original.len() - k,
            pred == (|m: Message| spec_in_window(m, since_ts, until_ts)),
        decreases original.len() - k,
    {
        proof {
            assert(messages@[i as int] == original.skip(k)[0]);
            assert(original.skip(k)[0] == original[k]);
        }
        let after_since = match since_ts {
            Option::Some(s) => messages[i].date >= s,
            Option::None => true,
        };
        let before_until = match until_ts {
            Option::Some(u) => messages[i].date <= u,
            Option::None => true,
        };
        proof {
            reveal(Seq::filter);
            assert(original.subrange(0, k + 1).drop_last() =~= original.subrange(0, k));
            assert(original.subrange(0, k + 1).last() == original[k]);
        }
        if after_since && before_until {
            proof {
                assert(original.subrange(0, k + 1).filter(pred) =~= original.subrange(
                    0,
                    k,
                ).filter(pred).push(original[k]));
                assert(original.subrange(0, k + 1).filter(pred) + original.skip(k + 1)
                    =~= original.subrange(0, k).filter(pred) + original.skip(k));
            }
            i = i + 1;
        } else {
            let ghost before = messages@;
            messages.remove(i);
            proof {
                assert(original.subrange(0, k + 1).filter(pred) =~= original.subrange(
                    0,
                    k,
                ).filter(pred));
                assert(messages@ =~= before.remove(i as int));
                assert(before.remove(i as int) =~= original.subrange(0, k + 1).filter(pred)
                    + original.skip(k + 1));
            }
        }
        proof {
            k = k + 1;
        }
    }
    proof {
        assert(k == original.len());
        assert(original.subrange(0, original.len() as int) =~= original);
        assert(original.skip(original.len() as int) =~= Seq::<Message>::empty());
        assert(messages@ =~= original.filter(pred));
    }
}

/// The clamped window `[off, end)` that a limit and offset select.
pub open spec fn spec_limit_window(len: int, limit: Option<usize>, offset: Option<usize>) -> (
    int,
    int,
) {
    let off = match offset {
        Option::Some(o) => if o as int <= len {
            o as int
        } else {
            len
        },
        Option::None => 0,
    };
    let end = match limit {
        Option::Some(l) => if off + l as int <= len {
            off + l as int
        } else {
            len
        },
        Option::None => len,
    };
    (off, end)
}

/// Keeps the selected window of the chat list, leaving the companion
/// collections untouched.
pub fn apply_chat_list_limits(
    payload: GetChatsResult,
    limit: Option<usize>,
    offset: Option<usize>,
) -> (r: GetChatsResult)
    ensures
        r.chats@ == payload.chats@.subrange(
            spec_limit_window(payload.chats@.len() as int, limit, offset).0,
            spec_limit_window(payload.chats@.len() as int, limit, offset).1,
        ),
        r.dialogs == payload.dialogs,
        r.users == payload.users,
        r.spaces == payload.spaces,
        r.messages == payload.messages,
{
    let mut payload = payload;
    let ghost input_chats = payload.chats@;
    let n = payload.chats.len();
    let off = match offset {
        Option::Some(o) => if o <= n {
            o
        } else {
            n
        },
        Option::None => 0,
    };
    let mut tail = payload.chats.split_off(off);
    match limit {
        Option::Some(l) => {
            tail.truncate(l);
        }
        Option::None => {}
    }
    proof {
        let w = spec_limit_window(n as int, limit, offset);
        assert(tail@ =~= input_chats.subrange(w.0, w.1));
    }
    payload.chats = tail;
    payload
}

/// End of the run of non-whitespace characters starting at `i`.
pub open spec fn spec_word_end(s: Seq<char>, i: int) -> int
    decreases s.len() - i,
{
    if 0 <= i < s.len() && !spec_space(s[i]) {
        spec_word_end(s, i + 1)
    } else {
        i
    }
}

/// The word scan never moves backward and never passes the end.
pub proof fn lemma_word_end(s: Seq<char>, i: int)
    requires
        0 <= i <= s.len(),
    ensures
        i <= spec_word_end(s, i) <= s.len(),
    decreases s.len() - i,
{
    if i < s.len() && !spec_space(s[i]) {
        lemma_word_end(s, i + 1);
    }
}

/// Scans past the non-whitespace run starting at `idx`.
pub fn word_end(s: &str, n: usize, idx: usize) -> (r: usize)
    requires
        n == s@.len(),
        idx <= n,
    ensures
        r == spec_word_end(s@, idx as int),
        idx <= r <= n,
    decreases n - idx,
{
    if idx < n && !crate::query::is_space(s.get_char(idx)) {
        word_end(s, n, idx + 1)
    } else {
        idx
    }
}

/// The whitespace-collapsed form of a string from position `i`: its
/// words joined by single spaces; `first` records that no word was
/// emitted yet.
pub open spec fn spec_collapse_ws(s: Seq<char>, i: int, first: bool) -> Seq<char>
    decreases s.len() - i,
    when 0 <= i <= s.len()
    via spec_collapse_ws_dec
{
    if i >= s.len() {
        Seq::empty()
    } else if spec_space(s[i]) {
        spec_collapse_ws(s, i + 1, first)
    } else {
        let j = spec_word_end(s, i);
        (if first {
            Seq::empty()
        } else {
            " "@
        }) + s.subrange(i, j) + spec_collapse_ws(s, j, false)
    }
}

#[via_fn]
proof fn spec_collapse_ws_dec(s: Seq<char>, i: int, first: bool) {
    if 0 <= i < s.len() {
        lemma_word_end(s, i);
        if !spec_space(s[i]) {
            assert(spec_word_end(s, i) == spec_word_end(s, i + 1));
            lemma_word_end(s, i + 1);
        }
    }
}

/// Collapses whitespace runs (including line breaks) into single spaces
/// and trims both ends: the preview form of message text.
pub fn normalize_preview_text(value: &str) -> (r: String)
    ensures
        r@ == spec_collapse_ws(value@, 0, true),
{
    let n = value.unicode_len();
    let mut out = String::new();
    let mut i: usize = 0;
    let mut first = true;
    while i < n
        invariant
            i <= n,
            n == value@.len(),
            spec_collapse_ws(value@, 0, true) == out@ + spec_collapse_ws(
                value@,
                i as int,
                first,
            ),
        decreases n - i,
    {
        let ghost pre_out = out@;
        let ghost pre_i = i as int;
        let ghost pre_first = first;
        let c = value.get_char(i);
        if crate::query::is_space(c) {
            i = i + 1;
        } else {
            let start = i;
            i = word_end(value, n, i);
            proof {
                assert(spec_word_end(value@, pre_i) == spec_word_end(value@, pre_i + 1));
                lemma_word_end(value@, pre_i + 1);
            }
            if !first {
                out.append(" ");
            }
            out.append(value.substring_char(start, i));
            first = false;
            proof {
                reveal_strlit(" ");
                let word = value@.subrange(pre_i, spec_word_end(value@, pre_i));
                let sep: Seq<char> = if pre_first {
                    Seq::empty()
                } else {
                    " "@
                };
                let rest = spec_collapse_ws(value@, i as int, false);
                assert(spec_collapse_ws(value@, pre_i, pre_first) == sep + word + rest);
                assert(out@ =~= pre_out + (sep + word));
                assert(pre_out + (sep + word + rest) =~= (pre_out + (sep + word)) + rest);
            }
        }
    }
    proof {
        assert(out@ + Seq::<char>::empty() =~= out@);
    }
    out
}

/// The collapsed form of each query, empties dropped.
pub open spec fn spec_normalized_queries(queries: Seq<String>) -> Seq<Seq<char>> {
    queries.map_values(|q: String| spec_collapse_ws(q@, 0, true)).filter(
        |q: Seq<char>| q.len() > 0,
    )
}

/// Normalizes search queries: whitespace collapsed, empties dropped; an
/// error when nothing usable remains.
pub fn normalize_search_queries(queries: &Vec<String>) -> (r: Result<Vec<String>, &'static str>)
    ensures
        match r {
            Result::Ok(vs) => vs@.map_values(|q: String| q@) == spec_normalized_queries(
                queries@,
            ) && spec_normalized_queries(queries@).len() > 0,
            Result::Err(_) => spec_normalized_queries(queries@).len() == 0,
        },
{
    let n = queries.len();
    let mut out: Vec<String> = Vec::new();
    let mut i: usize = 0;
    proof {
        reveal(Seq::filter);
        assert(queries@.subrange(0, 0) =~= Seq::<String>::empty());
        assert(queries@.subrange(0, 0).map_values(|q: String| spec_collapse_ws(q@, 0, true))
            =~= Seq::<Seq<char>>::empty());
    }
    while i < n
        invariant
            i <= n,
            n == queries@.len(),
            out@.map_values(|q: String| q@) == spec_normalized_queries(
                queries@.subrange(0, i as int),
            ),
        decreases n - i,
    {
        let collapsed = normalize_preview_text(queries[i].as_str());
        proof {
            reveal(Seq::filter);
            let mapped = queries@.subrange(0, i as int + 1).map_values(
                |q: String| spec_collapse_ws(q@, 0, true),
            );
            assert(mapped.drop_last() =~= queries@.subrange(0, i as int).map_values(
                |q: String| spec_collapse_ws(q@, 0, true),
            ));
            assert(mapped.last() == spec_collapse_ws(queries@[i as int]@, 0, true));
        }
        if collapsed.as_str().unicode_len() > 0 {
            let ghost pre = out@;
            out.push(collapsed);
            proof {
                assert(out@.map_values(|q: String| q@) =~= pre.map_values(|q: String| q@)
                    + seq![spec_collapse_ws(queries@[i as int]@, 0, true)]);
            }
        } else {
            proof {
                assert(out@.map_values(|q: String| q@) =~= spec_normalized_queries(
                    queries@.subrange(0, i as int + 1),
                ));
            }
        }
        i = i + 1;
    }
    proof {
        assert(queries@.subrange(0, n as int) =~= queries@);
    }
    if out.len() == 0 {
        proof {
            assert(out@.map_values(|q: String| q@).len() == 0);
        }
        return Result::Err("Provide --query (repeatable)");
    }
    Result::Ok(out)
}

/// Validates a translation language code: the trimmed code, or an error
/// when it is blank.
pub fn normalize_translation_language(language: &str) -> (r: Result<String, &'static str>)
    ensures
        match r {
            Result::Ok(code) => code@ == crate::output::spec_trimmed(language@) && code@.len()
                > 0,
            Result::Err(_) => crate::output::spec_trimmed(language@).len() == 0,
        },
{
    let t = crate::output::trimmed(language);
    if t.unicode_len() == 0 {
        return Result::Err("Provide a language code for --translate");
    }
    Result::Ok(String::from_str(t))
}

/// Position of the first `:` at or after `i`, or the end.
pub open spec fn spec_find_colon(s: Seq<char>, i: int) -> int
    decreases s.len() - i,
{
    if 0 <= i < s.len() && s[i] != ':' {
        spec_find_colon(s, i + 1)
    } else {
        i
    }
}

/// Scans to the next `:`.
fn find_colon(s: &str, n: usize, idx: usize) -> (r: usize)
    requires
        n == s@.len(),
        idx <= n,
    ensures
        r == spec_find_colon(s@, idx as int),
        idx <= r <= n,
    decreases n - idx,
{
    if idx < n && s.get_char(idx) != ':' {
        find_colon(s, n, idx + 1)
    } else {
        idx
    }
}

/// The value of an optionally negated digit run, after trimming; nothing
/// when the text is not a number or does not fit 64 bits.
pub open spec fn spec_signed_val(t: Seq<char>) -> Option<int> {
    let trimmed = {
        let lead = crate::query::spec_skip_space(t, 0);
        let tend = crate::query::spec_trim_end(t, t.len() as int);
        if lead < tend {
            t.subrange(lead, tend)
        } else {
            Seq::empty()
        }
    };
    if trimmed.len() > 0 && trimmed[0] == '-' {
        let digits = trimmed.subrange(1, trimmed.len() as int);
        if digits.len() > 0 && crate::dates::spec_digit_end(digits, 0) == digits.len()
            && crate::dates::spec_digits_val(digits) <= i64::MAX {
            Option::Some(-crate::dates::spec_digits_val(digits))
        } else {
            Option::None
        }
    } else {
        if trimmed.len() > 0 && crate::dates::spec_digit_end(trimmed, 0) == trimmed.len()
            && crate::dates::spec_digits_val(trimmed) <= i64::MAX {
            Option::Some(crate::dates::spec_digits_val(trimmed))
        } else {
            Option::None
        }
    }
}

/// Parses an optionally negated number, trimmed.
fn parse_signed(t: &str) -> (r: Option<i64>)
    ensures
        match r {
            Option::Some(v) => spec_signed_val(t@) == Option::Some(v as int),
            Option::None => spec_signed_val(t@) is None,
        },
{
    let trimmed = crate::output::trimmed(t);
    let n = trimmed.unicode_len();
    if n == 0 {
        return Option::None;
    }
    if trimmed.get_char(0) == '-' {
        let digits = trimmed.substring_char(1, n);
        let dn = digits.unicode_len();
        if dn == 0 {
            return Option::None;
        }
        let (e, value) = crate::dates::read_digits(digits, dn, 0);
        proof {
            assert(digits@.subrange(0, dn as int) =~= digits@);
        }
        if e != dn {
            return Option::None;
        }
        match value {
            Option::Some(v) => Option::Some(-v),
            Option::None => Option::None,
        }
    } else {
        let (e, value) = crate::dates::read_digits(trimmed, n, 0);
        proof {
            assert(trimmed@.subrange(0, n as int) =~= trimmed@);
        }
        if e != n {
            return Option::None;
        }
        value
    }
}

/// What one `USER_ID:OFFSET:LENGTH` mention argument denotes, if it has
/// exactly three numeric parts.
pub open spec fn spec_mention(t: Seq<char>) -> Option<(int, int, int)> {
    let c1 = spec_find_colon(t, 0);
    let c2 = spec_find_colon(t, c1 + 1);
    if c1 < t.len() && c2 < t.len() && spec_find_colon(t, c2 + 1) == t.len() {
        let id = spec_signed_val(t.subrange(0, c1));
        let off = spec_signed_val(t.subrange(c1 + 1, c2));
        let len = spec_signed_val(t.subrange(c2 + 1, t.len() as int));
        if id is Some && off is Some && len is Some {
            Option::Some((id->0, off->0, len->0))
        } else {
            Option::None
        }
    } else {
        Option::None
    }
}

/// A parsed mention is acceptable: positive user, non-negative offset,
/// positive length.
pub open spec fn spec_mention_ok(t: Seq<char>) -> bool {
    spec_mention(t) matches Option::Some((id, off, len)) && id > 0 && off >= 0 && len > 0
}

/// Parses `USER_ID:OFFSET:LENGTH` mention arguments (offsets and lengths
/// in UTF-16 units) into message entities, one per argument in order;
/// nothing when no argument was given; an error as soon as one argument
/// is malformed or out of range.
pub fn parse_mention_entities(raw_mentions: &Vec<String>) -> (r: Result<
    Option<crate::protocol::MessageEntities>,
    &'static str,
>)
    ensures
        match r {
            Result::Ok(out) => match out {
                Option::Some(entities) => raw_mentions@.len() > 0 && entities.entities@.len()
                    == raw_mentions@.len() && forall|i: int|
                    0 <= i < raw_mentions@.len() ==> spec_mention_ok(
                        (#[trigger] raw_mentions@[i])@,
                    ) && {
                        let e = entities.entities@[i];
                        let m = spec_mention(raw_mentions@[i]@)->0;
                        e.kind is Mention && e.offset == m.1 && e.length == m.2
                            && e.mention_user_id == Option::Some(m.0 as i64)
                    },
                Option::None => raw_mentions@.len() == 0,
            },
            Result::Err(_) => exists|i: int|
                0 <= i < raw_mentions@.len() && !spec_mention_ok(
                    (#[trigger] raw_mentions@[i])@,
                ),
        },
{
    if raw_mentions.len() == 0 {
        return Result::Ok(Option::None);
    }
    let n = raw_mentions.len();
    let mut entities: Vec<crate::protocol::MessageEntity> = Vec::new();
    let mut i: usize = 0;
    while i < n
        invariant
            i <= n,
            n == raw_mentions@.len(),
            entities@.len() == i,
            forall|j: int|
                0 <= j < i ==> spec_mention_ok((#[trigger] raw_mentions@[j])@) && {
                    let e = entities@[j];
                    let m = spec_mention(raw_mentions@[j]@)->0;
                    e.kind is Mention && e.offset == m.1 && e.length == m.2
                        && e.mention_user_id == Option::Some(m.0 as i64)
                },
        decreases n - i,
    {
        let raw = raw_mentions[i].as_str();
        let rn = raw.unicode_len();
        let c1 = find_colon(raw, rn, 0);
        if c1 >= rn {
            return Result::Err("Invalid mention. Use USER_ID:OFFSET:LENGTH.");
        }
        let c2 = find_colon(raw, rn, c1 + 1);
        if c2 >= rn {
            return Result::Err("Invalid mention. Use USER_ID:OFFSET:LENGTH.");
        }
        if find_colon(raw, rn, c2 + 1) != rn {
            return Result::Err("Invalid mention. Use USER_ID:OFFSET:LENGTH.");
        }
        let user_id = match parse_signed(raw.substring_char(0, c1)) {
            Option::Some(v) => v,
            Option::None => {
                return Result::Err("Invalid mention user id.");
            }
        };
        let offset = match parse_signed(raw.substring_char(c1 + 1, c2)) {
            Option::Some(v) => v,
            Option::None => {
                return Result::Err("Invalid mention offset.");
            }
        };
        let length = match parse_signed(raw.substring_char(c2 + 1, rn)) {
            Option::Some(v) => v,
            Option::None => {
                return Result::Err("Invalid mention length.");
            }
        };
        if user_id <= 0 {
            return Result::Err("Mention user id must be positive.");
        }
        if offset < 0 {
            return Result::Err("Mention offset must not be negative.");
        }
        if length <= 0 {
            return Result::Err("Mention length must be positive.");
        }
        entities.push(
            crate::protocol::MessageEntity {
                kind: crate::protocol::MessageEntityKind::Mention,
                offset,
                length,
                mention_user_id: Option::Some(user_id),
            },
        );
        i = i + 1;
    }
    Result::Ok(Option::Some(crate::protocol::MessageEntities { entities }))
}

} // verus!
