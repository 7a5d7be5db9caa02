//! Query-path and filter-expression alias rewriting.
//!
//! Command output can be queried with short field aliases (`u` for
//! `users`, `fn` for `first_name`).  These functions rewrite aliases into
//! canonical key names inside jq-style expressions and dot/bracket paths,
//! leaving string literals, comments, quoted bracket keys and mixed-case
//! tokens untouched; and they parse dot/bracket paths into segments.

use vstd::prelude::*;
use vstd::string::*;
use crate::strutil::str_eq;

verus! {

broadcast use vstd::string::group_string_axioms;

/// One entry of the alias table: a short lowercase alias and the canonical
/// key it stands for.
pub struct KeyAlias {
    pub alias: &'static str,
    pub canonical: &'static str,
}

/// Where an expression is rewritten; each context has its own grammar.
#[derive(Clone, Copy, Debug, PartialEq, Eq, Structural)]
pub enum QueryContext {
    /// A jq filter expression: dot-prefixed fields only.
    Jq,
    /// A dot/bracket query path: root and nested segments.
    QueryPath,
    /// A field-projection path, treated like a query path.
    FieldProjection,
    /// A JSONPath expression: dot-prefixed and root tokens.
    JsonPath,
    /// A sort path, treated like a query path.
    SortPath,
}

/// The requested JSON transformations, in pipeline order.
#[derive(Clone, Debug)]
pub struct JsonQueryOptions {
    pub jq_filter: Option<String>,
    pub query_paths: Vec<String>,
    pub fields: Vec<String>,
    pub jsonpaths: Vec<String>,
    pub sort_path: Option<String>,
    pub sort_desc: bool,
}

impl JsonQueryOptions {
    /// No transformation requested at all.
    pub open spec fn spec_has_transforms(&self) -> bool {
        self.jq_filter is Some || self.query_paths@.len() > 0 || self.fields@.len() > 0
            || self.jsonpaths@.len() > 0 || self.sort_path is Some
    }

    /// Whether any transformation was requested.
    pub fn has_transforms(&self) -> (r: bool)
        ensures
            r == self.spec_has_transforms(),
    {
        self.jq_filter.is_some() || self.query_paths.len() > 0 || self.fields.len() > 0
            || self.jsonpaths.len() > 0 || self.sort_path.is_some()
    }

    /// Empty options: no transformation.
    pub fn new() -> (r: JsonQueryOptions)
        ensures
            !r.spec_has_transforms(),
            !r.sort_desc,
    {
        JsonQueryOptions {
            jq_filter: Option::None,
            query_paths: Vec::new(),
            fields: Vec::new(),
            jsonpaths: Vec::new(),
            sort_path: Option::None,
            sort_desc: false,
        }
    }
}

/// A character that can start an identifier.
pub open spec fn spec_ident_start(c: char) -> bool {
    ('a' <= c && c <= 'z') || ('A' <= c && c <= 'Z') || c == '_'
}

/// A character that can continue an identifier.
pub open spec fn spec_ident_char(c: char) -> bool {
    spec_ident_start(c) || ('0' <= c && c <= '9')
}

/// A character of a rewrite candidate: ASCII lowercase, digit, underscore.
pub open spec fn spec_candidate_char(c: char) -> bool {
    ('a' <= c && c <= 'z') || ('0' <= c && c <= '9') || c == '_'
}

/// Whitespace as the rewriters see it.
pub open spec fn spec_space(c: char) -> bool {
    c == ' ' || c == '\t' || c == '\n' || c == '\r' || c == '\u{b}' || c == '\u{c}'
}

/// A separator after which a root-position token may start.
pub open spec fn spec_root_separator(c: char) -> bool {
    spec_space(c) || c == '|' || c == ',' || c == ';' || c == '(' || c == ')' || c == '{' || c
        == '}' || c == '['
}

/// Whether a character can start an identifier.
pub fn is_ident_start(c: char) -> (r: bool)
    ensures
        r == spec_ident_start(c),
{
    ('a' <= c && c <= 'z') || ('A' <= c && c <= 'Z') || c == '_'
}

/// Whether a character can continue an identifier.
pub fn is_ident_char(c: char) -> (r: bool)
    ensures
        r == spec_ident_char(c),
{
    is_ident_start(c) || ('0' <= c && c <= '9')
}

/// Whether a character may follow a separator as a root token start.
pub fn is_root_separator(c: char) -> (r: bool)
    ensures
        r == spec_root_separator(c),
{
    is_space(c) || c == '|' || c == ',' || c == ';' || c == '(' || c == ')' || c == '{' || c
        == '}' || c == '['
}

/// Whitespace test used by the rewriters.
pub fn is_space(c: char) -> (r: bool)
    ensures
        r == spec_space(c),
{
    c == ' ' || c == '\t' || c == '\n' || c == '\r' || c == '\u{b}' || c == '\u{c}'
}

/// The end of the identifier starting at `i`: the first later position
/// whose character cannot continue an identifier.
pub open spec fn spec_ident_end(s: Seq<char>, i: int) -> int
    decreases s.len() - i,
{
    if 0 <= i < s.len() && spec_ident_char(s[i]) {
        spec_ident_end(s, i + 1)
    } else {
        i
    }
}

/// The identifier end never moves backward and never passes the end.
pub proof fn lemma_ident_end(s: Seq<char>, i: int)
    requires
        0 <= i <= s.len(),
    ensures
        i <= spec_ident_end(s, i) <= s.len(),
    decreases s.len() - i,
{
    if i < s.len() && spec_ident_char(s[i]) {
        lemma_ident_end(s, i + 1);
    }
}

/// Scans past the identifier characters starting at `idx`.
pub fn read_identifier_end(s: &str, n: usize, idx: usize) -> (r: usize)
    requires
        n == s@.len(),
        idx <= n,
    ensures
        r == spec_ident_end(s@, idx as int),
        idx <= r <= n,
    decreases n - idx,
{
    if idx < n && is_ident_char(s.get_char(idx)) {
        read_identifier_end(s, n, idx + 1)
    } else {
        idx
    }
}

/// A non-empty all-lowercase token: the only shape eligible for rewriting.
pub open spec fn spec_is_candidate(t: Seq<char>) -> bool {
    t.len() > 0 && forall|i: int| 0 <= i < t.len() ==> spec_candidate_char(t[i])
}

/// Whether a token is eligible for alias rewriting.
pub fn is_rewrite_candidate(token: &str) -> (r: bool)
    ensures
        r == spec_is_candidate(token@),
{
    let n = token.unicode_len();
    if n == 0 {
        return false;
    }
    let mut i: usize = 0;
    while i < n
        invariant
            i <= n,
            n == token@.len(),
            forall|j: int| 0 <= j < i ==> spec_candidate_char(token@[j]),
        decreases n - i,
    {
        let c = token.get_char(i);
        if !(('a' <= c && c <= 'z') || ('0' <= c && c <= '9') || c == '_') {
            return false;
        }
        i = i + 1;
    }
    true
}

/// A token is an identifier: an identifier start followed by identifier
/// characters.
pub open spec fn spec_is_identifier(t: Seq<char>) -> bool {
    t.len() > 0 && spec_ident_start(t[0]) && forall|i: int|
        1 <= i < t.len() ==> spec_ident_char(t[i])
}

/// Whether a token is a whole identifier.
pub fn is_identifier_token(token: &str) -> (r: bool)
    ensures
        r == spec_is_identifier(token@),
{
    let n = token.unicode_len();
    if n == 0 {
        return false;
    }
    if !is_ident_start(token.get_char(0)) {
        return false;
    }
    let mut i: usize = 1;
    while i < n
        invariant
            1 <= i <= n,
            n == token@.len(),
            forall|j: int| 1 <= j < i ==> spec_ident_char(token@[j]),
        decreases n - i,
    {
        if !is_ident_char(token.get_char(i)) {
            return false;
        }
        i = i + 1;
    }
    true
}

/// The canonical key for an alias, if the token is one.  The table is
/// fixed: alias keys are lowercase and collision-free.
pub open spec fn spec_alias_canonical(t: Seq<char>) -> Option<Seq<char>> {
    if t == "au"@ { Option::Some("auth"@) }
    else if t == "at"@ { Option::Some("attachments"@) }
    else if t == "c"@ { Option::Some("chats"@) }
    else if t == "cfg"@ { Option::Some("config"@) }
    else if t == "cid"@ { Option::Some("chat_id"@) }
    else if t == "d"@ { Option::Some("dialogs"@) }
    else if t == "dn"@ { Option::Some("display_name"@) }
    else if t == "em"@ { Option::Some("email"@) }
    else if t == "fid"@ { Option::Some("from_id"@) }
    else if t == "fn"@ { Option::Some("first_name"@) }
    else if t == "it"@ { Option::Some("items"@) }
    else if t == "lm"@ { Option::Some("last_message"@) }
    else if t == "lmd"@ { Option::Some("last_message_relative_date"@) }
    else if t == "lml"@ { Option::Some("last_message_line"@) }
    else if t == "ln"@ { Option::Some("last_name"@) }
    else if t == "m"@ { Option::Some("message"@) }
    else if t == "mb"@ { Option::Some("member"@) }
    else if t == "mbs"@ { Option::Some("members"@) }
    else if t == "md"@ { Option::Some("media"@) }
    else if t == "mid"@ { Option::Some("message_id"@) }
    else if t == "ms"@ { Option::Some("messages"@) }
    else if t == "par"@ { Option::Some("participant"@) }
    else if t == "ph"@ { Option::Some("phone_number"@) }
    else if t == "pth"@ { Option::Some("paths"@) }
    else if t == "pid"@ { Option::Some("peer_id"@) }
    else if t == "ps"@ { Option::Some("participants"@) }
    else if t == "pt"@ { Option::Some("peer_type"@) }
    else if t == "rd"@ { Option::Some("relative_date"@) }
    else if t == "rmi"@ { Option::Some("read_max_id"@) }
    else if t == "s"@ { Option::Some("spaces"@) }
    else if t == "sid"@ { Option::Some("space_id"@) }
    else if t == "sn"@ { Option::Some("sender_name"@) }
    else if t == "sys"@ { Option::Some("system"@) }
    else if t == "ti"@ { Option::Some("title"@) }
    else if t == "u"@ { Option::Some("users"@) }
    else if t == "uc"@ { Option::Some("unread_count"@) }
    else if t == "uid"@ { Option::Some("user_id"@) }
    else if t == "um"@ { Option::Some("unread_mark"@) }
    else if t == "un"@ { Option::Some("username"@) }
    else { Option::None }
}

/// What a token becomes: its canonical key when it is a lowercase alias,
/// itself otherwise.
pub open spec fn spec_rewrite_token(t: Seq<char>) -> Seq<char> {
    if spec_is_candidate(t) {
        match spec_alias_canonical(t) {
            Option::Some(c) => c,
            Option::None => t,
        }
    } else {
        t
    }
}

/// Rewrites one token through the alias table.
pub fn rewrite_token<'a>(token: &'a str) -> (r: &'a str)
    ensures
        r@ == spec_rewrite_token(token@),
{
    if !is_rewrite_candidate(token) {
        return token;
    }
    if str_eq(token, "au") { "auth" }
    else if str_eq(token, "at") { "attachments" }
    else if str_eq(token, "c") { "chats" }
    else if str_eq(token, "cfg") { "config" }
    else if str_eq(token, "cid") { "chat_id" }
    else if str_eq(token, "d") { "dialogs" }
    else if str_eq(token, "dn") { "display_name" }
    else if str_eq(token, "em") { "email" }
    else if str_eq(token, "fid") { "from_id" }
    else if str_eq(token, "fn") { "first_name" }
    else if str_eq(token, "it") { "items" }
    else if str_eq(token, "lm") { "last_message" }
    else if str_eq(token, "lmd") { "last_message_relative_date" }
    else if str_eq(token, "lml") { "last_message_line" }
    else if str_eq(token, "ln") { "last_name" }
    else if str_eq(token, "m") { "message" }
    else if str_eq(token, "mb") { "member" }
    else if str_eq(token, "mbs") { "members" }
    else if str_eq(token, "md") { "media" }
    else if str_eq(token, "mid") { "message_id" }
    else if str_eq(token, "ms") { "messages" }
    else if str_eq(token, "par") { "participant" }
    else if str_eq(token, "ph") { "phone_number" }
    else if str_eq(token, "pth") { "paths" }
    else if str_eq(token, "pid") { "peer_id" }
    else if str_eq(token, "ps") { "participants" }
    else if str_eq(token, "pt") { "peer_type" }
    else if str_eq(token, "rd") { "relative_date" }
    else if str_eq(token, "rmi") { "read_max_id" }
    else if str_eq(token, "s") { "spaces" }
    else if str_eq(token, "sid") { "space_id" }
    else if str_eq(token, "sn") { "sender_name" }
    else if str_eq(token, "sys") { "system" }
    else if str_eq(token, "ti") { "title" }
    else if str_eq(token, "u") { "users" }
    else if str_eq(token, "uc") { "unread_count" }
    else if str_eq(token, "uid") { "user_id" }
    else if str_eq(token, "um") { "unread_mark" }
    else if str_eq(token, "un") { "username" }
    else { token }
}

/// The alias-rewritten form of a jq/JSONPath expression, scanning from
/// position `i` in the given lexical state.  String literals and comments
/// are copied untouched; a token after `.` is rewritten; with
/// `rewrite_root` set, a token in root position is rewritten too.
#[verifier::opaque]
pub open spec fn spec_norm_expr(
    s: Seq<char>,
    i: int,
    in_single: bool,
    in_double: bool,
    in_comment: bool,
    root_ok: bool,
    rewrite_root: bool,
) -> Seq<char>
    decreases s.len() - i,
    when 0 <= i <= s.len()
    via spec_norm_expr_dec
{
    if i >= s.len() {
        Seq::empty()
    } else {
        let c = s[i];
        if in_comment {
            seq![c] + spec_norm_expr(
                s,
                i + 1,
                in_single,
                in_double,
                c != '\n',
                if c == '\n' {
                    rewrite_root
                } else {
                    root_ok
                },
                rewrite_root,
            )
        } else if in_single {
            if c == '\\' && i + 1 < s.len() {
                seq![c, s[i + 1]] + spec_norm_expr(s, i + 2, true, in_double, false, root_ok, rewrite_root)
            } else {
                seq![c] + spec_norm_expr(s, i + 1, c != '\'', in_double, false, root_ok, rewrite_root)
            }
        } else if in_double {
            if c == '\\' && i + 1 < s.len() {
                seq![c, s[i + 1]] + spec_norm_expr(s, i + 2, false, true, false, root_ok, rewrite_root)
            } else {
                seq![c] + spec_norm_expr(s, i + 1, false, c != '"', false, root_ok, rewrite_root)
            }
        } else if c == '#' {
            seq![c] + spec_norm_expr(s, i + 1, false, false, true, root_ok, rewrite_root)
        } else if c == '\'' {
            seq![c] + spec_norm_expr(s, i + 1, true, false, false, root_ok, rewrite_root)
        } else if c == '"' {
            seq![c] + spec_norm_expr(s, i + 1, false, true, false, root_ok, rewrite_root)
        } else if c == '.' {
            if i + 1 < s.len() && spec_ident_start(s[i + 1]) {
                let j = spec_ident_end(s, i + 1);
                seq![c] + spec_rewrite_token(s.subrange(i + 1, j)) + spec_norm_expr(
                    s,
                    j,
                    false,
                    false,
                    false,
                    rewrite_root,
                    rewrite_root,
                )
            } else {
                seq![c] + spec_norm_expr(s, i + 1, false, false, false, rewrite_root, rewrite_root)
            }
        } else if c == '$' {
            seq![c] + spec_norm_expr(s, i + 1, false, false, false, rewrite_root, rewrite_root)
        } else if rewrite_root && root_ok && spec_ident_start(c) {
            let j = spec_ident_end(s, i);
            spec_rewrite_token(s.subrange(i, j)) + spec_norm_expr(
                s,
                j,
                false,
                false,
                false,
                false,
                rewrite_root,
            )
        } else {
            seq![c] + spec_norm_expr(
                s,
                i + 1,
                false,
                false,
                false,
                rewrite_root && spec_root_separator(c),
                rewrite_root,
            )
        }
    }
}

#[via_fn]
proof fn spec_norm_expr_dec(
    s: Seq<char>,
    i: int,
    in_single: bool,
    in_double: bool,
    in_comment: bool,
    root_ok: bool,
    rewrite_root: bool,
) {
    if 0 <= i < s.len() {
        if i + 1 <= s.len() {
            lemma_ident_end(s, i + 1);
        }
        lemma_ident_end(s, i);
        if spec_ident_char(s[i]) {
            assert(spec_ident_end(s, i) == spec_ident_end(s, i + 1));
        }
    }
}

/// Prepending a consumed chunk to the remaining rewrite keeps the whole.
proof fn lemma_extend(base: Seq<char>, chunk: Seq<char>, rest: Seq<char>, whole: Seq<char>, out_new: Seq<char>)
    requires
        whole == chunk + rest,
        out_new == base + chunk,
    ensures
        base + whole == out_new + rest,
{
    assert(base + (chunk + rest) =~= (base + chunk) + rest);
}

/// Rewrites aliases inside a jq or JSONPath expression; with
/// `rewrite_root_tokens`, tokens in root position are rewritten too.
/// Strings, comments and mixed-case tokens stay untouched.
#[verifier::rlimit(100)]
pub fn normalize_expression(input: &str, rewrite_root_tokens: bool) -> (r: String)
    ensures
        r@ == spec_norm_expr(
            input@,
            0,
            false,
            false,
            false,
            rewrite_root_tokens,
            rewrite_root_tokens,
        ),
{
    let n = input.unicode_len();
    let mut out = String::new();
    let mut i: usize = 0;
    let mut in_single = false;
    let mut in_double = false;
    let mut in_comment = false;
    let mut root_ok = rewrite_root_tokens;
    while i < n
        invariant
            i <= n,
            n == input@.len(),
            spec_norm_expr(
                input@,
                0,
                false,
                false,
                false,
                rewrite_root_tokens,
                rewrite_root_tokens,
            ) == out@ + spec_norm_expr(
                input@,
                i as int,
                in_single,
                in_double,
                in_comment,
                root_ok,
                rewrite_root_tokens,
            ),
        decreases n - i,
    {
        let ghost rr = rewrite_root_tokens;
        let ghost pre_out = out@;
        let ghost pre_i = i as int;
        let ghost s1 = in_single;
        let ghost d1 = in_double;
        let ghost c1 = in_comment;
        let ghost r1 = root_ok;
        let ghost whole = spec_norm_expr(input@, pre_i, s1, d1, c1, r1, rr);
        let c = input.get_char(i);
        if in_comment {
            out.append(input.substring_char(i, i + 1));
            i = i + 1;
            if c == '\n' {
                in_comment = false;
                root_ok = rewrite_root_tokens;
            }
            proof {
                reveal_with_fuel(spec_norm_expr, 1);
                let rest = spec_norm_expr(input@, i as int, in_single, in_double, in_comment, root_ok, rr);
                assert(whole == seq![c] + rest);
                assert(out@ == pre_out + seq![c]) by {
                    assert(input@.subrange(pre_i, pre_i + 1) =~= seq![c]);
                }
                lemma_extend(pre_out, seq![c], rest, whole, out@);
            }
        } else if in_single || in_double {
            let was_single = in_single;
            if c == '\\' && i + 1 < n {
                out.append(input.substring_char(i, i + 2));
                i = i + 2;
                proof {
                    reveal_with_fuel(spec_norm_expr, 1);
                    let chunk = seq![c, input@[pre_i + 1]];
                    let rest = spec_norm_expr(input@, i as int, in_single, in_double, in_comment, root_ok, rr);
                    assert(whole == chunk + rest);
                    assert(out@ == pre_out + chunk) by {
                        assert(input@.subrange(pre_i, pre_i + 2) =~= chunk);
                    }
                    lemma_extend(pre_out, chunk, rest, whole, out@);
                }
            } else {
                out.append(input.substring_char(i, i + 1));
                i = i + 1;
                if was_single {
                    if c == '\'' {
                        in_single = false;
                    }
                } else {
                    if c == '"' {
                        in_double = false;
                    }
                }
                proof {
                    reveal_with_fuel(spec_norm_expr, 1);
                    let rest = spec_norm_expr(input@, i as int, in_single, in_double, in_comment, root_ok, rr);
                    assert(whole == seq![c] + rest);
                    assert(out@ == pre_out + seq![c]) by {
                        assert(input@.subrange(pre_i, pre_i + 1) =~= seq![c]);
                    }
                    lemma_extend(pre_out, seq![c], rest, whole, out@);
                }
            }
        } else if c == '#' || c == '\'' || c == '"' {
            out.append(input.substring_char(i, i + 1));
            if c == '#' {
                in_comment = true;
            } else if c == '\'' {
                in_single = true;
            } else {
                in_double = true;
            }
            i = i + 1;
            proof {
                reveal_with_fuel(spec_norm_expr, 1);
                let rest = spec_norm_expr(input@, i as int, in_single, in_double, in_comment, root_ok, rr);
                assert(whole == seq![c] + rest);
                assert(out@ == pre_out + seq![c]) by {
                    assert(input@.subrange(pre_i, pre_i + 1) =~= seq![c]);
                }
                lemma_extend(pre_out, seq![c], rest, whole, out@);
            }
        } else if c == '.' {
            out.append(input.substring_char(i, i + 1));
            let ghost dotted = out@;
            i = i + 1;
            root_ok = rewrite_root_tokens;
            if i < n && is_ident_start(input.get_char(i)) {
                let start = i;
                i = read_identifier_end(input, n, i);
                let token = input.substring_char(start, i);
                out.append(rewrite_token(token));
                proof {
                    reveal_with_fuel(spec_norm_expr, 1);
                    let chunk = seq![c] + spec_rewrite_token(
                        input@.subrange(pre_i + 1, spec_ident_end(input@, pre_i + 1)),
                    );
                    let rest = spec_norm_expr(input@, i as int, in_single, in_double, in_comment, root_ok, rr);
                    assert(whole == chunk + rest);
                    assert(out@ == pre_out + chunk) by {
                        assert(input@.subrange(pre_i, pre_i + 1) =~= seq![c]);
                        assert(dotted == pre_out + seq![c]);
                        assert(pre_out + (seq![c] + spec_rewrite_token(token@)) =~= (pre_out
                            + seq![c]) + spec_rewrite_token(token@));
                    }
                    lemma_extend(pre_out, chunk, rest, whole, out@);
                }
            } else {
                proof {
                    reveal_with_fuel(spec_norm_expr, 1);
                    let rest = spec_norm_expr(input@, i as int, in_single, in_double, in_comment, root_ok, rr);
                    assert(whole == seq![c] + rest);
                    assert(out@ == pre_out + seq![c]) by {
                        assert(input@.subrange(pre_i, pre_i + 1) =~= seq![c]);
                    }
                    lemma_extend(pre_out, seq![c], rest, whole, out@);
                }
            }
        } else if c == '$' {
            out.append(input.substring_char(i, i + 1));
            i = i + 1;
            root_ok = rewrite_root_tokens;
            proof {
                reveal_with_fuel(spec_norm_expr, 1);
                let rest = spec_norm_expr(input@, i as int, in_single, in_double, in_comment, root_ok, rr);
                assert(whole == seq![c] + rest);
                assert(out@ == pre_out + seq![c]) by {
                    assert(input@.subrange(pre_i, pre_i + 1) =~= seq![c]);
                }
                lemma_extend(pre_out, seq![c], rest, whole, out@);
            }
        } else if rewrite_root_tokens && root_ok && is_ident_start(c) {
            let start = i;
            i = read_identifier_end(input, n, i);
            proof {
                assert(spec_ident_end(input@, pre_i) == spec_ident_end(input@, pre_i + 1));
                lemma_ident_end(input@, pre_i + 1);
            }
            let token = input.substring_char(start, i);
            out.append(rewrite_token(token));
            root_ok = false;
            proof {
                reveal_with_fuel(spec_norm_expr, 1);
                let chunk = spec_rewrite_token(input@.subrange(pre_i, spec_ident_end(input@, pre_i)));
                let rest = spec_norm_expr(input@, i as int, in_single, in_double, in_comment, root_ok, rr);
                assert(whole == chunk + rest);
                assert(out@ == pre_out + chunk);
                lemma_extend(pre_out, chunk, rest, whole, out@);
            }
        } else {
            out.append(input.substring_char(i, i + 1));
            i = i + 1;
            root_ok = rewrite_root_tokens && is_root_separator(c);
            proof {
                reveal_with_fuel(spec_norm_expr, 1);
                let rest = spec_norm_expr(input@, i as int, in_single, in_double, in_comment, root_ok, rr);
                assert(whole == seq![c] + rest);
                assert(out@ == pre_out + seq![c]) by {
                    assert(input@.subrange(pre_i, pre_i + 1) =~= seq![c]);
                }
                lemma_extend(pre_out, seq![c], rest, whole, out@);
            }
        }
    }
    proof {
        reveal_with_fuel(spec_norm_expr, 1);
        assert(spec_norm_expr(
            input@,
            n as int,
            in_single,
            in_double,
            in_comment,
            root_ok,
            rewrite_root_tokens,
        ) == Seq::<char>::empty());
        assert(out@ + Seq::<char>::empty() =~= out@);
    }
    out
}

/// Position of the first character at or after `i` that is not whitespace.
pub open spec fn spec_skip_space(s: Seq<char>, i: int) -> int
    decreases s.len() - i,
{
    if 0 <= i < s.len() && spec_space(s[i]) {
        spec_skip_space(s, i + 1)
    } else {
        i
    }
}


/// End of the trimmed region scanning back from `e`: the position after
/// the last non-whitespace character before `e`.
pub open spec fn spec_trim_end(s: Seq<char>, e: int) -> int
    decreases e,
{
    if 0 < e <= s.len() && spec_space(s[e - 1]) {
        spec_trim_end(s, e - 1)
    } else {
        e
    }
}


/// Scans forward past whitespace.
pub fn skip_space(s: &str, n: usize, idx: usize) -> (r: usize)
    requires
        n == s@.len(),
        idx <= n,
    ensures
        r == spec_skip_space(s@, idx as int),
        idx <= r <= n,
    decreases n - idx,
{
    if idx < n && is_space(s.get_char(idx)) {
        skip_space(s, n, idx + 1)
    } else {
        idx
    }
}

/// Scans backward past whitespace from `e`.
pub fn trim_end_index(s: &str, e: usize) -> (r: usize)
    requires
        e <= s@.len(),
    ensures
        r == spec_trim_end(s@, e as int),
        r <= e,
    decreases e,
{
    if e > 0 && is_space(s.get_char(e - 1)) {
        trim_end_index(s, e - 1)
    } else {
        e
    }
}

/// Every character of the token is a decimal digit.
pub open spec fn spec_all_digits(t: Seq<char>) -> bool {
    forall|i: int| 0 <= i < t.len() ==> '0' <= #[trigger] t[i] && t[i] <= '9'
}

/// Whether every character of a token is a decimal digit.
pub fn all_digits(token: &str) -> (r: bool)
    ensures
        r == spec_all_digits(token@),
{
    let n = token.unicode_len();
    let mut i: usize = 0;
    while i < n
        invariant
            i <= n,
            n == token@.len(),
            forall|j: int| 0 <= j < i ==> '0' <= #[trigger] token@[j] && token@[j] <= '9',
        decreases n - i,
    {
        let c = token.get_char(i);
        if !('0' <= c && c <= '9') {
            return false;
        }
        i = i + 1;
    }
    true
}

/// What a bare bracket token becomes.  Surrounding whitespace is kept; a
/// core that is empty, `*`, all digits, or not an identifier is kept; an
/// identifier core goes through the alias table.
pub open spec fn spec_rewrite_bracket_token(raw: Seq<char>) -> Seq<char> {
    let lead = spec_skip_space(raw, 0);
    let tend = spec_trim_end(raw, raw.len() as int);
    if lead >= tend {
        raw
    } else {
        let core = raw.subrange(lead, tend);
        let rewritten = if core == "*"@ || spec_all_digits(core) || !spec_is_identifier(core) {
            core
        } else {
            spec_rewrite_token(core)
        };
        raw.subrange(0, lead) + rewritten + raw.subrange(tend, raw.len() as int)
    }
}

/// Rewrites one bare bracket token.
pub fn rewrite_bracket_token(raw: &str) -> (r: String)
    ensures
        r@ == spec_rewrite_bracket_token(raw@),
{
    let n = raw.unicode_len();
    let lead = skip_space(raw, n, 0);
    let tend = trim_end_index(raw, n);
    if lead >= tend {
        return String::from_str(raw);
    }
    let core = raw.substring_char(lead, tend);
    let mut out = String::from_str(raw.substring_char(0, lead));
    if str_eq(core, "*") || all_digits(core) || !is_identifier_token(core) {
        out.append(core);
    } else {
        out.append(rewrite_token(core));
    }
    out.append(raw.substring_char(tend, n));
    proof {
        assert(out@ =~= spec_rewrite_bracket_token(raw@));
    }
    out
}

/// Position of the first `]` at or after `i`, or the end.
pub open spec fn spec_find_close(s: Seq<char>, i: int) -> int
    decreases s.len() - i,
{
    if 0 <= i < s.len() && s[i] != ']' {
        spec_find_close(s, i + 1)
    } else {
        i
    }
}

/// The close scan never moves backward and never passes the end.
pub proof fn lemma_find_close(s: Seq<char>, i: int)
    requires
        0 <= i <= s.len(),
    ensures
        i <= spec_find_close(s, i) <= s.len(),
    decreases s.len() - i,
{
    if i < s.len() && s[i] != ']' {
        lemma_find_close(s, i + 1);
    }
}

/// Scans to the next `]`.
pub fn find_close(s: &str, n: usize, idx: usize) -> (r: usize)
    requires
        n == s@.len(),
        idx <= n,
    ensures
        r == spec_find_close(s@, idx as int),
        idx <= r <= n,
    decreases n - idx,
{
    if idx < n && s.get_char(idx) != ']' {
        find_close(s, n, idx + 1)
    } else {
        idx
    }
}

/// Position just past the closing quote of a quoted run starting at `i`,
/// honouring backslash escapes; the end of the string if it never closes.
pub open spec fn spec_quote_end(s: Seq<char>, i: int, quote: char) -> int
    decreases s.len() - i,
    when 0 <= i
    via spec_quote_end_dec
{
    if i >= s.len() {
        s.len() as int
    } else if s[i] == '\\' && i + 1 < s.len() {
        spec_quote_end(s, i + 2, quote)
    } else if s[i] == quote {
        i + 1
    } else {
        spec_quote_end(s, i + 1, quote)
    }
}

#[via_fn]
proof fn spec_quote_end_dec(s: Seq<char>, i: int, quote: char) {
}

/// The quote scan moves forward and never passes the end.
pub proof fn lemma_quote_end(s: Seq<char>, i: int, quote: char)
    requires
        0 <= i <= s.len(),
    ensures
        i <= spec_quote_end(s, i, quote) <= s.len(),
    decreases s.len() - i,
{
    if i < s.len() {
        if s[i] == '\\' && i + 1 < s.len() {
            lemma_quote_end(s, i + 2, quote);
        } else if s[i] != quote {
            lemma_quote_end(s, i + 1, quote);
        }
    }
}

/// Scans past a quoted run.
pub fn quote_end(s: &str, n: usize, idx: usize, quote: char) -> (r: usize)
    requires
        n == s@.len(),
        idx <= n,
    ensures
        r == spec_quote_end(s@, idx as int, quote),
        idx <= r <= n,
    decreases n - idx,
{
    if idx >= n {
        n
    } else if s.get_char(idx) == '\\' && idx + 1 < n {
        quote_end(s, n, idx + 2, quote)
    } else if s.get_char(idx) == quote {
        idx + 1
    } else {
        quote_end(s, n, idx + 1, quote)
    }
}

/// What a whole bracket group starting at `i` (on the `[`) becomes, and
/// the position just past it.  A quoted key is copied verbatim; a bare
/// token goes through [`spec_rewrite_bracket_token`].
pub open spec fn spec_bracket(s: Seq<char>, i: int) -> (Seq<char>, int) {
    let p = i + 1;
    if p >= s.len() {
        (seq!['['], p)
    } else if s[p] == '\'' || s[p] == '"' {
        let qe = spec_quote_end(s, p + 1, s[p]);
        let copied = seq!['['] + s.subrange(p, qe);
        if qe < s.len() && s[qe] == ']' {
            (copied + seq![']'], qe + 1)
        } else {
            (copied, qe)
        }
    } else {
        let j = spec_find_close(s, p);
        let rewritten = seq!['['] + spec_rewrite_bracket_token(s.subrange(p, j));
        if j < s.len() {
            (rewritten + seq![']'], j + 1)
        } else {
            (rewritten, j)
        }
    }
}

/// The bracket group always advances and stays inside the string.
pub proof fn lemma_bracket_bounds(s: Seq<char>, i: int)
    requires
        0 <= i < s.len(),
    ensures
        i < spec_bracket(s, i).1 <= s.len() + 1,
        i + 1 >= s.len() || spec_bracket(s, i).1 <= s.len(),
{
    if i + 1 < s.len() {
        if s[i + 1] == '\'' || s[i + 1] == '"' {
            lemma_quote_end(s, i + 2, s[i + 1]);
        } else {
            lemma_find_close(s, i + 1);
        }
    }
}

/// Rewrites one bracket group, appending its rewritten text.
pub fn rewrite_bracket_content(input: &str, n: usize, i: usize, out: &mut String) -> (r: usize)
    requires
        n == input@.len(),
        i < n,
        input@[i as int] == '[',
    ensures
        final(out)@ == old(out)@ + spec_bracket(input@, i as int).0,
        r == spec_bracket(input@, i as int).1,
        i < r <= n + 1,
        r <= n || i + 1 >= n,
    decreases n - i,
{
    proof {
        reveal_strlit("[");
        reveal_strlit("]");
        lemma_bracket_bounds(input@, i as int);
    }
    out.append("[");
    proof {
        assert("["@ =~= seq!['[']);
    }
    let p = i + 1;
    if p >= n {
        return p;
    }
    let first = input.get_char(p);
    if first == '\'' || first == '"' {
        let qe = quote_end(input, n, p + 1, first);
        out.append(input.substring_char(p, qe));
        if qe < n && input.get_char(qe) == ']' {
            out.append("]");
            proof {
                assert("]"@ =~= seq![']']);
                assert(out@ =~= old(out)@ + spec_bracket(input@, i as int).0);
            }
            qe + 1
        } else {
            proof {
                assert(out@ =~= old(out)@ + spec_bracket(input@, i as int).0);
            }
            qe
        }
    } else {
        let j = find_close(input, n, p);
        let raw = input.substring_char(p, j);
        let rewritten = rewrite_bracket_token(raw);
        out.append(rewritten.as_str());
        if j < n {
            out.append("]");
            proof {
                assert("]"@ =~= seq![']']);
                assert(out@ =~= old(out)@ + spec_bracket(input@, i as int).0);
            }
            j + 1
        } else {
            proof {
                assert(out@ =~= old(out)@ + spec_bracket(input@, i as int).0);
            }
            j
        }
    }
}

/// The alias-rewritten form of a dot/bracket path from position `i`.
/// Identifier segments after `.`, at the root, or after a separator are
/// rewritten; quoted bracket keys are kept verbatim.
#[verifier::opaque]
pub open spec fn spec_norm_path(s: Seq<char>, i: int, root_ok: bool) -> Seq<char>
    decreases s.len() - i,
    when 0 <= i <= s.len()
    via spec_norm_path_dec
{
    if i >= s.len() {
        Seq::empty()
    } else {
        let c = s[i];
        if c == '$' {
            seq![c] + spec_norm_path(s, i + 1, true)
        } else if c == '.' {
            if i + 1 < s.len() && spec_ident_start(s[i + 1]) {
                let j = spec_ident_end(s, i + 1);
                seq![c] + spec_rewrite_token(s.subrange(i + 1, j)) + spec_norm_path(s, j, false)
            } else {
                seq![c] + spec_norm_path(s, i + 1, true)
            }
        } else if c == '[' {
            let b = spec_bracket(s, i);
            if b.1 <= s.len() {
                b.0 + spec_norm_path(s, b.1, false)
            } else {
                b.0
            }
        } else if root_ok && spec_ident_start(c) {
            let j = spec_ident_end(s, i);
            spec_rewrite_token(s.subrange(i, j)) + spec_norm_path(s, j, false)
        } else {
            seq![c] + spec_norm_path(s, i + 1, spec_space(c) || c == '|' || c == ',')
        }
    }
}

#[via_fn]
proof fn spec_norm_path_dec(s: Seq<char>, i: int, root_ok: bool) {
    if 0 <= i < s.len() {
        if i + 1 <= s.len() {
            lemma_ident_end(s, i + 1);
        }
        lemma_ident_end(s, i);
        if spec_ident_char(s[i]) {
            assert(spec_ident_end(s, i) == spec_ident_end(s, i + 1));
        }
        lemma_bracket_bounds(s, i);
    }
}

/// Rewrites aliases inside a dot/bracket path: root segments, segments
/// after `.`, and bare bracket tokens; quoted bracket keys stay verbatim.
#[verifier::rlimit(100)]
pub fn normalize_path(input: &str) -> (r: String)
    ensures
        r@ == spec_norm_path(input@, 0, true),
{
    let n = input.unicode_len();
    let mut out = String::new();
    let mut i: usize = 0;
    let mut root_ok = true;
    while i < n
        invariant
            i <= n,
            n == input@.len(),
            spec_norm_path(input@, 0, true) == out@ + spec_norm_path(
                input@,
                i as int,
                root_ok,
            ),
        decreases n - i,
    {
        let ghost pre_out = out@;
        let ghost pre_i = i as int;
        let ghost r1 = root_ok;
        let ghost whole = spec_norm_path(input@, pre_i, r1);
        let c = input.get_char(i);
        if c == '$' {
            out.append(input.substring_char(i, i + 1));
            i = i + 1;
            root_ok = true;
            proof {
                reveal_with_fuel(spec_norm_path, 1);
                let rest = spec_norm_path(input@, i as int, root_ok);
                assert(whole == seq![c] + rest);
                assert(out@ == pre_out + seq![c]) by {
                    assert(input@.subrange(pre_i, pre_i + 1) =~= seq![c]);
                }
                lemma_extend(pre_out, seq![c], rest, whole, out@);
            }
        } else if c == '.' {
            out.append(input.substring_char(i, i + 1));
            let ghost dotted = out@;
            i = i + 1;
            root_ok = true;
            if i < n && is_ident_start(input.get_char(i)) {
                let start = i;
                i = read_identifier_end(input, n, i);
                let token = input.substring_char(start, i);
                out.append(rewrite_token(token));
                root_ok = false;
                proof {
                    reveal_with_fuel(spec_norm_path, 1);
                    let chunk = seq![c] + spec_rewrite_token(
                        input@.subrange(pre_i + 1, spec_ident_end(input@, pre_i + 1)),
                    );
                    let rest = spec_norm_path(input@, i as int, root_ok);
                    assert(whole == chunk + rest);
                    assert(out@ == pre_out + chunk) by {
                        assert(input@.subrange(pre_i, pre_i + 1) =~= seq![c]);
                        assert(dotted == pre_out + seq![c]);
                        assert(pre_out + (seq![c] + spec_rewrite_token(token@)) =~= (pre_out
                            + seq![c]) + spec_rewrite_token(token@));
                    }
                    lemma_extend(pre_out, chunk, rest, whole, out@);
                }
            } else {
                proof {
                    reveal_with_fuel(spec_norm_path, 1);
                    let rest = spec_norm_path(input@, i as int, root_ok);
                    assert(whole == seq![c] + rest);
                    assert(out@ == pre_out + seq![c]) by {
                        assert(input@.subrange(pre_i, pre_i + 1) =~= seq![c]);
                    }
                    lemma_extend(pre_out, seq![c], rest, whole, out@);
                }
            }
        } else if c == '[' {
            proof {
                lemma_bracket_bounds(input@, pre_i);
            }
            i = rewrite_bracket_content(input, n, i, &mut out);
            root_ok = false;
            proof {
                reveal_with_fuel(spec_norm_path, 1);
                let chunk = spec_bracket(input@, pre_i).0;
                if i <= n {
                    let rest = spec_norm_path(input@, i as int, root_ok);
                    assert(whole == chunk + rest);
                    lemma_extend(pre_out, chunk, rest, whole, out@);
                } else {
                    assert(whole == chunk);
                    assert(i as int == n + 1);
                }
            }
            if i > n {
                proof {
                    assert(out@ == pre_out + whole);
                    assert(pre_out + whole + Seq::<char>::empty() =~= pre_out + whole);
                    reveal_with_fuel(spec_norm_path, 1);
                }
                return out;
            }
        } else if root_ok && is_ident_start(c) {
            let start = i;
            i = read_identifier_end(input, n, i);
            proof {
                assert(spec_ident_end(input@, pre_i) == spec_ident_end(input@, pre_i + 1));
                lemma_ident_end(input@, pre_i + 1);
            }
            let token = input.substring_char(start, i);
            out.append(rewrite_token(token));
            root_ok = false;
            proof {
                reveal_with_fuel(spec_norm_path, 1);
                let chunk = spec_rewrite_token(input@.subrange(pre_i, spec_ident_end(input@, pre_i)));
                let rest = spec_norm_path(input@, i as int, root_ok);
                assert(whole == chunk + rest);
                assert(out@ == pre_out + chunk);
                lemma_extend(pre_out, chunk, rest, whole, out@);
            }
        } else {
            out.append(input.substring_char(i, i + 1));
            i = i + 1;
            root_ok = is_space(c) || c == '|' || c == ',';
            proof {
                reveal_with_fuel(spec_norm_path, 1);
                let rest = spec_norm_path(input@, i as int, root_ok);
                assert(whole == seq![c] + rest);
                assert(out@ == pre_out + seq![c]) by {
                    assert(input@.subrange(pre_i, pre_i + 1) =~= seq![c]);
                }
                lemma_extend(pre_out, seq![c], rest, whole, out@);
            }
        }
    }
    proof {
        reveal_with_fuel(spec_norm_path, 1);
        assert(spec_norm_path(input@, n as int, root_ok) == Seq::<char>::empty());
        assert(out@ + Seq::<char>::empty() =~= out@);
    }
    out
}

/// The rewritten form of an expression in a given context.
pub open spec fn spec_normalize_aliases(s: Seq<char>, context: QueryContext) -> Seq<char> {
    match context {
        QueryContext::Jq => spec_norm_expr(s, 0, false, false, false, false, false),
        QueryContext::JsonPath => spec_norm_expr(s, 0, false, false, false, true, true),
        QueryContext::QueryPath => spec_norm_path(s, 0, true),
        QueryContext::FieldProjection => spec_norm_path(s, 0, true),
        QueryContext::SortPath => spec_norm_path(s, 0, true),
    }
}

/// Rewrites aliases in an expression according to its context: jq and
/// JSONPath expressions through the expression rewriter (the latter with
/// root tokens), paths through the path rewriter.
pub fn normalize_aliases(input: &str, context: QueryContext) -> (r: String)
    ensures
        r@ == spec_normalize_aliases(input@, context),
{
    match context {
        QueryContext::Jq => normalize_expression(input, false),
        QueryContext::JsonPath => normalize_expression(input, true),
        QueryContext::QueryPath => normalize_path(input),
        QueryContext::FieldProjection => normalize_path(input),
        QueryContext::SortPath => normalize_path(input),
    }
}

/// One segment of a parsed dot/bracket path.
#[derive(Clone, Debug, PartialEq)]
pub enum PathSegment {
    /// An object key.
    Key(String),
    /// An array index.
    Index(usize),
    /// Every element of an array, or every value of an object.
    Wildcard,
}

/// The mathematical form of a path segment.
pub enum SpecSegment {
    Key(Seq<char>),
    Index(int),
    Wildcard,
}

impl PathSegment {
    /// The mathematical form of this segment.
    pub open spec fn view(&self) -> SpecSegment {
        match self {
            PathSegment::Key(k) => SpecSegment::Key(k@),
            PathSegment::Index(i) => SpecSegment::Index(*i as int),
            PathSegment::Wildcard => SpecSegment::Wildcard,
        }
    }
}

/// Position just past the closing quote of a bracket key scanned from
/// `k`, honouring backslash escapes (which may jump past the end); the
/// position of the closing quote itself.
pub open spec fn spec_bq_close(s: Seq<char>, k: int, quote: char) -> int
    decreases s.len() + 2 - k,
    when 0 <= k
    via spec_bq_close_dec
{
    if k >= s.len() {
        s.len() as int
    } else if s[k] == '\\' {
        spec_bq_close(s, k + 2, quote)
    } else if s[k] == quote {
        k
    } else {
        spec_bq_close(s, k + 1, quote)
    }
}

#[via_fn]
proof fn spec_bq_close_dec(s: Seq<char>, k: int, quote: char) {
}


/// Scans for the closing quote of a bracket key.
pub fn bq_close(s: &str, n: usize, k: usize, quote: char) -> (r: usize)
    requires
        n == s@.len(),
        k <= n,
    ensures
        r == spec_bq_close(s@, k as int, quote),
        k <= r <= n,
    decreases n + 2 - k,
{
    if k >= n {
        n
    } else if s.get_char(k) == '\\' {
        if n - k >= 2 {
            bq_close(s, n, k + 2, quote)
        } else {
            proof {
                assert(spec_bq_close(s@, k as int + 2, quote) == n as int);
            }
            n
        }
    } else if s.get_char(k) == quote {
        k
    } else {
        bq_close(s, n, k + 1, quote)
    }
}

/// What one bracket segment of a path parses to, and the position just
/// past its `]`: a quoted key verbatim; a bare token as a wildcard
/// (empty or `*`), an index (digits that fit `usize`), or an identifier
/// key; nothing on anything else or a missing `]`.
pub open spec fn spec_parse_bracket(t: Seq<char>, i: int) -> Option<(SpecSegment, int)> {
    let j = spec_skip_space(t, i + 1);
    if j >= t.len() {
        Option::None
    } else if t[j] == '\'' || t[j] == '"' {
        let qe = spec_bq_close(t, j + 1, t[j]);
        if qe >= t.len() {
            Option::None
        } else {
            let key = t.subrange(j + 1, qe);
            let w = spec_skip_space(t, qe + 1);
            if w < t.len() && t[w] == ']' {
                Option::Some((SpecSegment::Key(key), w + 1))
            } else {
                Option::None
            }
        }
    } else {
        let j2 = spec_find_close(t, j);
        if j2 >= t.len() {
            Option::None
        } else {
            let raw = t.subrange(j, j2);
            let lead = spec_skip_space(raw, 0);
            let tend = spec_trim_end(raw, raw.len() as int);
            let token = if lead < tend {
                raw.subrange(lead, tend)
            } else {
                Seq::empty()
            };
            if token.len() == 0 || token == "*"@ {
                Option::Some((SpecSegment::Wildcard, j2 + 1))
            } else if spec_all_digits(token) {
                if spec_digits_val_q(token) <= usize::MAX {
                    Option::Some((SpecSegment::Index(spec_digits_val_q(token)), j2 + 1))
                } else {
                    Option::None
                }
            } else if spec_is_identifier(token) {
                Option::Some((SpecSegment::Key(token), j2 + 1))
            } else {
                Option::None
            }
        }
    }
}

/// The value of a run of decimal digits.
pub open spec fn spec_digits_val_q(t: Seq<char>) -> int
    decreases t.len(),
{
    if t.len() == 0 {
        0
    } else {
        spec_digits_val_q(t.drop_last()) * 10 + (t.last() as int - '0' as int)
    }
}

/// Digit values are non-negative.
proof fn lemma_digits_val_q_nonneg(t: Seq<char>)
    requires
        spec_all_digits(t),
    ensures
        spec_digits_val_q(t) >= 0,
    decreases t.len(),
{
    if t.len() > 0 {
        assert(spec_all_digits(t.drop_last()));
        lemma_digits_val_q_nonneg(t.drop_last());
        let prev = spec_digits_val_q(t.drop_last());
        assert(prev * 10 >= 0) by (nonlinear_arith)
            requires
                prev >= 0,
        ;
    }
}

/// Reads the value of an all-digit token, unless it exceeds `usize`.
fn digits_to_usize(t: &str) -> (r: Option<usize>)
    requires
        spec_all_digits(t@),
    ensures
        match r {
            Option::Some(v) => v == spec_digits_val_q(t@),
            Option::None => spec_digits_val_q(t@) > usize::MAX,
        },
{
    let n = t.unicode_len();
    let mut i: usize = 0;
    let mut value: usize = 0;
    proof {
        assert(t@.subrange(0, 0) =~= Seq::<char>::empty());
    }
    loop
        invariant
            i <= n,
            n == t@.len(),
            spec_all_digits(t@),
            value == spec_digits_val_q(t@.subrange(0, i as int)),
        decreases n - i,
    {
        if i >= n {
            proof {
                assert(t@.subrange(0, n as int) =~= t@);
            }
            return Option::Some(value);
        }
        let c = t.get_char(i);
        let d: usize = (c as u32 - 48) as usize;
        let ghost prev = spec_digits_val_q(t@.subrange(0, i as int));
        proof {
            assert(t@.subrange(0, i as int + 1).drop_last() =~= t@.subrange(0, i as int));
            assert(t@.subrange(0, i as int + 1).last() == c);
            assert(spec_all_digits(t@.subrange(0, i as int)));
            lemma_digits_val_q_nonneg(t@.subrange(0, i as int));
        }
        let next = match value.checked_mul(10) {
            Option::Some(v10) => v10.checked_add(d),
            Option::None => Option::None,
        };
        match next {
            Option::Some(v) => {
                value = v;
            }
            Option::None => {
                proof {
                    assert(prev * 10 + (c as int - 48) > usize::MAX) by (nonlinear_arith)
                        requires
                            prev >= 0,
                            0 <= (c as int - 48) <= 9,
                            prev * 10 > usize::MAX || prev * 10 + (c as int - 48)
                                > usize::MAX,
                    ;
                    lemma_digits_q_grow(t@, i as int + 1);
                }
                return Option::None;
            }
        }
        i = i + 1;
    }
}

/// A longer digit run never has a smaller value.
proof fn lemma_digits_q_grow(t: Seq<char>, i: int)
    requires
        spec_all_digits(t),
        0 <= i <= t.len(),
    ensures
        spec_digits_val_q(t) >= spec_digits_val_q(t.subrange(0, i)),
    decreases t.len() - i,
{
    if i == t.len() {
        assert(t.subrange(0, i) =~= t);
    }
    if i < t.len() {
        lemma_digits_q_grow(t, i + 1);
        let prev = spec_digits_val_q(t.subrange(0, i));
        assert(t.subrange(0, i + 1).drop_last() =~= t.subrange(0, i));
        assert(spec_all_digits(t.subrange(0, i)));
        lemma_digits_val_q_nonneg(t.subrange(0, i));
        assert(spec_digits_val_q(t.subrange(0, i + 1)) == prev * 10 + (t[i] as int
            - '0' as int));
        assert(prev * 10 >= prev) by (nonlinear_arith)
            requires
                prev >= 0,
        ;
    }
}

/// Parses one bracket segment starting at the `[` at `i`.
pub fn parse_bracket_segment(t: &str, n: usize, i: usize) -> (r: Option<(PathSegment, usize)>)
    requires
        n == t@.len(),
        i < n,
    ensures
        match r {
            Option::Some((seg, next)) => spec_parse_bracket(t@, i as int) matches Option::Some(
                (s0, n0),
            ) && seg@ == s0 && next == n0 && i < next <= n,
            Option::None => spec_parse_bracket(t@, i as int) is None,
        },
{
    let j = skip_space(t, n, i + 1);
    if j >= n {
        return Option::None;
    }
    let first = t.get_char(j);
    if first == '\'' || first == '"' {
        let qe = bq_close(t, n, j + 1, first);
        if qe >= n {
            return Option::None;
        }
        let key = t.substring_char(j + 1, qe);
        let w = skip_space(t, n, qe + 1);
        if w < n && t.get_char(w) == ']' {
            return Option::Some((PathSegment::Key(String::from_str(key)), w + 1));
        }
        return Option::None;
    }
    let j2 = find_close(t, n, j);
    if j2 >= n {
        return Option::None;
    }
    let raw = t.substring_char(j, j2);
    let token = {
        let rn = raw.unicode_len();
        let lead = skip_space(raw, rn, 0);
        let tend = trim_end_index(raw, rn);
        if lead < tend {
            raw.substring_char(lead, tend)
        } else {
            proof {
                assert(raw@.subrange(0, 0) =~= Seq::<char>::empty());
            }
            raw.substring_char(0, 0)
        }
    };
    if token.unicode_len() == 0 || str_eq(token, "*") {
        return Option::Some((PathSegment::Wildcard, j2 + 1));
    }
    if all_digits(token) {
        match digits_to_usize(token) {
            Option::Some(v) => {
                return Option::Some((PathSegment::Index(v), j2 + 1));
            }
            Option::None => {
                return Option::None;
            }
        }
    }
    if is_identifier_token(token) {
        return Option::Some((PathSegment::Key(String::from_str(token)), j2 + 1));
    }
    Option::None
}

/// What a whole path parses to from position `i` (after the optional
/// leading `$`): dots separate segments, identifiers become keys, bracket
/// groups go through [`spec_parse_bracket`], whitespace is skipped, and
/// any other character fails the parse.
pub open spec fn spec_parse_segments(t: Seq<char>, i: int) -> Option<Seq<SpecSegment>>
    decreases t.len() - i,
    when 0 <= i <= t.len()
    via spec_parse_segments_dec
{
    if i >= t.len() {
        Option::Some(Seq::empty())
    } else {
        let c = t[i];
        if c == '.' {
            spec_parse_segments(t, i + 1)
        } else if c == '[' {
            match spec_parse_bracket(t, i) {
                Option::Some((seg, next)) => if i < next <= t.len() {
                    match spec_parse_segments(t, next) {
                        Option::Some(rest) => Option::Some(seq![seg] + rest),
                        Option::None => Option::None,
                    }
                } else {
                    Option::None
                },
                Option::None => Option::None,
            }
        } else if spec_ident_start(c) {
            let j = spec_ident_end(t, i);
            match spec_parse_segments(t, j) {
                Option::Some(rest) => Option::Some(
                    seq![SpecSegment::Key(t.subrange(i, j))] + rest,
                ),
                Option::None => Option::None,
            }
        } else if spec_space(c) {
            spec_parse_segments(t, i + 1)
        } else {
            Option::None
        }
    }
}

#[via_fn]
proof fn spec_parse_segments_dec(t: Seq<char>, i: int) {
    if 0 <= i < t.len() {
        lemma_ident_end(t, i);
        if spec_ident_char(t[i]) {
            assert(spec_ident_end(t, i) == spec_ident_end(t, i + 1));
            lemma_ident_end(t, i + 1);
        }
    }
}

/// What a whole path means: the trimmed text must be non-empty; a leading
/// `$` is skipped; then the segments.
pub open spec fn spec_parse_path(s: Seq<char>) -> Option<Seq<SpecSegment>> {
    let lead = spec_skip_space(s, 0);
    let tend = spec_trim_end(s, s.len() as int);
    if lead >= tend {
        Option::None
    } else {
        let t = s.subrange(lead, tend);
        let start: int = if t[0] == '$' {
            1
        } else {
            0
        };
        spec_parse_segments(t, start)
    }
}

/// The segments of the given segment list, viewed mathematically.
pub open spec fn segs_view(v: Seq<PathSegment>) -> Seq<SpecSegment> {
    v.map_values(|seg: PathSegment| seg@)
}

/// Parses a dot/bracket path into its segments.  Succeeds exactly when
/// the path conforms to the grammar; the error text names what failed.
pub fn parse_path(path: &str) -> (r: Result<Vec<PathSegment>, String>)
    ensures
        match r {
            Result::Ok(segs) => spec_parse_path(path@) == Option::Some(segs_view(segs@)),
            Result::Err(_) => spec_parse_path(path@) is None,
        },
{
    let n0 = path.unicode_len();
    let lead = skip_space(path, n0, 0);
    let tend = trim_end_index(path, n0);
    if lead >= tend {
        return Result::Err(String::from_str("path cannot be empty"));
    }
    let t = path.substring_char(lead, tend);
    let n = t.unicode_len();
    let mut i: usize = if t.get_char(0) == '$' {
        1
    } else {
        0
    };
    let ghost start0 = i as int;
    let mut segs: Vec<PathSegment> = Vec::new();
    loop
        invariant
            i <= n,
            n == t@.len(),
            t@ == path@.subrange(
                spec_skip_space(path@, 0),
                spec_trim_end(path@, path@.len() as int),
            ),
            spec_skip_space(path@, 0) < spec_trim_end(path@, path@.len() as int),
            start0 == if t@[0] == '$' {
                1int
            } else {
                0int
            },
            match spec_parse_segments(t@, start0) {
                Option::Some(all) => spec_parse_segments(t@, i as int) matches Option::Some(
                    rest,
                ) && all == segs_view(segs@) + rest,
                Option::None => spec_parse_segments(t@, i as int) is None || false,
            },
        decreases n - i,
    {
        if i >= n {
            proof {
                assert(spec_parse_segments(t@, i as int) == Option::Some(
                    Seq::<SpecSegment>::empty(),
                ));
                if spec_parse_segments(t@, start0) is Some {
                    assert(spec_parse_segments(t@, start0)->0 =~= segs_view(segs@));
                }
            }
            return Result::Ok(segs);
        }
        let c = t.get_char(i);
        if c == '.' {
            i = i + 1;
        } else if c == '[' {
            match parse_bracket_segment(t, n, i) {
                Option::Some((seg, next)) => {
                    let ghost pre = segs@;
                    segs.push(seg);
                    proof {
                        assert(segs_view(segs@) =~= segs_view(pre) + seq![seg@]);
                        if spec_parse_segments(t@, i as int) is Some {
                            assert(segs_view(pre) + (seq![seg@] + spec_parse_segments(
                                t@,
                                next as int,
                            )->0) =~= segs_view(segs@) + spec_parse_segments(
                                t@,
                                next as int,
                            )->0);
                        }
                    }
                    i = next;
                }
                Option::None => {
                    return Result::Err(String::from_str("invalid bracket segment in path"));
                }
            }
        } else if is_ident_start(c) {
            let start = i;
            i = read_identifier_end(t, n, i);
            proof {
                assert(spec_ident_end(t@, start as int) == spec_ident_end(
                    t@,
                    start as int + 1,
                ));
                lemma_ident_end(t@, start as int + 1);
            }
            let key = t.substring_char(start, i);
            let seg = PathSegment::Key(String::from_str(key));
            let ghost pre = segs@;
            segs.push(seg);
            proof {
                assert(segs_view(segs@) =~= segs_view(pre) + seq![
                    SpecSegment::Key(t@.subrange(start as int, i as int)),
                ]);
                if spec_parse_segments(t@, start as int) is Some {
                    assert(segs_view(pre) + (seq![
                        SpecSegment::Key(t@.subrange(start as int, i as int)),
                    ] + spec_parse_segments(t@, i as int)->0) =~= segs_view(segs@)
                        + spec_parse_segments(t@, i as int)->0);
                }
            }
        } else if is_space(c) {
            i = i + 1;
        } else {
            return Result::Err(String::from_str("unsupported token in path"));
        }
    }
}

/// The label a projected field gets: the last key segment of its path,
/// or the whole path text when no key segment exists.
pub open spec fn spec_projection_label(path: Seq<char>, segs: Seq<SpecSegment>) -> Seq<char>
    decreases segs.len(),
{
    if segs.len() == 0 {
        path
    } else {
        match segs.last() {
            SpecSegment::Key(k) => k,
            _ => spec_projection_label(path, segs.drop_last()),
        }
    }
}

/// Picks the output label of a projected field.
pub fn projection_label(path: &str, segs: &Vec<PathSegment>) -> (r: String)
    ensures
        r@ == spec_projection_label(path@, segs_view(segs@)),
{
    let n = segs.len();
    let mut k: usize = n;
    proof {
        assert(segs_view(segs@).subrange(0, n as int) =~= segs_view(segs@));
    }
    while k > 0
        invariant
            k <= n,
            n == segs@.len(),
            spec_projection_label(path@, segs_view(segs@)) == spec_projection_label(
                path@,
                segs_view(segs@).subrange(0, k as int),
            ),
        decreases k,
    {
        match &segs[k - 1] {
            PathSegment::Key(key) => {
                proof {
                    assert(segs_view(segs@).subrange(0, k as int).last() == SpecSegment::Key(
                        key@,
                    ));
                }
                return key.clone();
            }
            _ => {
                proof {
                    assert(segs_view(segs@).subrange(0, k as int).drop_last() =~= segs_view(
                        segs@,
                    ).subrange(0, k as int - 1));
                    assert(!(segs_view(segs@).subrange(0, k as int).last() is Key));
                }
                k = k - 1;
            }
        }
    }
    proof {
        assert(segs_view(segs@).subrange(0, 0) =~= Seq::<SpecSegment>::empty());
    }
    String::from_str(path)
}

} // verus!