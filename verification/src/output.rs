//! Output shaping: the JSON/table output records, display-width-aware
//! padding and truncation, relative dates, byte counts, and the summary
//! builders that turn protocol values into rows.

use vstd::prelude::*;
use vstd::string::*;
use crate::protocol::{
    AttachmentKind, Chat, ChatParticipant, Dialog, DocumentMedia, ExternalTaskStatus, MediaKind,
    Member, MemberRole, Message, MessageAttachment, MessageAttachments, MessageMedia,
    MessageTranslation, PhotoMedia, PhotoSize, Space, User, VideoMedia,
};
use crate::strutil::{i64_to_dec, spec_dec, spec_dec_signed, u64_to_dec};
use crate::query::{skip_space, spec_skip_space, spec_space, spec_trim_end, trim_end_index};

verus! {

broadcast use vstd::string::group_string_axioms;

/// How JSON output is rendered.
#[derive(Clone, Copy, Debug, PartialEq, Eq, Structural)]
pub enum JsonFormat {
    Pretty,
    Compact,
}

/// Resolves the output format flags: `--compact` wins, otherwise pretty.
pub fn resolve_json_format(pretty: bool, compact: bool) -> (r: JsonFormat)
    ensures
        r == if compact {
            JsonFormat::Compact
        } else {
            JsonFormat::Pretty
        },
{
    if compact {
        JsonFormat::Compact
    } else if pretty {
        JsonFormat::Pretty
    } else {
        JsonFormat::Pretty
    }
}

/// A rendered peer reference.
#[derive(Clone, Debug, PartialEq)]
pub struct PeerSummary {
    pub peer_type: String,
    pub id: i64,
}

/// A user with its display name resolved.
#[derive(Clone, Debug, PartialEq)]
pub struct UserSummary {
    pub display_name: String,
    pub user: User,
}

/// A space with its display name resolved.
#[derive(Clone, Debug, PartialEq)]
pub struct SpaceSummary {
    pub display_name: String,
    pub space: Space,
}

/// A message's media rendered for output.
#[derive(Clone, Debug, PartialEq)]
pub struct MediaSummary {
    pub kind: String,
    pub file_name: Option<String>,
    pub mime_type: Option<String>,
    pub size: Option<i32>,
    pub duration: Option<i32>,
    pub width: Option<i32>,
    pub height: Option<i32>,
    pub url: Option<String>,
}

/// A message's attachment rendered for output.
#[derive(Clone, Debug, PartialEq)]
pub struct AttachmentSummary {
    pub kind: String,
    pub title: Option<String>,
    pub url: Option<String>,
    pub site_name: Option<String>,
    pub application: Option<String>,
    pub status: Option<String>,
    pub number: Option<String>,
    pub assigned_user_id: Option<i64>,
}

/// A message with everything the list view shows.
#[derive(Clone, Debug, PartialEq)]
pub struct MessageSummary {
    pub message: Message,
    pub preview: String,
    pub translation: Option<MessageTranslation>,
    pub sender: Option<UserSummary>,
    pub sender_name: String,
    pub relative_date: String,
    pub media: Option<MediaSummary>,
    pub attachments: Vec<AttachmentSummary>,
}

/// One row of the chat list.
#[derive(Clone, Debug, PartialEq)]
pub struct ChatListItem {
    pub chat: Chat,
    pub dialog: Option<Dialog>,
    pub peer: PeerSummary,
    pub display_name: String,
    pub space: Option<SpaceSummary>,
    pub space_name: Option<String>,
    pub unread_count: Option<i32>,
    pub last_message: Option<MessageSummary>,
    pub last_message_line: Option<String>,
    pub last_message_relative_date: Option<String>,
}

/// The whole chat list.
#[derive(Clone, Debug, PartialEq)]
pub struct ChatListOutput {
    pub items: Vec<ChatListItem>,
    pub raw: crate::protocol::GetChatsResult,
}

/// The user list.
#[derive(Clone, Debug, PartialEq)]
pub struct UserListOutput {
    pub users: Vec<UserSummary>,
}

/// The space list.
#[derive(Clone, Debug, PartialEq)]
pub struct SpaceListOutput {
    pub spaces: Vec<SpaceSummary>,
}

/// The message list.
#[derive(Clone, Debug, PartialEq)]
pub struct MessageListOutput {
    pub items: Vec<MessageSummary>,
    pub peer: Option<PeerSummary>,
    pub peer_name: Option<String>,
}

/// One member row of a space.
#[derive(Clone, Debug, PartialEq)]
pub struct SpaceMemberSummary {
    pub member: Member,
    pub user: Option<UserSummary>,
    pub display_name: String,
    pub role: String,
    pub can_access_public_chats: bool,
}

/// The member list of a space.
#[derive(Clone, Debug, PartialEq)]
pub struct SpaceMembersOutput {
    pub members: Vec<SpaceMemberSummary>,
}

/// One participant row of a chat.
#[derive(Clone, Debug, PartialEq)]
pub struct ChatParticipantSummary {
    pub participant: ChatParticipant,
    pub user: Option<UserSummary>,
    pub display_name: String,
    pub relative_date: String,
}

/// The participant list of a chat.
#[derive(Clone, Debug, PartialEq)]
pub struct ChatParticipantsOutput {
    pub participants: Vec<ChatParticipantSummary>,
}

/// What `unicode_width`'s string width returns: the result depends on the
/// characters alone.
pub uninterp spec fn display_width_of(s: Seq<char>) -> int;

/// Relies on `unicode_width::UnicodeWidthStr::width`: the displayed column
/// width of a string, a function of its characters alone.
#[verifier::external_body]
pub fn display_width(value: &str) -> (r: usize)
    ensures
        r as int == display_width_of(value@),
{
    unicode_width::UnicodeWidthStr::width(value)
}

/// What `unicode_width`'s character width returns, with a control
/// character's absent width read as zero: a function of the character
/// alone.
pub uninterp spec fn char_width_of(c: char) -> int;

/// Relies on `unicode_width::UnicodeWidthChar::width`: the displayed
/// column width of one character, absent for control characters; a
/// function of the character alone.
#[verifier::external_body]
pub fn char_display_width(c: char) -> (r: usize)
    ensures
        r as int == char_width_of(c),
{
    unicode_width::UnicodeWidthChar::width(c).unwrap_or(0)
}

/// A run of `n` spaces.
pub open spec fn spec_spaces(n: int) -> Seq<char> {
    crate::strutil::spaces(n)
}

/// Pads on the right to the given display width; text wider than the
/// target is returned unchanged.
pub fn pad_right(value: &str, width: usize) -> (r: String)
    ensures
        display_width_of(value@) < width ==> r@ == value@ + spec_spaces(
            width - display_width_of(value@),
        ),
        display_width_of(value@) >= width ==> r@ == value@,
{
    let mut out = String::from_str(value);
    let current = display_width(value);
    if current < width {
        out.append(crate::strutil::make_spaces(width - current).as_str());
    }
    out
}

/// Pads on the left to the given display width; text wider than the
/// target is returned unchanged.
pub fn pad_left(value: &str, width: usize) -> (r: String)
    ensures
        display_width_of(value@) < width ==> r@ == spec_spaces(
            width - display_width_of(value@),
        ) + value@,
        display_width_of(value@) >= width ==> r@ == value@,
{
    let current = display_width(value);
    if current >= width {
        return String::from_str(value);
    }
    let mut out = crate::strutil::make_spaces(width - current);
    out.append(value);
    out
}

/// The longest prefix end such that the prefix's accumulated character
/// width, plus one more character and the ellipsis, still fits.
pub open spec fn spec_trunc_end(s: Seq<char>, i: int, w: int, max: int) -> int
    decreases s.len() - i,
    when 0 <= i <= s.len()
{
    if i >= s.len() {
        i
    } else if w + char_width_of(s[i]) + 3 > max {
        i
    } else {
        spec_trunc_end(s, i + 1, w + char_width_of(s[i]), max)
    }
}

/// Truncates to a display width, appending an ellipsis when the text was
/// cut; text that already fits is returned unchanged.
pub fn truncate_display(value: &str, max_width: usize) -> (r: String)
    ensures
        display_width_of(value@) <= max_width ==> r@ == value@,
        display_width_of(value@) > max_width ==> r@ == value@.subrange(
            0,
            spec_trunc_end(value@, 0, 0, max_width as int),
        ) + "..."@,
{
    if display_width(value) <= max_width {
        return String::from_str(value);
    }
    let n = value.unicode_len();
    let mut width: usize = 0;
    let mut i: usize = 0;
    loop
        invariant
            0 <= i <= n,
            n == value@.len(),
            display_width_of(value@) > max_width,
            spec_trunc_end(value@, 0, 0, max_width as int) == spec_trunc_end(
                value@,
                i as int,
                width as int,
                max_width as int,
            ),
        decreases n - i,
    {
        if i >= n {
            return cut_with_ellipsis(value, i);
        }
        let cw = char_display_width(value.get_char(i));
        let total = match width.checked_add(cw) {
            Option::Some(t) => match t.checked_add(3) {
                Option::Some(t2) => t2,
                Option::None => {
                    proof {
                        assert(width as int + char_width_of(value@[i as int]) + 3
                            > max_width as int);
                    }
                    return cut_with_ellipsis(value, i);
                }
            },
            Option::None => {
                proof {
                    assert(width as int + char_width_of(value@[i as int]) + 3
                        > max_width as int);
                }
                return cut_with_ellipsis(value, i);
            }
        };
        if total > max_width {
            return cut_with_ellipsis(value, i);
        }
        width = width + cw;
        i = i + 1;
    }
}

/// The prefix up to `end` with an ellipsis appended.
fn cut_with_ellipsis(value: &str, end: usize) -> (r: String)
    requires
        end <= value@.len(),
    ensures
        r@ == value@.subrange(0, end as int) + "..."@,
{
    let mut out = String::from_str(value.substring_char(0, end));
    out.append("...");
    out
}

/// A relative amount with a unit suffix: `in 5m` for the future, `5m ago`
/// for the past.
pub open spec fn spec_relative_unit(value: int, unit: Seq<char>, future: bool) -> Seq<char> {
    if future {
        "in "@ + spec_dec(value) + unit
    } else {
        spec_dec(value) + unit + " ago"@
    }
}

/// Formats one relative amount.
pub fn format_relative_unit(value: i64, unit: &str, future: bool) -> (r: String)
    requires
        value >= 0,
    ensures
        r@ == spec_relative_unit(value as int, unit@, future),
{
    if future {
        let mut out = String::from_str("in ");
        out.append(u64_to_dec(value as u64).as_str());
        out.append(unit);
        out
    } else {
        let mut out = u64_to_dec(value as u64);
        out.append(unit);
        out.append(" ago");
        out
    }
}

/// The human form of a timestamp relative to `now`: a dash for missing
/// values, `now` under ten seconds, then the largest fitting unit.
pub open spec fn spec_relative_date(timestamp: int, now: int) -> Seq<char> {
    if now <= 0 || timestamp <= 0 {
        "-"@
    } else {
        let future = timestamp > now;
        let delta = if future {
            timestamp - now
        } else {
            now - timestamp
        };
        if delta < 10 {
            "now"@
        } else if delta < 60 {
            spec_relative_unit(delta, "s"@, future)
        } else if delta / 60 < 60 {
            spec_relative_unit(delta / 60, "m"@, future)
        } else if delta / 3600 < 24 {
            spec_relative_unit(delta / 3600, "h"@, future)
        } else if delta / 86400 < 7 {
            spec_relative_unit(delta / 86400, "d"@, future)
        } else if delta / 86400 / 7 < 4 {
            spec_relative_unit(delta / 86400 / 7, "w"@, future)
        } else if delta / 86400 / 30 < 12 {
            spec_relative_unit(delta / 86400 / 30, "mo"@, future)
        } else {
            spec_relative_unit(delta / 86400 / 365, "y"@, future)
        }
    }
}

/// Formats a timestamp relative to `now`.
pub fn format_relative_date(timestamp: i64, now: i64) -> (r: String)
    ensures
        r@ == spec_relative_date(timestamp as int, now as int),
{
    if now <= 0 || timestamp <= 0 {
        return String::from_str("-");
    }
    let future = timestamp > now;
    let delta = if future {
        timestamp - now
    } else {
        now - timestamp
    };
    if delta < 10 {
        return String::from_str("now");
    }
    if delta < 60 {
        return format_relative_unit(delta, "s", future);
    }
    let minutes = delta / 60;
    if minutes < 60 {
        return format_relative_unit(minutes, "m", future);
    }
    let hours = delta / 3600;
    if hours < 24 {
        return format_relative_unit(hours, "h", future);
    }
    let days = delta / 86400;
    if days < 7 {
        return format_relative_unit(days, "d", future);
    }
    let weeks = days / 7;
    if weeks < 4 {
        return format_relative_unit(weeks, "w", future);
    }
    let months = days / 30;
    if months < 12 {
        return format_relative_unit(months, "mo", future);
    }
    let years = days / 365;
    format_relative_unit(years, "y", future)
}

/// Tenths of `b / div`, rounded half-up.
pub open spec fn spec_tenths(b: int, div: int) -> int {
    let q = b / div;
    let r = b % div;
    let t0 = q * 10 + (r * 10) / div;
    if 2 * ((r * 10) % div) >= div {
        t0 + 1
    } else {
        t0
    }
}

/// One decimal digit after the point: `t` tenths as `x.y`.
pub open spec fn spec_one_decimal(t: int) -> Seq<char> {
    spec_dec(t / 10) + "."@ + spec_dec(t % 10)
}

/// A byte count with the largest fitting binary unit and one decimal.
pub open spec fn spec_format_bytes(bytes: int) -> Seq<char> {
    let b = if bytes < 0 {
        0
    } else {
        bytes
    };
    if b < 1024 {
        spec_dec(b) + "B"@
    } else if b < 1048576 {
        spec_one_decimal(spec_tenths(b, 1024)) + "KB"@
    } else if b < 1073741824 {
        spec_one_decimal(spec_tenths(b, 1048576)) + "MB"@
    } else {
        spec_one_decimal(spec_tenths(b, 1073741824)) + "GB"@
    }
}

/// Tenths of `b / div`, rounded half-up.
fn tenths(b: i64, div: i64) -> (r: i64)
    requires
        b >= 0,
        div == 1024 || div == 1048576 || div == 1073741824,
        div == 1024 ==> b < 1048576,
        div == 1048576 ==> b < 1073741824,
    ensures
        r == spec_tenths(b as int, div as int),
        r >= 0,
{
    let q = b / div;
    let r0 = b % div;
    let t0 = q * 10 + (r0 * 10) / div;
    if 2 * ((r0 * 10) % div) >= div {
        t0 + 1
    } else {
        t0
    }
}

/// Formats a byte count with the largest fitting binary unit.
pub fn format_bytes(bytes: i64) -> (r: String)
    ensures
        r@ == spec_format_bytes(bytes as int),
{
    let b: i64 = if bytes < 0 {
        0
    } else {
        bytes
    };
    if b < 1024 {
        let mut out = u64_to_dec(b as u64);
        out.append("B");
        return out;
    }
    let (t, unit): (i64, &'static str) = if b < 1048576 {
        (tenths(b, 1024), "KB")
    } else if b < 1073741824 {
        (tenths(b, 1048576), "MB")
    } else {
        (tenths(b, 1073741824), "GB")
    };
    let mut out = u64_to_dec((t / 10) as u64);
    out.append(".");
    out.append(u64_to_dec((t % 10) as u64).as_str());
    out.append(unit);
    out
}

/// The label of a member's role; a dash when the role is unknown.
pub fn member_role_label(member: &Member) -> (r: String)
    ensures
        member.role == Option::Some(MemberRole::Owner) ==> r@ == "owner"@,
        member.role == Option::Some(MemberRole::Admin) ==> r@ == "admin"@,
        member.role == Option::Some(MemberRole::Member) ==> r@ == "member"@,
        member.role is None ==> r@ == "-"@,
{
    match member.role {
        Option::Some(MemberRole::Owner) => String::from_str("owner"),
        Option::Some(MemberRole::Admin) => String::from_str("admin"),
        Option::Some(MemberRole::Member) => String::from_str("member"),
        Option::None => String::from_str("-"),
    }
}

/// The label of an external task's status.
pub fn format_external_status(status: ExternalTaskStatus) -> (r: String)
    ensures
        status is Backlog ==> r@ == "backlog"@,
        status is Todo ==> r@ == "todo"@,
        status is InProgress ==> r@ == "in_progress"@,
        status is Done ==> r@ == "done"@,
        status is Cancelled ==> r@ == "cancelled"@,
        status is Unspecified ==> r@ == "unknown"@,
{
    match status {
        ExternalTaskStatus::Backlog => String::from_str("backlog"),
        ExternalTaskStatus::Todo => String::from_str("todo"),
        ExternalTaskStatus::InProgress => String::from_str("in_progress"),
        ExternalTaskStatus::Done => String::from_str("done"),
        ExternalTaskStatus::Cancelled => String::from_str("cancelled"),
        ExternalTaskStatus::Unspecified => String::from_str("unknown"),
    }
}

/// The trimmed view of a string: whitespace stripped from both ends.
pub open spec fn spec_trimmed(s: Seq<char>) -> Seq<char> {
    let lead = spec_skip_space(s, 0);
    let tend = spec_trim_end(s, s.len() as int);
    if lead < tend {
        s.subrange(lead, tend)
    } else {
        Seq::empty()
    }
}

/// Trims whitespace from both ends.
pub fn trimmed(s: &str) -> (r: &str)
    ensures
        r@ == spec_trimmed(s@),
{
    let n = s.unicode_len();
    let lead = skip_space(s, n, 0);
    let tend = trim_end_index(s, n);
    if lead < tend {
        s.substring_char(lead, tend)
    } else {
        proof {
            assert(s@.subrange(0, 0) =~= Seq::<char>::empty());
        }
        s.substring_char(0, 0)
    }
}

/// The display name of a user: the trimmed first and last names joined;
/// else `@username`; else the email; else the phone number; else
/// `user {id}`.
pub open spec fn spec_user_display_name(user: User) -> Seq<char> {
    let first = match user.first_name {
        Option::Some(f) => spec_trimmed(f@),
        Option::None => Seq::empty(),
    };
    let last = match user.last_name {
        Option::Some(l) => spec_trimmed(l@),
        Option::None => Seq::empty(),
    };
    if first.len() > 0 && last.len() > 0 {
        first + " "@ + last
    } else if first.len() > 0 {
        first
    } else if last.len() > 0 {
        last
    } else {
        let username = match user.username {
            Option::Some(u) => spec_trimmed(u@),
            Option::None => Seq::empty(),
        };
        if username.len() > 0 {
            "@"@ + username
        } else {
            let email = match user.email {
                Option::Some(e) => spec_trimmed(e@),
                Option::None => Seq::empty(),
            };
            if email.len() > 0 {
                email
            } else {
                let phone = match user.phone_number {
                    Option::Some(p) => spec_trimmed(p@),
                    Option::None => Seq::empty(),
                };
                if phone.len() > 0 {
                    phone
                } else {
                    "user "@ + spec_dec_signed(user.id as int)
                }
            }
        }
    }
}

/// Resolves a user's display name.
pub fn user_display_name(user: &User) -> (r: String)
    ensures
        r@ == spec_user_display_name(*user),
{
    let first: &str = match &user.first_name {
        Option::Some(f) => trimmed(f.as_str()),
        Option::None => "",
    };
    let last: &str = match &user.last_name {
        Option::Some(l) => trimmed(l.as_str()),
        Option::None => "",
    };
    proof {
        reveal_strlit("");
        assert(""@ =~= Seq::<char>::empty());
    }
    if first.unicode_len() > 0 && last.unicode_len() > 0 {
        let mut out = String::from_str(first);
        out.append(" ");
        out.append(last);
        return out;
    }
    if first.unicode_len() > 0 {
        return String::from_str(first);
    }
    if last.unicode_len() > 0 {
        return String::from_str(last);
    }
    let username: &str = match &user.username {
        Option::Some(u) => trimmed(u.as_str()),
        Option::None => "",
    };
    if username.unicode_len() > 0 {
        let mut out = String::from_str("@");
        out.append(username);
        return out;
    }
    let email: &str = match &user.email {
        Option::Some(e) => trimmed(e.as_str()),
        Option::None => "",
    };
    if email.unicode_len() > 0 {
        return String::from_str(email);
    }
    let phone: &str = match &user.phone_number {
        Option::Some(p) => trimmed(p.as_str()),
        Option::None => "",
    };
    if phone.unicode_len() > 0 {
        return String::from_str(phone);
    }
    let mut out = String::from_str("user ");
    out.append(i64_to_dec(user.id).as_str());
    out
}

/// A field-for-field copy of an optional string.
fn clone_opt_string(v: &Option<String>) -> (r: Option<String>)
    ensures
        r == *v,
{
    match v {
        Option::Some(s) => Option::Some(s.clone()),
        Option::None => Option::None,
    }
}

/// A field-for-field copy of a user.
pub fn clone_user(u: &User) -> (r: User)
    ensures
        r == *u,
{
    User {
        id: u.id,
        first_name: clone_opt_string(&u.first_name),
        last_name: clone_opt_string(&u.last_name),
        username: clone_opt_string(&u.username),
        email: clone_opt_string(&u.email),
        phone_number: clone_opt_string(&u.phone_number),
        bot: u.bot,
    }
}

/// Wraps a user with its resolved display name.
pub fn user_summary(user: &User) -> (r: UserSummary)
    ensures
        r.display_name@ == spec_user_display_name(*user),
        r.user == *user,
{
    UserSummary { display_name: user_display_name(user), user: clone_user(user) }
}

/// Wraps a space with its display name (the space's own name).
pub fn space_summary(space: &Space) -> (r: SpaceSummary)
    ensures
        r.display_name@ == space.name@,
        r.space == *space,
{
    SpaceSummary {
        display_name: space.name.clone(),
        space: Space { id: space.id, name: space.name.clone(), creator: space.creator },
    }
}

/// The display area of a photo rendition.
pub open spec fn spec_photo_area(size: PhotoSize) -> int {
    (size.w as int) * (size.h as int)
}

/// The largest photo rendition that has a URL — the first one among
/// equals — as its url, size, width and height; nothing when no
/// rendition has a URL.
pub fn best_photo_size(photo: &PhotoMedia) -> (r: (
    Option<String>,
    Option<i32>,
    Option<i32>,
    Option<i32>,
))
    ensures
        (exists|i: int|
            0 <= i < photo.sizes@.len() && (#[trigger] photo.sizes@[i]).cdn_url is Some) ==> (
        exists|j: int|
            {
                let s = #[trigger] photo.sizes@[j];
                0 <= j < photo.sizes@.len() && s.cdn_url is Some && r.0 == s.cdn_url && r.1
                    == Option::Some(s.size) && r.2 == Option::Some(s.w) && r.3
                    == Option::Some(s.h) && (forall|k: int|
                    0 <= k < photo.sizes@.len() && (#[trigger] photo.sizes@[k]).cdn_url
                        is Some ==> spec_photo_area(photo.sizes@[k]) <= spec_photo_area(s))
                    && (forall|k: int|
                    0 <= k < j && (#[trigger] photo.sizes@[k]).cdn_url is Some
                        ==> spec_photo_area(photo.sizes@[k]) < spec_photo_area(s))
            }),
        (forall|i: int|
            0 <= i < photo.sizes@.len() ==> (#[trigger] photo.sizes@[i]).cdn_url is None) ==> r
            == (
            Option::None::<String>,
            Option::None::<i32>,
            Option::None::<i32>,
            Option::None::<i32>,
        ),
{
    let n = photo.sizes.len();
    let mut best_idx: Option<usize> = Option::None;
    let mut best_area: i64 = 0;
    let mut i: usize = 0;
    while i < n
        invariant
            i <= n,
            n == photo.sizes@.len(),
            match best_idx {
                Option::Some(b) => b < i && photo.sizes@[b as int].cdn_url is Some
                    && best_area == spec_photo_area(photo.sizes@[b as int]) && (forall|k: int|
                    0 <= k < i && (#[trigger] photo.sizes@[k]).cdn_url is Some
                        ==> spec_photo_area(photo.sizes@[k]) <= best_area) && (forall|k: int|
                    0 <= k < b && (#[trigger] photo.sizes@[k]).cdn_url is Some
                        ==> spec_photo_area(photo.sizes@[k]) < best_area),
                Option::None => forall|k: int|
                    0 <= k < i ==> (#[trigger] photo.sizes@[k]).cdn_url is None,
            },
        decreases n - i,
    {
        let size = &photo.sizes[i];
        if size.cdn_url.is_some() {
            proof {
                assert((size.w as int) * (size.h as int) <= 0x4000_0000_0000_0000
                    && (size.w as int) * (size.h as int) >= -0x4000_0000_0000_0000)
                    by (nonlinear_arith)
                    requires
                        -0x8000_0000 <= (size.w as int) <= 0x7FFF_FFFF,
                        -0x8000_0000 <= (size.h as int) <= 0x7FFF_FFFF,
                ;
            }
            let area = (size.w as i64) * (size.h as i64);
            let better = match best_idx {
                Option::Some(_) => area > best_area,
                Option::None => true,
            };
            if better {
                best_idx = Option::Some(i);
                best_area = area;
            }
        }
        i = i + 1;
    }
    match best_idx {
        Option::Some(k) => {
            let size = &photo.sizes[k];
            (
                copy_opt_string(&size.cdn_url),
                Option::Some(size.size),
                Option::Some(size.w),
                Option::Some(size.h),
            )
        }
        Option::None => (Option::None, Option::None, Option::None, Option::None),
    }
}

/// The first user in the list with the given id.
pub open spec fn spec_find_user(users: Seq<User>, id: i64) -> Option<User>
    decreases users.len(),
{
    if users.len() == 0 {
        Option::None
    } else if users[0].id == id {
        Option::Some(users[0])
    } else {
        spec_find_user(users.drop_first(), id)
    }
}

/// Finds the first user with the given id.
pub fn find_user<'a>(users: &'a Vec<User>, id: i64) -> (r: Option<&'a User>)
    ensures
        match r {
            Option::Some(u) => spec_find_user(users@, id) == Option::Some(*u),
            Option::None => spec_find_user(users@, id) is None,
        },
{
    let n = users.len();
    let mut i: usize = 0;
    proof {
        assert(users@.skip(0) =~= users@);
    }
    while i < n
        invariant
            i <= n,
            n == users@.len(),
            spec_find_user(users@, id) == spec_find_user(users@.skip(i as int), id),
        decreases n - i,
    {
        proof {
            assert(users@.skip(i as int)[0] == users@[i as int]);
            assert(users@.skip(i as int).drop_first() =~= users@.skip(i as int + 1));
        }
        if users[i].id == id {
            return Option::Some(&users[i]);
        }
        i = i + 1;
    }
    proof {
        assert(users@.skip(n as int) =~= Seq::<User>::empty());
    }
    Option::None
}

/// The display name of a chat: for a direct chat whose peer user is
/// known, that user's display name (with the chat emoji in front); else
/// the trimmed title (with the emoji in front); else `Chat {id}`.
pub open spec fn spec_chat_display_name(chat: Chat, users: Seq<User>) -> Seq<char> {
    let emoji = match chat.emoji {
        Option::Some(e) => spec_trimmed(e@),
        Option::None => Seq::empty(),
    };
    let peer_user = match chat.peer_id {
        Option::Some(peer) => match peer.kind {
            Option::Some(crate::protocol::PeerKind::User(uid)) => spec_find_user(users, uid),
            _ => Option::None,
        },
        Option::None => Option::None,
    };
    match peer_user {
        Option::Some(user) => {
            let name = spec_user_display_name(user);
            if emoji.len() > 0 {
                emoji + " "@ + name
            } else {
                name
            }
        },
        Option::None => {
            let title = spec_trimmed(chat.title@);
            if title.len() > 0 {
                if emoji.len() > 0 {
                    emoji + " "@ + title
                } else {
                    title
                }
            } else {
                "Chat "@ + spec_dec_signed(chat.id as int)
            }
        },
    }
}

/// Resolves a chat's display name against the known users.
pub fn chat_display_name(chat: &Chat, users: &Vec<User>) -> (r: String)
    ensures
        r@ == spec_chat_display_name(*chat, users@),
{
    let emoji: &str = match &chat.emoji {
        Option::Some(e) => trimmed(e.as_str()),
        Option::None => "",
    };
    proof {
        reveal_strlit("");
        assert(""@ =~= Seq::<char>::empty());
    }
    let peer_user: Option<&User> = match &chat.peer_id {
        Option::Some(peer) => match &peer.kind {
            Option::Some(crate::protocol::PeerKind::User(uid)) => find_user(users, *uid),
            _ => Option::None,
        },
        Option::None => Option::None,
    };
    match peer_user {
        Option::Some(user) => {
            let name = user_display_name(user);
            if emoji.unicode_len() > 0 {
                let mut out = String::from_str(emoji);
                out.append(" ");
                out.append(name.as_str());
                out
            } else {
                name
            }
        }
        Option::None => {
            let title = trimmed(chat.title.as_str());
            if title.unicode_len() > 0 {
                if emoji.unicode_len() > 0 {
                    let mut out = String::from_str(emoji);
                    out.append(" ");
                    out.append(title);
                    out
                } else {
                    String::from_str(title)
                }
            } else {
                let mut out = String::from_str("Chat ");
                out.append(crate::strutil::i64_to_dec(chat.id).as_str());
                out
            }
        }
    }
}

/// A user matches a lowercase needle when any of the display name or the
/// profile fields contains it once lowered.
pub open spec fn spec_user_matches(user: UserSummary, needle: Seq<char>) -> bool {
    crate::strutil::contains_seq(crate::strutil::lower_of(user.display_name@), needle) || (
    match user.user.first_name {
        Option::Some(f) => crate::strutil::contains_seq(crate::strutil::lower_of(f@), needle),
        Option::None => false,
    }) || (match user.user.last_name {
        Option::Some(l) => crate::strutil::contains_seq(crate::strutil::lower_of(l@), needle),
        Option::None => false,
    }) || (match user.user.username {
        Option::Some(u) => crate::strutil::contains_seq(crate::strutil::lower_of(u@), needle),
        Option::None => false,
    }) || (match user.user.email {
        Option::Some(e) => crate::strutil::contains_seq(crate::strutil::lower_of(e@), needle),
        Option::None => false,
    }) || (match user.user.phone_number {
        Option::Some(p) => crate::strutil::contains_seq(crate::strutil::lower_of(p@), needle),
        Option::None => false,
    })
}

/// Whether a user matches a lowercase search needle.
pub fn user_matches_filter(user: &UserSummary, needle: &str) -> (r: bool)
    ensures
        r == spec_user_matches(*user, needle@),
{
    if crate::strutil::str_contains(
        crate::strutil::lowercase(user.display_name.as_str()).as_str(),
        needle,
    ) {
        return true;
    }
    match &user.user.first_name {
        Option::Some(f) => if crate::strutil::str_contains(
            crate::strutil::lowercase(f.as_str()).as_str(),
            needle,
        ) {
            return true;
        },
        Option::None => {}
    }
    match &user.user.last_name {
        Option::Some(l) => if crate::strutil::str_contains(
            crate::strutil::lowercase(l.as_str()).as_str(),
            needle,
        ) {
            return true;
        },
        Option::None => {}
    }
    match &user.user.username {
        Option::Some(u) => if crate::strutil::str_contains(
            crate::strutil::lowercase(u.as_str()).as_str(),
            needle,
        ) {
            return true;
        },
        Option::None => {}
    }
    match &user.user.email {
        Option::Some(e) => if crate::strutil::str_contains(
            crate::strutil::lowercase(e.as_str()).as_str(),
            needle,
        ) {
            return true;
        },
        Option::None => {}
    }
    match &user.user.phone_number {
        Option::Some(p) => if crate::strutil::str_contains(
            crate::strutil::lowercase(p.as_str()).as_str(),
            needle,
        ) {
            return true;
        },
        Option::None => {}
    }
    false
}

/// Keeps only the users matching the filter; a blank filter keeps
/// everyone.  The needle is the lowered, trimmed filter text.
pub fn filter_users_output(output: &mut UserListOutput, filter: Option<&str>)
    ensures
        match filter {
            Option::Some(f) => if spec_trimmed(f@).len() == 0 {
                final(output).users == old(output).users
            } else {
                final(output).users@ == old(output).users@.filter(
                    |u: UserSummary| spec_user_matches(
                        u,
                        crate::strutil::lower_of(spec_trimmed(f@)),
                    ),
                )
            },
            Option::None => final(output).users == old(output).users,
        },
{
    let trimmed_filter: &str = match filter {
        Option::Some(f) => trimmed(f),
        Option::None => {
            return ;
        }
    };
    if trimmed_filter.unicode_len() == 0 {
        return ;
    }
    let needle = crate::strutil::lowercase(trimmed_filter);
    let ghost original = old(output).users@;
    let ghost pred = |u: UserSummary| spec_user_matches(
        u,
        crate::strutil::lower_of(spec_trimmed(filter->0@)),
    );
    let mut i: usize = 0;
    let ghost mut k: int = 0;
    proof {
        reveal(Seq::filter);
        assert(original.subrange(0, 0) =~= Seq::<UserSummary>::empty());
        assert(original.subrange(0, 0).filter(pred) + original.skip(0) =~= original);
    }
    while i < output.users.len()
        invariant
            0 <= k <= original.len(),
            output.users@ == original.subrange(0, k).filter(pred) + original.skip(k),
            i == original.subrange(0, k).filter(pred).len(),
            output.users@.len() == i + original.len() - k,
            needle@ == crate::strutil::lower_of(spec_trimmed(filter->0@)),
            pred == (|u: UserSummary| spec_user_matches(
                u,
                crate::strutil::lower_of(spec_trimmed(filter->0@)),
            )),
        decreases original.len() - k,
    {
        proof {
            assert(output.users@[i as int] == original.skip(k)[0]);
            assert(original.skip(k)[0] == original[k]);
        }
        let keep = user_matches_filter(&output.users[i], needle.as_str());
        proof {
            reveal(Seq::filter);
            assert(original.subrange(0, k + 1).drop_last() =~= original.subrange(0, k));
            assert(original.subrange(0, k + 1).last() == original[k]);
        }
        if keep {
            proof {
                assert(original.subrange(0, k + 1).filter(pred) =~= original.subrange(
                    0,
                    k,
                ).filter(pred).push(original[k]));
                assert(original.subrange(0, k + 1).filter(pred) + original.skip(k + 1)
                    =~= original.subrange(0, k).filter(pred) + original.skip(k));
            }
            i = i + 1;
        } else {
            let ghost before = output.users@;
            output.users.remove(i);
            proof {
                assert(original.subrange(0, k + 1).filter(pred) =~= original.subrange(
                    0,
                    k,
                ).filter(pred));
                assert(before.remove(i as int) =~= original.subrange(0, k + 1).filter(pred)
                    + original.skip(k + 1));
            }
        }
        proof {
            k = k + 1;
        }
    }
    proof {
        assert(k == original.len());
        assert(original.subrange(0, original.len() as int) =~= original);
        assert(original.skip(original.len() as int) =~= Seq::<UserSummary>::empty());
        assert(output.users@ =~= original.filter(pred));
    }
}

/// The file-name portion of a path: everything after the last `/`;
/// nothing when the trimmed input, or that portion, is empty.
pub open spec fn spec_after_last_slash(t: Seq<char>, e: int) -> int
    decreases e,
{
    if 0 < e <= t.len() && t[e - 1] != '/' {
        spec_after_last_slash(t, e - 1)
    } else {
        e
    }
}

/// Strips directories from a file name, keeping what follows the last
/// slash of the trimmed input; nothing when that is empty.
pub fn sanitize_file_name(name: &str) -> (r: Option<String>)
    ensures
        match r {
            Option::Some(out) => {
                let t = spec_trimmed(name@);
                t.len() > 0 && out@ == t.subrange(spec_after_last_slash(t, t.len() as int), t.len() as int)
                    && out@.len() > 0
            },
            Option::None => {
                let t = spec_trimmed(name@);
                t.len() == 0 || spec_after_last_slash(t, t.len() as int) == t.len()
            },
        },
{
    let t = trimmed(name);
    let n = t.unicode_len();
    if n == 0 {
        return Option::None;
    }
    let mut start: usize = n;
    while start > 0 && t.get_char(start - 1) != '/'
        invariant
            start <= n,
            n == t@.len(),
            spec_after_last_slash(t@, n as int) == spec_after_last_slash(t@, start as int),
        decreases start,
    {
        start = start - 1;
    }
    if start == n {
        return Option::None;
    }
    Option::Some(String::from_str(t.substring_char(start, n)))
}

/// A field-for-field copy of an optional string value.
fn copy_opt_string(v: &Option<String>) -> (r: Option<String>)
    ensures
        r == *v,
{
    match v {
        Option::Some(st) => Option::Some(st.clone()),
        Option::None => Option::None,
    }
}

/// The media summary a message's media resolves to: a document, video or
/// photo card, a nudge marker, or nothing when the media (or its inner
/// record) is absent.
pub fn message_media_summary(message: &Message) -> (r: Option<MediaSummary>)
    ensures
        match message.media {
            Option::None => r is None,
            Option::Some(mm) => match mm.media {
                Option::None => r is None,
                Option::Some(MediaKind::Document(d)) => match d {
                    Option::Some(doc) => r matches Option::Some(ms) && ms.kind@ == "document"@
                        && (ms.file_name matches Option::Some(f) && f@ == doc.file_name@)
                        && (ms.mime_type matches Option::Some(t) && t@ == doc.mime_type@)
                        && ms.size == Option::Some(doc.size) && ms.duration is None && ms.width
                        is None && ms.height is None && ms.url == doc.cdn_url,
                    Option::None => r is None,
                },
                Option::Some(MediaKind::Video(v)) => match v {
                    Option::Some(video) => r matches Option::Some(ms) && ms.kind@ == "video"@
                        && ms.file_name is None && ms.mime_type is None && ms.size
                        == Option::Some(video.size) && ms.duration == Option::Some(
                        video.duration,
                    ) && ms.width == Option::Some(video.w) && ms.height == Option::Some(
                        video.h,
                    ) && ms.url == video.cdn_url,
                    Option::None => r is None,
                },
                Option::Some(MediaKind::Photo(p)) => match p {
                    Option::Some(_) => r matches Option::Some(ms) && ms.kind@ == "photo"@
                        && ms.file_name is None && ms.mime_type is None && ms.duration
                        is None,
                    Option::None => r is None,
                },
                Option::Some(MediaKind::Nudge) => r matches Option::Some(ms) && ms.kind@
                    == "nudge"@ && ms.file_name is None && ms.mime_type is None && ms.size
                    is None && ms.duration is None && ms.width is None && ms.height is None
                    && ms.url is None,
            },
        },
{
    let mm = match &message.media {
        Option::Some(mm) => mm,
        Option::None => {
            return Option::None;
        }
    };
    match &mm.media {
        Option::Some(MediaKind::Document(d)) => match d {
            Option::Some(doc) => Option::Some(
                MediaSummary {
                    kind: String::from_str("document"),
                    file_name: Option::Some(doc.file_name.clone()),
                    mime_type: Option::Some(doc.mime_type.clone()),
                    size: Option::Some(doc.size),
                    duration: Option::None,
                    width: Option::None,
                    height: Option::None,
                    url: copy_opt_string(&doc.cdn_url),
                },
            ),
            Option::None => Option::None,
        },
        Option::Some(MediaKind::Video(v)) => match v {
            Option::Some(video) => Option::Some(
                MediaSummary {
                    kind: String::from_str("video"),
                    file_name: Option::None,
                    mime_type: Option::None,
                    size: Option::Some(video.size),
                    duration: Option::Some(video.duration),
                    width: Option::Some(video.w),
                    height: Option::Some(video.h),
                    url: copy_opt_string(&video.cdn_url),
                },
            ),
            Option::None => Option::None,
        },
        Option::Some(MediaKind::Photo(p)) => match p {
            Option::Some(photo) => {
                let (url, size, width, height) = best_photo_size(photo);
                Option::Some(
                    MediaSummary {
                        kind: String::from_str("photo"),
                        file_name: Option::None,
                        mime_type: Option::None,
                        size,
                        duration: Option::None,
                        width,
                        height,
                        url,
                    },
                )
            }
            Option::None => Option::None,
        },
        Option::Some(MediaKind::Nudge) => Option::Some(
            MediaSummary {
                kind: String::from_str("nudge"),
                file_name: Option::None,
                mime_type: Option::None,
                size: Option::None,
                duration: Option::None,
                width: Option::None,
                height: Option::None,
                url: Option::None,
            },
        ),
        Option::None => Option::None,
    }
}

/// One attachment summary per recognized attachment, in order.
pub fn message_attachment_summaries(message: &Message) -> (r: Vec<AttachmentSummary>)
    ensures
        message.attachments is None ==> r@.len() == 0,
        match message.attachments {
            Option::Some(atts) => r@.len() <= atts.attachments@.len() && forall|j: int|
                0 <= j < r@.len() ==> ((#[trigger] r@[j]).kind@ == "url_preview"@ || r@[j].kind@
                    == "external_task"@),
            Option::None => true,
        },
{
    let mut items: Vec<AttachmentSummary> = Vec::new();
    let atts = match &message.attachments {
        Option::Some(atts) => atts,
        Option::None => {
            return items;
        }
    };
    let n = atts.attachments.len();
    let mut i: usize = 0;
    while i < n
        invariant
            i <= n,
            n == atts.attachments@.len(),
            items@.len() <= i,
            forall|j: int|
                0 <= j < items@.len() ==> ((#[trigger] items@[j]).kind@ == "url_preview"@
                    || items@[j].kind@ == "external_task"@),
        decreases n - i,
    {
        match &atts.attachments[i].attachment {
            Option::Some(AttachmentKind::UrlPreview(preview)) => {
                items.push(
                    AttachmentSummary {
                        kind: String::from_str("url_preview"),
                        title: copy_opt_string(&preview.title),
                        url: copy_opt_string(&preview.url),
                        site_name: copy_opt_string(&preview.site_name),
                        application: Option::None,
                        status: Option::None,
                        number: Option::None,
                        assigned_user_id: Option::None,
                    },
                );
            }
            Option::Some(AttachmentKind::ExternalTask(task)) => {
                items.push(
                    AttachmentSummary {
                        kind: String::from_str("external_task"),
                        title: Option::Some(task.title.clone()),
                        url: Option::Some(task.url.clone()),
                        site_name: Option::None,
                        application: Option::Some(task.application.clone()),
                        status: Option::Some(format_external_status(task.status)),
                        number: Option::Some(task.number.clone()),
                        assigned_user_id: Option::Some(task.assigned_user_id),
                    },
                );
            }
            Option::None => {}
        }
        i = i + 1;
    }
    items
}

/// The inline preview of a media card.
pub open spec fn spec_media_preview(media: MediaSummary) -> Seq<char> {
    if media.kind@ == "document"@ {
        "[file"@ + (match media.file_name {
            Option::Some(name) => ": "@ + name@,
            Option::None => Seq::empty(),
        }) + (match media.mime_type {
            Option::Some(mime) => " "@ + mime@,
            Option::None => Seq::empty(),
        }) + (match media.size {
            Option::Some(size) => " "@ + spec_format_bytes(size as int),
            Option::None => Seq::empty(),
        }) + "]"@
    } else if media.kind@ == "video"@ {
        "[video"@ + (match media.duration {
            Option::Some(duration) => " "@ + spec_dec_signed(duration as int) + "s"@,
            Option::None => Seq::empty(),
        }) + (match media.size {
            Option::Some(size) => " "@ + spec_format_bytes(size as int),
            Option::None => Seq::empty(),
        }) + "]"@
    } else if media.kind@ == "photo"@ {
        "[photo]"@
    } else {
        "[media]"@
    }
}

/// Renders the inline preview of a media card.
pub fn media_preview(media: &MediaSummary) -> (r: String)
    ensures
        r@ == spec_media_preview(*media),
{
    if crate::strutil::str_eq(media.kind.as_str(), "document") {
        let mut out = String::from_str("[file");
        match &media.file_name {
            Option::Some(name) => {
                out.append(": ");
                out.append(name.as_str());
            }
            Option::None => {}
        }
        match &media.mime_type {
            Option::Some(mime) => {
                out.append(" ");
                out.append(mime.as_str());
            }
            Option::None => {}
        }
        match media.size {
            Option::Some(size) => {
                out.append(" ");
                out.append(format_bytes(size as i64).as_str());
            }
            Option::None => {}
        }
        out.append("]");
        proof {
            assert(out@ =~= spec_media_preview(*media));
        }
        out
    } else if crate::strutil::str_eq(media.kind.as_str(), "video") {
        let mut out = String::from_str("[video");
        match media.duration {
            Option::Some(duration) => {
                out.append(" ");
                out.append(i64_to_dec(duration as i64).as_str());
                out.append("s");
            }
            Option::None => {}
        }
        match media.size {
            Option::Some(size) => {
                out.append(" ");
                out.append(format_bytes(size as i64).as_str());
            }
            Option::None => {}
        }
        out.append("]");
        proof {
            assert(out@ =~= spec_media_preview(*media));
        }
        out
    } else if crate::strutil::str_eq(media.kind.as_str(), "photo") {
        String::from_str("[photo]")
    } else {
        String::from_str("[media]")
    }
}

/// The inline preview of an attachment.
pub open spec fn spec_attachment_preview(attachment: AttachmentSummary) -> Seq<char> {
    if attachment.kind@ == "url_preview"@ {
        match attachment.title {
            Option::Some(title) => "[link: "@ + title@ + "]"@,
            Option::None => match attachment.site_name {
                Option::Some(site) => "[link: "@ + site@ + "]"@,
                Option::None => match attachment.url {
                    Option::Some(url) => "[link: "@ + url@ + "]"@,
                    Option::None => "[link]"@,
                },
            },
        }
    } else if attachment.kind@ == "external_task"@ {
        "[task"@ + (match attachment.application {
            Option::Some(app) => " "@ + app@,
            Option::None => Seq::empty(),
        }) + (match attachment.title {
            Option::Some(title) => ": "@ + title@,
            Option::None => Seq::empty(),
        }) + "]"@
    } else {
        "[attachment]"@
    }
}

/// Renders the inline preview of an attachment.
pub fn attachment_preview(attachment: &AttachmentSummary) -> (r: String)
    ensures
        r@ == spec_attachment_preview(*attachment),
{
    if crate::strutil::str_eq(attachment.kind.as_str(), "url_preview") {
        let inner: Option<&String> = match &attachment.title {
            Option::Some(title) => Option::Some(title),
            Option::None => match &attachment.site_name {
                Option::Some(site) => Option::Some(site),
                Option::None => match &attachment.url {
                    Option::Some(url) => Option::Some(url),
                    Option::None => Option::None,
                },
            },
        };
        match inner {
            Option::Some(text) => {
                let mut out = String::from_str("[link: ");
                out.append(text.as_str());
                out.append("]");
                proof {
                    assert(out@ =~= spec_attachment_preview(*attachment));
                }
                out
            }
            Option::None => String::from_str("[link]"),
        }
    } else if crate::strutil::str_eq(attachment.kind.as_str(), "external_task") {
        let mut out = String::from_str("[task");
        match &attachment.application {
            Option::Some(app) => {
                out.append(" ");
                out.append(app.as_str());
            }
            Option::None => {}
        }
        match &attachment.title {
            Option::Some(title) => {
                out.append(": ");
                out.append(title.as_str());
            }
            Option::None => {}
        }
        out.append("]");
        proof {
            assert(out@ =~= spec_attachment_preview(*attachment));
        }
        out
    } else {
        String::from_str("[attachment]")
    }
}

/// Parts joined by single spaces.
pub open spec fn spec_join_spaced(parts: Seq<Seq<char>>) -> Seq<char>
    decreases parts.len(),
{
    if parts.len() == 0 {
        Seq::empty()
    } else if parts.len() == 1 {
        parts[0]
    } else {
        spec_join_spaced(parts.drop_last()) + " "@ + parts.last()
    }
}

/// Joins rendered parts with single spaces.
pub fn join_spaced(parts: &Vec<String>) -> (r: String)
    ensures
        r@ == spec_join_spaced(parts@.map_values(|p: String| p@)),
{
    let n = parts.len();
    if n == 0 {
        proof {
            assert(parts@.map_values(|p: String| p@).len() == 0);
        }
        return String::new();
    }
    let mut out = String::from_str(parts[0].as_str());
    let mut i: usize = 1;
    proof {
        reveal_strlit(" ");
        assert(parts@.map_values(|p: String| p@).subrange(0, 1) =~= seq![parts@[0]@]);
        assert(out@ == spec_join_spaced(parts@.map_values(|p: String| p@).subrange(0, 1)));
    }
    while i < n
        invariant
            1 <= i <= n,
            n == parts@.len(),
            out@ == spec_join_spaced(parts@.map_values(|p: String| p@).subrange(0, i as int)),
        decreases n - i,
    {
        out.append(" ");
        out.append(parts[i].as_str());
        proof {
            reveal_strlit(" ");
            let mapped = parts@.map_values(|p: String| p@);
            assert(mapped.subrange(0, i as int + 1).drop_last() =~= mapped.subrange(
                0,
                i as int,
            ));
            assert(mapped.subrange(0, i as int + 1).last() == parts@[i as int]@);
            assert(out@ =~= spec_join_spaced(mapped.subrange(0, i as int + 1)));
        }
        i = i + 1;
    }
    proof {
        assert(parts@.map_values(|p: String| p@).subrange(0, n as int) =~= parts@.map_values(
            |p: String| p@,
        ));
    }
    out
}

/// The preview parts of a message: its collapsed text; a differing
/// translation, labelled with its language; the media card; one part per
/// attachment.
pub open spec fn spec_preview_parts(
    text: Option<String>,
    translation: Option<MessageTranslation>,
    media: Option<MediaSummary>,
    attachments: Seq<AttachmentSummary>,
) -> Seq<Seq<char>> {
    let collapsed = match text {
        Option::Some(t) => crate::messages::spec_collapse_ws(t@, 0, true),
        Option::None => Seq::empty(),
    };
    let text_parts: Seq<Seq<char>> = if collapsed.len() > 0 {
        seq![collapsed]
    } else {
        Seq::empty()
    };
    let translated_parts: Seq<Seq<char>> = match translation {
        Option::Some(tr) => {
            let collapsed_tr = crate::messages::spec_collapse_ws(tr.translation@, 0, true);
            if collapsed_tr.len() > 0 && !(collapsed.len() > 0 && collapsed == collapsed_tr) {
                seq!["tr("@ + tr.language@ + "): "@ + collapsed_tr]
            } else {
                Seq::empty()
            }
        },
        Option::None => Seq::empty(),
    };
    let media_parts: Seq<Seq<char>> = match media {
        Option::Some(ms) => seq![spec_media_preview(ms)],
        Option::None => Seq::empty(),
    };
    text_parts + translated_parts + media_parts + attachments.map_values(
        |a: AttachmentSummary| spec_attachment_preview(a),
    )
}

/// The preview line of a message: its parts joined by spaces, or a
/// placeholder when nothing is showable.
pub open spec fn spec_message_preview(
    text: Option<String>,
    translation: Option<MessageTranslation>,
    media: Option<MediaSummary>,
    attachments: Seq<AttachmentSummary>,
) -> Seq<char> {
    let parts = spec_preview_parts(text, translation, media, attachments);
    if parts.len() == 0 {
        "<non-text>"@
    } else {
        spec_join_spaced(parts)
    }
}

/// Renders a message's preview line.
pub fn message_preview(
    message: &Message,
    media: &Option<MediaSummary>,
    attachments: &Vec<AttachmentSummary>,
    translation: &Option<MessageTranslation>,
) -> (r: String)
    ensures
        r@ == spec_message_preview(message.message, *translation, *media, attachments@),
{
    let ghost collapsed_text: Seq<char> = match &message.message {
        Option::Some(t) => crate::messages::spec_collapse_ws(t@, 0, true),
        Option::None => Seq::empty(),
    };
    let ghost text_parts: Seq<Seq<char>> = if collapsed_text.len() > 0 {
        seq![collapsed_text]
    } else {
        Seq::empty()
    };
    let mut parts: Vec<String> = Vec::new();
    match &message.message {
        Option::Some(text) => {
            let collapsed = crate::messages::normalize_preview_text(text.as_str());
            if collapsed.as_str().unicode_len() > 0 {
                parts.push(collapsed);
            }
        }
        Option::None => {}
    }
    proof {
        assert(parts@.map_values(|p: String| p@) =~= text_parts);
    }
    let ghost tr_parts: Seq<Seq<char>> = match translation {
        Option::Some(tr) => {
            let collapsed_tr = crate::messages::spec_collapse_ws(tr.translation@, 0, true);
            if collapsed_tr.len() > 0 && !(collapsed_text.len() > 0 && collapsed_text
                == collapsed_tr) {
                seq!["tr("@ + tr.language@ + "): "@ + collapsed_tr]
            } else {
                Seq::empty()
            }
        },
        Option::None => Seq::empty(),
    };
    match translation {
        Option::Some(tr) => {
            let collapsed_tr = crate::messages::normalize_preview_text(tr.translation.as_str());
            let text_equal = match &message.message {
                Option::Some(text) => {
                    let collapsed_again = crate::messages::normalize_preview_text(
                        text.as_str(),
                    );
                    collapsed_again.as_str().unicode_len() > 0 && crate::strutil::str_eq(
                        collapsed_again.as_str(),
                        collapsed_tr.as_str(),
                    )
                }
                Option::None => false,
            };
            if collapsed_tr.as_str().unicode_len() > 0 && !text_equal {
                let mut labelled = String::from_str("tr(");
                labelled.append(tr.language.as_str());
                labelled.append("): ");
                labelled.append(collapsed_tr.as_str());
                let ghost before = parts@;
                parts.push(labelled);
                proof {
                    assert(labelled@ =~= "tr("@ + tr.language@ + "): "@
                        + crate::messages::spec_collapse_ws(tr.translation@, 0, true));
                    assert(parts@.map_values(|p: String| p@) =~= before.map_values(
                        |p: String| p@,
                    ) + tr_parts);
                }
            }
        }
        Option::None => {}
    }
    proof {
        assert(parts@.map_values(|p: String| p@) =~= text_parts + tr_parts);
    }
    let ghost media_parts: Seq<Seq<char>> = match media {
        Option::Some(ms) => seq![spec_media_preview(*ms)],
        Option::None => Seq::empty(),
    };
    match media {
        Option::Some(ms) => {
            let ghost before = parts@;
            parts.push(media_preview(ms));
            proof {
                assert(parts@.map_values(|p: String| p@) =~= before.map_values(
                    |p: String| p@,
                ) + media_parts);
            }
        }
        Option::None => {}
    }
    let ghost head_parts = text_parts + tr_parts + media_parts;
    proof {
        assert(parts@.map_values(|p: String| p@) =~= head_parts);
    }
    let n = attachments.len();
    let mut i: usize = 0;
    while i < n
        invariant
            i <= n,
            n == attachments@.len(),
            parts@.map_values(|p: String| p@) =~= head_parts + attachments@.subrange(
                0,
                i as int,
            ).map_values(|a: AttachmentSummary| spec_attachment_preview(a)),
        decreases n - i,
    {
        let ghost before = parts@;
        parts.push(attachment_preview(&attachments[i]));
        proof {
            assert(parts@.map_values(|p: String| p@) =~= before.map_values(|p: String| p@)
                + seq![spec_attachment_preview(attachments@[i as int])]);
            assert(attachments@.subrange(0, i as int + 1).map_values(
                |a: AttachmentSummary| spec_attachment_preview(a),
            ) =~= attachments@.subrange(0, i as int).map_values(
                |a: AttachmentSummary| spec_attachment_preview(a),
            ) + seq![spec_attachment_preview(attachments@[i as int])]);
        }
        i = i + 1;
    }
    proof {
        assert(attachments@.subrange(0, n as int) =~= attachments@);
        assert(parts@.map_values(|p: String| p@) =~= spec_preview_parts(
            message.message,
            *translation,
            *media,
            attachments@,
        ));
    }
    if parts.len() == 0 {
        proof {
            assert(spec_preview_parts(
                message.message,
                *translation,
                *media,
                attachments@,
            ).len() == 0);
        }
        return String::from_str("<non-text>");
    }
    join_spaced(&parts)
}

/// The first translation for the given message id.
pub open spec fn spec_find_translation(
    translations: Seq<MessageTranslation>,
    id: i64,
) -> Option<MessageTranslation>
    decreases translations.len(),
{
    if translations.len() == 0 {
        Option::None
    } else if translations[0].message_id == id {
        Option::Some(translations[0])
    } else {
        spec_find_translation(translations.drop_first(), id)
    }
}

/// Finds and copies the first translation for a message id.
pub fn find_translation(translations: &Vec<MessageTranslation>, id: i64) -> (r: Option<
    MessageTranslation,
>)
    ensures
        r == spec_find_translation(translations@, id),
{
    let n = translations.len();
    let mut i: usize = 0;
    proof {
        assert(translations@.skip(0) =~= translations@);
    }
    while i < n
        invariant
            i <= n,
            n == translations@.len(),
            spec_find_translation(translations@, id) == spec_find_translation(
                translations@.skip(i as int),
                id,
            ),
        decreases n - i,
    {
        proof {
            assert(translations@.skip(i as int)[0] == translations@[i as int]);
            assert(translations@.skip(i as int).drop_first() =~= translations@.skip(
                i as int + 1,
            ));
        }
        let t = &translations[i];
        if t.message_id == id {
            return Option::Some(
                MessageTranslation {
                    message_id: t.message_id,
                    translation: t.translation.clone(),
                    language: t.language.clone(),
                },
            );
        }
        i = i + 1;
    }
    proof {
        assert(translations@.skip(n as int) =~= Seq::<MessageTranslation>::empty());
    }
    Option::None
}

/// The sender line of a message: `You` for own messages, the sender's
/// display name when known, `user {id}` otherwise.
pub open spec fn spec_sender_name(
    message: Message,
    users: Seq<User>,
    current_user_id: Option<i64>,
) -> Seq<char> {
    if message.out || current_user_id == Option::Some(message.from_id) {
        "You"@
    } else {
        match spec_find_user(users, message.from_id) {
            Option::Some(user) => spec_user_display_name(user),
            Option::None => "user "@ + spec_dec_signed(message.from_id as int),
        }
    }
}

/// Builds the full summary of one message: preview, translation, sender,
/// relative date, media and attachments.  The message itself is taken
/// over into the summary.
pub fn message_summary(
    message: Message,
    users: &Vec<User>,
    current_user_id: Option<i64>,
    now: i64,
    translations: &Vec<MessageTranslation>,
) -> (r: MessageSummary)
    ensures
        r.message == message,
        r.translation == spec_find_translation(translations@, message.id),
        r.sender_name@ == spec_sender_name(message, users@, current_user_id),
        r.relative_date@ == spec_relative_date(message.date as int, now as int),
        r.preview@ == spec_message_preview(
            message.message,
            r.translation,
            r.media,
            r.attachments@,
        ),
        match spec_find_user(users@, message.from_id) {
            Option::Some(u) => r.sender matches Option::Some(s) && s.display_name@
                == spec_user_display_name(u) && s.user == u,
            Option::None => r.sender is None,
        },
{
    let media = message_media_summary(&message);
    let attachments = message_attachment_summaries(&message);
    let translation = find_translation(translations, message.id);
    let preview = message_preview(&message, &media, &attachments, &translation);
    let sender = match find_user(users, message.from_id) {
        Option::Some(user) => Option::Some(user_summary(user)),
        Option::None => Option::None,
    };
    let sender_name: String = if message.out || (match current_user_id {
        Option::Some(id) => id == message.from_id,
        Option::None => false,
    }) {
        String::from_str("You")
    } else {
        match &sender {
            Option::Some(s) => s.display_name.clone(),
            Option::None => {
                let mut out = String::from_str("user ");
                out.append(i64_to_dec(message.from_id).as_str());
                out
            }
        }
    };
    let relative_date = format_relative_date(message.date, now);
    MessageSummary {
        message,
        preview,
        translation,
        sender,
        sender_name,
        relative_date,
        media,
        attachments,
    }
}

/// The download file name a media envelope suggests: the document's
/// sanitized name; `video-{id}.mp4` for a video; `photo-{id}.{ext}` for a
/// photo (extension by format); nothing otherwise.
pub fn media_file_name(media: &MessageMedia) -> (r: Option<String>)
    ensures
        match media.media {
            Option::Some(MediaKind::Video(v)) => match v {
                Option::Some(video) => r matches Option::Some(name) && name@ == "video-"@
                    + spec_dec_signed(video.id as int) + ".mp4"@,
                Option::None => r is None,
            },
            Option::Some(MediaKind::Photo(p)) => match p {
                Option::Some(photo) => r matches Option::Some(name) && name@ == "photo-"@
                    + spec_dec_signed(photo.id as int) + "."@ + (
                if photo.format is Png {
                    "png"@
                } else {
                    "jpg"@
                }),
                Option::None => r is None,
            },
            Option::Some(MediaKind::Nudge) => r is None,
            Option::None => r is None,
            Option::Some(MediaKind::Document(_)) => true,
        },
{
    match &media.media {
        Option::Some(MediaKind::Document(d)) => match d {
            Option::Some(doc) => sanitize_file_name(doc.file_name.as_str()),
            Option::None => Option::None,
        },
        Option::Some(MediaKind::Video(v)) => match v {
            Option::Some(video) => {
                let mut out = String::from_str("video-");
                out.append(i64_to_dec(video.id).as_str());
                out.append(".mp4");
                Option::Some(out)
            }
            Option::None => Option::None,
        },
        Option::Some(MediaKind::Photo(p)) => match p {
            Option::Some(photo) => {
                let mut out = String::from_str("photo-");
                out.append(i64_to_dec(photo.id).as_str());
                out.append(".");
                match photo.format {
                    crate::protocol::PhotoFormat::Png => {
                        out.append("png");
                    }
                    _ => {
                        out.append("jpg");
                    }
                }
                Option::Some(out)
            }
            Option::None => Option::None,
        },
        Option::Some(MediaKind::Nudge) => Option::None,
        Option::None => Option::None,
    }
}

/// The detail line of a media card: the kind, then each present field.
pub open spec fn spec_media_detail(media: MediaSummary) -> Seq<char> {
    media.kind@ + (match &media.file_name {
        Option::Some(name) => " name="@ + name@,
        Option::None => Seq::empty(),
    }) + (match &media.mime_type {
        Option::Some(mime) => " type="@ + mime@,
        Option::None => Seq::empty(),
    }) + (match media.size {
        Option::Some(size) => " size="@ + spec_format_bytes(size as int),
        Option::None => Seq::empty(),
    }) + (match media.duration {
        Option::Some(duration) => " duration="@ + spec_dec_signed(duration as int) + "s"@,
        Option::None => Seq::empty(),
    }) + (if media.width is Some && media.height is Some {
        " "@ + spec_dec_signed(media.width->0 as int) + "x"@ + spec_dec_signed(
            media.height->0 as int,
        )
    } else {
        Seq::empty()
    }) + (match media.url {
        Option::Some(url) => " url="@ + url@,
        Option::None => Seq::empty(),
    })
}

/// The first half of a media card's detail line: kind, name, type, size.
pub open spec fn spec_media_detail_head(media: MediaSummary) -> Seq<char> {
    media.kind@ + (match media.file_name {
        Option::Some(name) => " name="@ + name@,
        Option::None => Seq::empty(),
    }) + (match media.mime_type {
        Option::Some(mime) => " type="@ + mime@,
        Option::None => Seq::empty(),
    }) + (match media.size {
        Option::Some(size) => " size="@ + spec_format_bytes(size as int),
        Option::None => Seq::empty(),
    })
}

fn media_detail_head(media: &MediaSummary) -> (r: String)
    ensures
        r@ == spec_media_detail_head(*media),
{
    let mut out = String::from_str(media.kind.as_str());
    match &media.file_name {
        Option::Some(name) => {
            out.append(" name=");
            out.append(name.as_str());
        }
        Option::None => {}
    }
    let ghost acc1 = media.kind@ + (match &media.file_name {
        Option::Some(name) => " name="@ + name@,
        Option::None => Seq::<char>::empty(),
    });
    proof {
        assert(out@ =~= acc1);
    }
    match &media.mime_type {
        Option::Some(mime) => {
            out.append(" type=");
            out.append(mime.as_str());
        }
        Option::None => {}
    }
    let ghost acc2 = acc1 + (match &media.mime_type {
        Option::Some(mime) => " type="@ + mime@,
        Option::None => Seq::<char>::empty(),
    });
    proof {
        assert(out@ =~= acc2);
    }
    match media.size {
        Option::Some(size) => {
            out.append(" size=");
            out.append(format_bytes(size as i64).as_str());
        }
        Option::None => {}
    }
    proof {
        assert(out@ =~= spec_media_detail_head(*media));
    }
    out
}

/// Renders the detail line of a media card.
#[verifier::rlimit(100)]
pub fn format_media_detail(media: &MediaSummary) -> (r: String)
    ensures
        r@ == spec_media_detail(*media),
{
    let mut out = media_detail_head(media);
    match media.duration {
        Option::Some(duration) => {
            out.append(" duration=");
            out.append(i64_to_dec(duration as i64).as_str());
            out.append("s");
        }
        Option::None => {}
    }
    let ghost acc4 = spec_media_detail_head(*media) + (match media.duration {
        Option::Some(duration) => " duration="@ + spec_dec_signed(duration as int) + "s"@,
        Option::None => Seq::<char>::empty(),
    });
    proof {
        assert(out@ =~= acc4);
    }
    let has_dims = media.width.is_some() && media.height.is_some();
    if has_dims {
        let w = match media.width {
            Option::Some(w) => w,
            Option::None => 0,
        };
        let h = match media.height {
            Option::Some(h) => h,
            Option::None => 0,
        };
        out.append(" ");
        out.append(i64_to_dec(w as i64).as_str());
        out.append("x");
        out.append(i64_to_dec(h as i64).as_str());
    }
    let ghost acc5 = acc4 + (if media.width is Some && media.height is Some {
        " "@ + spec_dec_signed(media.width->0 as int) + "x"@ + spec_dec_signed(
            media.height->0 as int,
        )
    } else {
        Seq::<char>::empty()
    });
    proof {
        assert(out@ =~= acc5);
    }
    match &media.url {
        Option::Some(url) => {
            out.append(" url=");
            out.append(url.as_str());
        }
        Option::None => {}
    }
    proof {
        assert(out@ =~= acc5 + (match media.url {
            Option::Some(url) => " url="@ + url@,
            Option::None => Seq::<char>::empty(),
        }));
        assert(out@ =~= spec_media_detail(*media));
    }
    out
}

/// The detail line of an attachment: the kind, then each present field.
pub open spec fn spec_attachment_detail(attachment: AttachmentSummary) -> Seq<char> {
    attachment.kind@ + (match &attachment.title {
        Option::Some(title) => " title="@ + title@,
        Option::None => Seq::empty(),
    }) + (match &attachment.url {
        Option::Some(url) => " url="@ + url@,
        Option::None => Seq::empty(),
    }) + (match &attachment.site_name {
        Option::Some(site) => " site="@ + site@,
        Option::None => Seq::empty(),
    }) + (match &attachment.application {
        Option::Some(app) => " app="@ + app@,
        Option::None => Seq::empty(),
    }) + (match &attachment.status {
        Option::Some(status) => " status="@ + status@,
        Option::None => Seq::empty(),
    }) + (match &attachment.number {
        Option::Some(number) => " number="@ + number@,
        Option::None => Seq::empty(),
    }) + (match attachment.assigned_user_id {
        Option::Some(id) => " assignedUserId="@ + spec_dec_signed(id as int),
        Option::None => Seq::empty(),
    })
}

/// The first half of an attachment's detail line: kind, title, url,
/// site.
pub open spec fn spec_attachment_detail_head(attachment: AttachmentSummary) -> Seq<char> {
    attachment.kind@ + (match attachment.title {
        Option::Some(title) => " title="@ + title@,
        Option::None => Seq::empty(),
    }) + (match attachment.url {
        Option::Some(url) => " url="@ + url@,
        Option::None => Seq::empty(),
    }) + (match attachment.site_name {
        Option::Some(site) => " site="@ + site@,
        Option::None => Seq::empty(),
    })
}

fn attachment_detail_head(attachment: &AttachmentSummary) -> (r: String)
    ensures
        r@ == spec_attachment_detail_head(*attachment),
{
    let mut out = String::from_str(attachment.kind.as_str());
    match &attachment.title {
        Option::Some(title) => {
            out.append(" title=");
            out.append(title.as_str());
        }
        Option::None => {}
    }
    let ghost acc1 = attachment.kind@ + (match &attachment.title {
        Option::Some(title) => " title="@ + title@,
        Option::None => Seq::<char>::empty(),
    });
    proof {
        assert(out@ =~= acc1);
    }
    match &attachment.url {
        Option::Some(url) => {
            out.append(" url=");
            out.append(url.as_str());
        }
        Option::None => {}
    }
    let ghost acc2 = acc1 + (match &attachment.url {
        Option::Some(url) => " url="@ + url@,
        Option::None => Seq::<char>::empty(),
    });
    proof {
        assert(out@ =~= acc2);
    }
    match &attachment.site_name {
        Option::Some(site) => {
            out.append(" site=");
            out.append(site.as_str());
        }
        Option::None => {}
    }
    proof {
        assert(out@ =~= spec_attachment_detail_head(*attachment));
    }
    out
}

/// Renders the detail line of an attachment.
#[verifier::rlimit(100)]
pub fn format_attachment_detail(attachment: &AttachmentSummary) -> (r: String)
    ensures
        r@ == spec_attachment_detail(*attachment),
{
    let mut out = attachment_detail_head(attachment);
    match &attachment.application {
        Option::Some(app) => {
            out.append(" app=");
            out.append(app.as_str());
        }
        Option::None => {}
    }
    let ghost acc4 = spec_attachment_detail_head(*attachment) + (match &attachment.application {
        Option::Some(app) => " app="@ + app@,
        Option::None => Seq::<char>::empty(),
    });
    proof {
        assert(out@ =~= acc4);
    }
    match &attachment.status {
        Option::Some(status) => {
            out.append(" status=");
            out.append(status.as_str());
        }
        Option::None => {}
    }
    let ghost acc5 = acc4 + (match &attachment.status {
        Option::Some(status) => " status="@ + status@,
        Option::None => Seq::<char>::empty(),
    });
    proof {
        assert(out@ =~= acc5);
    }
    match &attachment.number {
        Option::Some(number) => {
            out.append(" number=");
            out.append(number.as_str());
        }
        Option::None => {}
    }
    let ghost acc6 = acc5 + (match &attachment.number {
        Option::Some(number) => " number="@ + number@,
        Option::None => Seq::<char>::empty(),
    });
    proof {
        assert(out@ =~= acc6);
    }
    match attachment.assigned_user_id {
        Option::Some(id) => {
            out.append(" assignedUserId=");
            out.append(i64_to_dec(id).as_str());
        }
        Option::None => {}
    }
    proof {
        assert(out@ =~= acc6 + (match attachment.assigned_user_id {
            Option::Some(id) => " assignedUserId="@ + spec_dec_signed(id as int),
            Option::None => Seq::<char>::empty(),
        }));
        assert(out@ =~= spec_attachment_detail(*attachment));
    }
    out
}

/// One summary per user of the chat-list payload, in order.
pub fn build_user_list(result: &crate::protocol::GetChatsResult) -> (r: UserListOutput)
    ensures
        r.users@.len() == result.users@.len(),
        forall|i: int|
            0 <= i < r.users@.len() ==> (#[trigger] r.users@[i]).user == result.users@[i]
                && r.users@[i].display_name@ == spec_user_display_name(result.users@[i]),
{
    let n = result.users.len();
    let mut users: Vec<UserSummary> = Vec::new();
    let mut i: usize = 0;
    while i < n
        invariant
            i <= n,
            n == result.users@.len(),
            users@.len() == i,
            forall|j: int|
                0 <= j < i ==> (#[trigger] users@[j]).user == result.users@[j]
                    && users@[j].display_name@ == spec_user_display_name(result.users@[j]),
        decreases n - i,
    {
        users.push(user_summary(&result.users[i]));
        i = i + 1;
    }
    UserListOutput { users }
}

/// One summary per space of the chat-list payload, in order.
pub fn build_space_list(result: &crate::protocol::GetChatsResult) -> (r: SpaceListOutput)
    ensures
        r.spaces@.len() == result.spaces@.len(),
        forall|i: int|
            0 <= i < r.spaces@.len() ==> (#[trigger] r.spaces@[i]).space == result.spaces@[i]
                && r.spaces@[i].display_name@ == result.spaces@[i].name@,
{
    let n = result.spaces.len();
    let mut spaces: Vec<SpaceSummary> = Vec::new();
    let mut i: usize = 0;
    while i < n
        invariant
            i <= n,
            n == result.spaces@.len(),
            spaces@.len() == i,
            forall|j: int|
                0 <= j < i ==> (#[trigger] spaces@[j]).space == result.spaces@[j]
                    && spaces@[j].display_name@ == result.spaces@[j].name@,
        decreases n - i,
    {
        spaces.push(space_summary(&result.spaces[i]));
        i = i + 1;
    }
    SpaceListOutput { spaces }
}

/// One full summary per message, in order, against the known users and
/// translations; the messages are taken over into the summaries.
pub fn build_message_list_from_messages(
    messages: Vec<Message>,
    users: &Vec<User>,
    current_user_id: Option<i64>,
    now: i64,
    peer: Option<PeerSummary>,
    peer_name: Option<String>,
    translations: &Vec<MessageTranslation>,
) -> (r: MessageListOutput)
    ensures
        r.items@.len() == messages@.len(),
        forall|i: int|
            0 <= i < r.items@.len() ==> {
                let item = #[trigger] r.items@[i];
                item.message == messages@[i] && item.sender_name@ == spec_sender_name(
                    messages@[i],
                    users@,
                    current_user_id,
                ) && item.relative_date@ == spec_relative_date(
                    messages@[i].date as int,
                    now as int,
                ) && item.translation == spec_find_translation(
                    translations@,
                    messages@[i].id,
                ) && item.preview@ == spec_message_preview(
                    messages@[i].message,
                    item.translation,
                    item.media,
                    item.attachments@,
                )
            },
        r.peer == peer,
        r.peer_name == peer_name,
{
    let ghost original = messages@;
    let mut remaining = messages;
    let mut items: Vec<MessageSummary> = Vec::new();
    let mut k: usize = 0;
    let n = remaining.len();
    while k < n
        invariant
            k <= n,
            n == original.len(),
            remaining@ =~= original.skip(k as int),
            items@.len() == k,
            forall|j: int|
                0 <= j < k ==> {
                    let item = #[trigger] items@[j];
                    item.message == original[j] && item.sender_name@ == spec_sender_name(
                        original[j],
                        users@,
                        current_user_id,
                    ) && item.relative_date@ == spec_relative_date(
                        original[j].date as int,
                        now as int,
                    ) && item.translation == spec_find_translation(
                        translations@,
                        original[j].id,
                    ) && item.preview@ == spec_message_preview(
                        original[j].message,
                        item.translation,
                        item.media,
                        item.attachments@,
                    )
                },
        decreases n - k,
    {
        proof {
            assert(remaining@[0] == original[k as int]);
        }
        let message = remaining.remove(0);
        let summary = message_summary(message, users, current_user_id, now, translations);
        items.push(summary);
        k = k + 1;
    }
    MessageListOutput { items, peer, peer_name }
}

/// One full summary per message of a history payload.
pub fn build_message_list(
    result: crate::protocol::GetChatHistoryResult,
    users: &Vec<User>,
    current_user_id: Option<i64>,
    now: i64,
    peer: Option<PeerSummary>,
    peer_name: Option<String>,
    translations: &Vec<MessageTranslation>,
) -> (r: MessageListOutput)
    ensures
        r.items@.len() == result.messages@.len(),
        forall|i: int|
            0 <= i < r.items@.len() ==> (#[trigger] r.items@[i]).message
                == result.messages@[i],
        r.peer == peer,
        r.peer_name == peer_name,
{
    build_message_list_from_messages(
        result.messages,
        users,
        current_user_id,
        now,
        peer,
        peer_name,
        translations,
    )
}

/// The download path for a message's media: the explicit output path when
/// given; otherwise the media's file name (or `message-{id}.bin`) under
/// the chosen directory (or the working directory).
pub fn resolve_download_path(
    message: &Message,
    output: Option<String>,
    dir: Option<String>,
) -> (r: String)
    ensures
        output matches Option::Some(path) ==> r == path,
{
    match output {
        Option::Some(path) => {
            return path;
        }
        Option::None => {}
    }
    let file_name: String = match &message.media {
        Option::Some(media) => match media_file_name(media) {
            Option::Some(name) => name,
            Option::None => {
                let mut name = String::from_str("message-");
                name.append(i64_to_dec(message.id).as_str());
                name.append(".bin");
                name
            }
        },
        Option::None => {
            let mut name = String::from_str("message-");
            name.append(i64_to_dec(message.id).as_str());
            name.append(".bin");
            name
        }
    };
    let mut path = match dir {
        Option::Some(d) => d,
        Option::None => String::from_str("."),
    };
    path.append("/");
    path.append(file_name.as_str());
    path
}

/// The first chat in the list with the given id.
pub open spec fn spec_find_chat(chats: Seq<Chat>, id: i64) -> Option<Chat>
    decreases chats.len(),
{
    if chats.len() == 0 {
        Option::None
    } else if chats[0].id == id {
        Option::Some(chats[0])
    } else {
        spec_find_chat(chats.drop_first(), id)
    }
}

/// Finds the first chat with the given id.
pub fn find_chat<'a>(chats: &'a Vec<Chat>, id: i64) -> (r: Option<&'a Chat>)
    ensures
        match r {
            Option::Some(c) => spec_find_chat(chats@, id) == Option::Some(*c),
            Option::None => spec_find_chat(chats@, id) is None,
        },
{
    let n = chats.len();
    let mut i: usize = 0;
    proof {
        assert(chats@.skip(0) =~= chats@);
    }
    while i < n
        invariant
            i <= n,
            n == chats@.len(),
            spec_find_chat(chats@, id) == spec_find_chat(chats@.skip(i as int), id),
        decreases n - i,
    {
        proof {
            assert(chats@.skip(i as int)[0] == chats@[i as int]);
            assert(chats@.skip(i as int).drop_first() =~= chats@.skip(i as int + 1));
        }
        if chats[i].id == id {
            return Option::Some(&chats[i]);
        }
        i = i + 1;
    }
    proof {
        assert(chats@.skip(n as int) =~= Seq::<Chat>::empty());
    }
    Option::None
}

/// The human name an outbound peer resolves to: the user's display name,
/// the chat's display name, `You` for self, or a numbered fallback.
pub fn peer_name_from_input(
    peer: &crate::protocol::InputPeer,
    users: &Vec<User>,
    chats: &Vec<Chat>,
) -> (r: Option<String>)
    ensures
        match peer.kind {
            Option::Some(crate::protocol::InputPeerKind::User(uid)) => r matches Option::Some(
                name,
            ) && name@ == (match spec_find_user(users@, uid) {
                Option::Some(u) => spec_user_display_name(u),
                Option::None => "user "@ + spec_dec_signed(uid as int),
            }),
            Option::Some(crate::protocol::InputPeerKind::Chat(cid)) => r matches Option::Some(
                name,
            ) && name@ == (match spec_find_chat(chats@, cid) {
                Option::Some(c) => spec_chat_display_name(c, users@),
                Option::None => "chat "@ + spec_dec_signed(cid as int),
            }),
            Option::Some(crate::protocol::InputPeerKind::SelfPeer) => r matches Option::Some(
                name,
            ) && name@ == "You"@,
            Option::None => r is None,
        },
{
    match &peer.kind {
        Option::Some(crate::protocol::InputPeerKind::User(uid)) => match find_user(users, *uid) {
            Option::Some(user) => Option::Some(user_display_name(user)),
            Option::None => {
                let mut name = String::from_str("user ");
                name.append(i64_to_dec(*uid).as_str());
                Option::Some(name)
            }
        },
        Option::Some(crate::protocol::InputPeerKind::Chat(cid)) => match find_chat(chats, *cid) {
            Option::Some(chat) => Option::Some(chat_display_name(chat, users)),
            Option::None => {
                let mut name = String::from_str("chat ");
                name.append(i64_to_dec(*cid).as_str());
                Option::Some(name)
            }
        },
        Option::Some(crate::protocol::InputPeerKind::SelfPeer) => Option::Some(
            String::from_str("You"),
        ),
        Option::None => Option::None,
    }
}

/// Rows sorted by display name (lexicographically).
pub open spec fn members_sorted(s: Seq<SpaceMemberSummary>) -> bool {
    forall|i: int, j: int|
        0 <= i < j < s.len() ==> crate::strutil::lex_leq(
            (#[trigger] s[i]).display_name@,
            (#[trigger] s[j]).display_name@,
        )
}

/// The display name a member resolves to.
pub open spec fn spec_member_display(m: Member, users: Seq<User>) -> Seq<char> {
    match spec_find_user(users, m.user_id) {
        Option::Some(u) => spec_user_display_name(u),
        Option::None => "user "@ + spec_dec_signed(m.user_id as int),
    }
}

/// One member row is the faithful rendering of one membership record.
pub open spec fn member_item_ok(s: SpaceMemberSummary, m: Member, users: Seq<User>) -> bool {
    s.member == m && s.can_access_public_chats == m.can_access_public_chats && s.display_name@
        == spec_member_display(m, users) && (match m.role {
        Option::Some(MemberRole::Owner) => s.role@ == "owner"@,
        Option::Some(MemberRole::Admin) => s.role@ == "admin"@,
        Option::Some(MemberRole::Member) => s.role@ == "member"@,
        Option::None => s.role@ == "-"@,
    }) && (match spec_find_user(users, m.user_id) {
        Option::Some(u) => s.user matches Option::Some(su) && su.user == u && su.display_name@
            == spec_user_display_name(u),
        Option::None => s.user is None,
    })
}

/// Inserts a row into a name-sorted list at its ordered position,
/// keeping the list sorted; the result is exactly the old list with the
/// row inserted there.
fn insert_member_sorted(rows: &mut Vec<SpaceMemberSummary>, item: SpaceMemberSummary) -> (pos:
    usize)
    requires
        members_sorted(old(rows)@),
    ensures
        pos <= old(rows)@.len(),
        final(rows)@ == old(rows)@.insert(pos as int, item),
        members_sorted(final(rows)@),
{
    let n = rows.len();
    let mut p: usize = 0;
    while p < n && crate::strutil::str_lex_leq(rows[p].display_name.as_str(), item.display_name.as_str())
        invariant
            p <= n,
            n == rows@.len(),
            rows@ == old(rows)@,
            forall|k: int|
                0 <= k < p ==> crate::strutil::lex_leq(
                    (#[trigger] rows@[k]).display_name@,
                    item.display_name@,
                ),
        decreases n - p,
    {
        p = p + 1;
    }
    proof {
        if p < n {
            crate::strutil::lemma_lex_total(rows@[p as int].display_name@, item.display_name@);
        }
    }
    let ghost before = rows@;
    let ghost pos = p as int;
    rows.insert(p, item);
    proof {
        assert(rows@ =~= before.insert(pos, item));
        assert forall|i: int, j: int| 0 <= i < j < rows@.len() implies crate::strutil::lex_leq(
            (#[trigger] rows@[i]).display_name@,
            (#[trigger] rows@[j]).display_name@,
        ) by {
            if i < pos && j == pos {
                assert(rows@[i] == before[i]);
            } else if i == pos && j > pos {
                assert(rows@[j] == before[j - 1]);
                assert(!crate::strutil::lex_leq(before[pos].display_name@, item.display_name@));
                crate::strutil::lemma_lex_total(before[pos].display_name@, item.display_name@);
                assert(crate::strutil::lex_leq(item.display_name@, before[pos].display_name@));
                if j - 1 > pos {
                    crate::strutil::lemma_lex_trans(
                        item.display_name@,
                        before[pos].display_name@,
                        before[j - 1].display_name@,
                    );
                }
            } else if i < pos && j > pos {
                assert(rows@[i] == before[i]);
                assert(rows@[j] == before[j - 1]);
            } else if j < pos {
                assert(rows@[i] == before[i]);
                assert(rows@[j] == before[j]);
            } else if i > pos {
                assert(rows@[i] == before[i - 1]);
                assert(rows@[j] == before[j - 1]);
            }
        }
    }
    p
}

/// Sorts member rows by display name (insertion sort): the result is
/// sorted and holds exactly the same rows, multiplicity included.
pub fn sort_members_by_display_name(rows: &mut Vec<SpaceMemberSummary>)
    ensures
        members_sorted(final(rows)@),
        final(rows)@.to_multiset() == old(rows)@.to_multiset(),
        final(rows)@.len() == old(rows)@.len(),
{
    broadcast use vstd::seq_lib::group_to_multiset_ensures;

    let ghost input = old(rows)@;
    let mut remaining = Vec::new();
    core_swap_rows(rows, &mut remaining);
    let mut k: usize = 0;
    let n = remaining.len();
    proof {
        assert(input.subrange(0, 0) =~= Seq::<SpaceMemberSummary>::empty());
        assert(rows@.to_multiset() =~= input.subrange(0, 0).to_multiset());
    }
    while k < n
        invariant
            k <= n,
            n == input.len(),
            remaining@ =~= input.skip(k as int),
            members_sorted(rows@),
            rows@.len() == k,
            rows@.to_multiset() == input.subrange(0, k as int).to_multiset(),
        decreases n - k,
    {
        broadcast use vstd::seq_lib::group_to_multiset_ensures;

        proof {
            assert(remaining@[0] == input[k as int]);
        }
        let ghost pre_rows = rows@;
        let item = remaining.remove(0);
        let pos = insert_member_sorted(rows, item);
        proof {
            assert(rows@[pos as int] == item);
            assert(rows@.remove(pos as int) =~= pre_rows);
            assert(rows@.remove(pos as int).to_multiset() =~= rows@.to_multiset().remove(
                item,
            ));
            assert(rows@.to_multiset().contains(item)) by {
                assert(rows@.contains(item)) by {
                    assert(rows@[pos as int] == item);
                }
            }
            assert(rows@.to_multiset() =~= pre_rows.to_multiset().insert(item));
            assert(input.subrange(0, k as int + 1).drop_last() =~= input.subrange(
                0,
                k as int,
            ));
            assert(input.subrange(0, k as int + 1) =~= input.subrange(0, k as int).push(
                input[k as int],
            ));
            assert(input.subrange(0, k as int + 1).to_multiset() =~= input.subrange(
                0,
                k as int,
            ).to_multiset().insert(input[k as int]));
            assert(rows@.to_multiset() =~= input.subrange(0, k as int + 1).to_multiset());
        }
        k = k + 1;
    }
    proof {
        assert(input.subrange(0, n as int) =~= input);
    }
}

/// One row per membership record, in record order, resolved against the
/// known users.
pub fn space_member_rows(result: &crate::protocol::GetSpaceMembersResult) -> (r: Vec<
    SpaceMemberSummary,
>)
    ensures
        r@.len() == result.members@.len(),
        forall|i: int|
            0 <= i < r@.len() ==> member_item_ok(
                #[trigger] r@[i],
                result.members@[i],
                result.users@,
            ),
{
    let n = result.members.len();
    let mut rows: Vec<SpaceMemberSummary> = Vec::new();
    let mut k: usize = 0;
    while k < n
        invariant
            k <= n,
            n == result.members@.len(),
            rows@.len() == k,
            forall|i: int|
                0 <= i < rows@.len() ==> member_item_ok(
                    #[trigger] rows@[i],
                    result.members@[i],
                    result.users@,
                ),
        decreases n - k,
    {
        let m = &result.members[k];
        let found = find_user(&result.users, m.user_id);
        let display_name: String = match found {
            Option::Some(user) => user_display_name(user),
            Option::None => {
                let mut name = String::from_str("user ");
                name.append(i64_to_dec(m.user_id).as_str());
                name
            }
        };
        let user = match found {
            Option::Some(user) => Option::Some(user_summary(user)),
            Option::None => Option::None,
        };
        let item = SpaceMemberSummary {
            member: Member {
                id: m.id,
                user_id: m.user_id,
                role: m.role,
                can_access_public_chats: m.can_access_public_chats,
            },
            user,
            display_name,
            role: member_role_label(m),
            can_access_public_chats: m.can_access_public_chats,
        };
        proof {
            assert(member_item_ok(item, result.members@[k as int], result.users@));
        }
        rows.push(item);
        k = k + 1;
    }
    rows
}

/// Swaps the contents of the two row vectors.
fn core_swap_rows(a: &mut Vec<SpaceMemberSummary>, b: &mut Vec<SpaceMemberSummary>)
    ensures
        final(a)@ == old(b)@,
        final(b)@ == old(a)@,
{
    core::mem::swap(a, b);
}

/// Builds the member rows of a space — one rendering per membership
/// record, as [`space_member_rows`] produces them — sorted by display
/// name with multiplicity preserved.
pub fn build_space_members_output(result: &crate::protocol::GetSpaceMembersResult) -> (r:
    SpaceMembersOutput)
    ensures
        members_sorted(r.members@),
        r.members@.len() == result.members@.len(),
        forall|x: SpaceMemberSummary| #[trigger] r.members@.contains(x) ==> exists|i: int|
            0 <= i < result.members@.len() && member_item_ok(
                x,
                #[trigger] result.members@[i],
                result.users@,
            ),
{
    broadcast use vstd::seq_lib::group_to_multiset_ensures;

    let mut rows = space_member_rows(result);
    let ghost unsorted = rows@;
    sort_members_by_display_name(&mut rows);
    proof {
        assert forall|x: SpaceMemberSummary| #[trigger] rows@.contains(x) implies exists|i: int|
            0 <= i < result.members@.len() && member_item_ok(
                x,
                #[trigger] result.members@[i],
                result.users@,
            ) by {
            assert(rows@.to_multiset().contains(x));
            assert(unsorted.to_multiset().contains(x));
            assert(unsorted.contains(x));
            let io = choose|io: int| 0 <= io < unsorted.len() && unsorted[io] == x;
            assert(member_item_ok(unsorted[io], result.members@[io], result.users@));
        }
    }
    SpaceMembersOutput { members: rows }
}

} // verus!
