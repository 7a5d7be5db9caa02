//! Peer-reference helpers: building outbound peer references from command
//! arguments or server peers, and labelling them for output.

use vstd::prelude::*;
use vstd::string::*;
use crate::protocol::{InputPeer, InputPeerKind, Peer, PeerKind, SpaceMemberRole, SpaceMemberRoleKind};
use crate::strutil::{i64_to_dec, spec_dec_signed};

verus! {

/// A hashable key identifying a peer.
#[derive(Clone, Debug, PartialEq, Eq, Hash)]
pub enum PeerKey {
    Chat(i64),
    User(i64),
}

/// Builds an outbound peer from command arguments: exactly one of the chat
/// id or the user id must be given, and each error names the violation.
pub fn input_peer_from_args(chat_id: Option<i64>, user_id: Option<i64>) -> (r: Result<
    InputPeer,
    &'static str,
>)
    ensures
        match r {
            Result::Ok(p) => (chat_id matches Option::Some(c) && user_id is None && p.kind
                == Option::Some(InputPeerKind::Chat(c))) || (user_id matches Option::Some(u)
                && chat_id is None && p.kind == Option::Some(InputPeerKind::User(u))),
            Result::Err(_) => (chat_id is Some && user_id is Some) || (chat_id is None
                && user_id is None),
        },
{
    match (chat_id, user_id) {
        (Option::Some(_), Option::Some(_)) => Result::Err(
            "Provide only one of --chat-id or --user-id",
        ),
        (Option::Some(c), Option::None) => Result::Ok(
            InputPeer { kind: Option::Some(InputPeerKind::Chat(c)) },
        ),
        (Option::None, Option::Some(u)) => Result::Ok(
            InputPeer { kind: Option::Some(InputPeerKind::User(u)) },
        ),
        (Option::None, Option::None) => Result::Err("Provide --chat-id or --user-id"),
    }
}

/// The short label of an outbound peer.
pub open spec fn spec_peer_label(peer: InputPeer) -> Seq<char> {
    match peer.kind {
        Option::Some(InputPeerKind::Chat(c)) => "chat "@ + spec_dec_signed(c as int),
        Option::Some(InputPeerKind::User(u)) => "user "@ + spec_dec_signed(u as int),
        Option::Some(InputPeerKind::SelfPeer) => "self"@,
        Option::None => "peer"@,
    }
}

/// Labels an outbound peer for human-readable output.
pub fn peer_label_from_input(peer: &InputPeer) -> (r: String)
    ensures
        r@ == spec_peer_label(*peer),
{
    match &peer.kind {
        Option::Some(InputPeerKind::Chat(c)) => {
            let mut s = String::from_str("chat ");
            s.append(i64_to_dec(*c).as_str());
            s
        }
        Option::Some(InputPeerKind::User(u)) => {
            let mut s = String::from_str("user ");
            s.append(i64_to_dec(*u).as_str());
            s
        }
        Option::Some(InputPeerKind::SelfPeer) => String::from_str("self"),
        Option::None => String::from_str("peer"),
    }
}

/// Converts a server peer into an outbound peer reference.
pub fn input_peer_from_peer(peer: &Peer) -> (r: Option<InputPeer>)
    ensures
        match peer.kind {
            Option::Some(PeerKind::Chat(c)) => r matches Option::Some(p) && p.kind
                == Option::Some(InputPeerKind::Chat(c)),
            Option::Some(PeerKind::User(u)) => r matches Option::Some(p) && p.kind
                == Option::Some(InputPeerKind::User(u)),
            Option::None => r is None,
        },
{
    match &peer.kind {
        Option::Some(PeerKind::Chat(c)) => Option::Some(
            InputPeer { kind: Option::Some(InputPeerKind::Chat(*c)) },
        ),
        Option::Some(PeerKind::User(u)) => Option::Some(
            InputPeer { kind: Option::Some(InputPeerKind::User(*u)) },
        ),
        Option::None => Option::None,
    }
}

/// The lookup key of a server peer.
pub fn peer_key_from_peer(peer: &Peer) -> (r: Option<PeerKey>)
    ensures
        match peer.kind {
            Option::Some(PeerKind::Chat(c)) => r == Option::Some(PeerKey::Chat(c)),
            Option::Some(PeerKind::User(u)) => r == Option::Some(PeerKey::User(u)),
            Option::None => r is None,
        },
{
    match &peer.kind {
        Option::Some(PeerKind::Chat(c)) => Option::Some(PeerKey::Chat(*c)),
        Option::Some(PeerKind::User(u)) => Option::Some(PeerKey::User(*u)),
        Option::None => Option::None,
    }
}

/// The regular-member role, with or without access to public chats.
pub fn space_member_role_member(can_access_public_chats: bool) -> (r: SpaceMemberRole)
    ensures
        r.role == Option::Some(SpaceMemberRoleKind::Member { can_access_public_chats }),
{
    SpaceMemberRole {
        role: Option::Some(SpaceMemberRoleKind::Member { can_access_public_chats }),
    }
}

/// The administrator role.
pub fn space_member_role_admin() -> (r: SpaceMemberRole)
    ensures
        r.role == Option::Some(SpaceMemberRoleKind::Admin),
{
    SpaceMemberRole { role: Option::Some(SpaceMemberRoleKind::Admin) }
}

/// The optional role an invite carries: admin and public-chat access are
/// mutually exclusive; neither flag means no explicit role.
pub fn invite_role_from_args(admin: bool, public_chats: bool) -> (r: Result<
    Option<SpaceMemberRole>,
    &'static str,
>)
    ensures
        match r {
            Result::Ok(role) => (admin && !public_chats && role == Option::Some(
                SpaceMemberRole { role: Option::Some(SpaceMemberRoleKind::Admin) },
            )) || (!admin && public_chats && role == Option::Some(
                SpaceMemberRole {
                    role: Option::Some(
                        SpaceMemberRoleKind::Member { can_access_public_chats: true },
                    ),
                },
            )) || (!admin && !public_chats && role is None),
            Result::Err(_) => admin && public_chats,
        },
{
    if admin && public_chats {
        return Result::Err("Provide only one of --admin or --public-chats");
    }
    if admin {
        return Result::Ok(Option::Some(space_member_role_admin()));
    }
    if public_chats {
        return Result::Ok(Option::Some(space_member_role_member(true)));
    }
    Result::Ok(Option::None)
}

/// The required role for a member-access change: `--admin` alone, or
/// `--member` (optionally with `--public-chats`); anything else is an
/// error naming what to pass.
pub fn require_member_access_role(admin: bool, member: bool, public_chats: bool) -> (r: Result<
    SpaceMemberRole,
    &'static str,
>)
    ensures
        match r {
            Result::Ok(role) => (admin && !member && !public_chats && role == (
            SpaceMemberRole { role: Option::Some(SpaceMemberRoleKind::Admin) })) || (!admin
                && (member || public_chats) && role == (SpaceMemberRole {
                role: Option::Some(
                    SpaceMemberRoleKind::Member { can_access_public_chats: public_chats },
                ),
            })),
            Result::Err(_) => (admin && (member || public_chats)) || (!admin && !member
                && !public_chats),
        },
{
    if admin && (member || public_chats) {
        return Result::Err("Provide only one of --admin or --member/--public-chats");
    }
    if admin {
        return Result::Ok(space_member_role_admin());
    }
    if !member && !public_chats {
        return Result::Err("Provide --admin or --member (or --public-chats)");
    }
    Result::Ok(space_member_role_member(public_chats))
}

/// The rendered form of a server peer.
pub fn peer_summary_from_peer(peer: &Peer) -> (r: Option<crate::output::PeerSummary>)
    ensures
        match peer.kind {
            Option::Some(PeerKind::Chat(c)) => r matches Option::Some(p) && p.peer_type@
                == "chat"@ && p.id == c,
            Option::Some(PeerKind::User(u)) => r matches Option::Some(p) && p.peer_type@
                == "user"@ && p.id == u,
            Option::None => r is None,
        },
{
    match &peer.kind {
        Option::Some(PeerKind::Chat(c)) => Option::Some(
            crate::output::PeerSummary { peer_type: String::from_str("chat"), id: *c },
        ),
        Option::Some(PeerKind::User(u)) => Option::Some(
            crate::output::PeerSummary { peer_type: String::from_str("user"), id: *u },
        ),
        Option::None => Option::None,
    }
}

/// The rendered form of an outbound peer.
pub fn peer_summary_from_input(peer: &InputPeer) -> (r: Option<crate::output::PeerSummary>)
    ensures
        match peer.kind {
            Option::Some(InputPeerKind::Chat(c)) => r matches Option::Some(p) && p.peer_type@
                == "chat"@ && p.id == c,
            Option::Some(InputPeerKind::User(u)) => r matches Option::Some(p) && p.peer_type@
                == "user"@ && p.id == u,
            Option::Some(InputPeerKind::SelfPeer) => r matches Option::Some(p) && p.peer_type@
                == "self"@ && p.id == 0,
            Option::None => r is None,
        },
{
    match &peer.kind {
        Option::Some(InputPeerKind::Chat(c)) => Option::Some(
            crate::output::PeerSummary { peer_type: String::from_str("chat"), id: *c },
        ),
        Option::Some(InputPeerKind::User(u)) => Option::Some(
            crate::output::PeerSummary { peer_type: String::from_str("user"), id: *u },
        ),
        Option::Some(InputPeerKind::SelfPeer) => Option::Some(
            crate::output::PeerSummary { peer_type: String::from_str("self"), id: 0 },
        ),
        Option::None => Option::None,
    }
}

/// How a space invite addresses its target.
#[derive(Clone, Debug, PartialEq)]
pub enum InviteVia {
    UserId(i64),
    Email(String),
    PhoneNumber(String),
}

/// The invite target from command arguments: exactly one of a user id, a
/// non-blank email, or a non-blank phone number.
pub fn invite_target_from_args(
    user_id: Option<i64>,
    email: &Option<String>,
    phone: &Option<String>,
) -> (r: Result<InviteVia, &'static str>)
    ensures
        match r {
            Result::Ok(via) => match via {
                InviteVia::UserId(id) => user_id == Option::Some(id) && email is None && phone
                    is None,
                InviteVia::Email(e) => user_id is None && (email matches Option::Some(e0)
                    && e@ == crate::output::spec_trimmed(e0@) && e@.len() > 0) && phone
                    is None,
                InviteVia::PhoneNumber(p) => user_id is None && email is None && (
                phone matches Option::Some(p0) && p@ == crate::output::spec_trimmed(p0@)
                    && p@.len() > 0),
            },
            Result::Err(_) => true,
        },
{
    let mut chosen: Option<InviteVia> = match user_id {
        Option::Some(id) => Option::Some(InviteVia::UserId(id)),
        Option::None => Option::None,
    };
    match email {
        Option::Some(e) => {
            if chosen.is_some() {
                return Result::Err("Provide only one of --user-id, --email, or --phone");
            }
            let t = crate::output::trimmed(e.as_str());
            if t.unicode_len() == 0 {
                return Result::Err("Email cannot be empty");
            }
            chosen = Option::Some(InviteVia::Email(String::from_str(t)));
        }
        Option::None => {}
    }
    match phone {
        Option::Some(p) => {
            if chosen.is_some() {
                return Result::Err("Provide only one of --user-id, --email, or --phone");
            }
            let t = crate::output::trimmed(p.as_str());
            if t.unicode_len() == 0 {
                return Result::Err("Phone number cannot be empty");
            }
            chosen = Option::Some(InviteVia::PhoneNumber(String::from_str(t)));
        }
        Option::None => {}
    }
    match chosen {
        Option::Some(via) => Result::Ok(via),
        Option::None => Result::Err("Provide --user-id, --email, or --phone"),
    }
}

} // verus!
