//! Model of the wire protocol: the client/server message envelopes that the
//! frame codec encodes and the dispatchers consume, plus the domain entities
//! that RPC payloads decode into.
//!
//! RPC call inputs and results are carried as opaque payload bytes here; the
//! surrounding binary turns them into typed values.  The envelope itself —
//! ids, sequence numbers, the body tag, error codes — is fully modelled.

use vstd::prelude::*;

verus! {

/// Body of an outbound client message: either the one-time handshake
/// greeting or an RPC call.
#[derive(Debug, Clone, PartialEq)]
pub enum ClientBody {
    /// Authenticates a brand-new connection.
    ConnectionInit { token: Vec<u8>, client_version: Vec<u8> },
    /// One correlated call: a method tag and its encoded input.
    RpcCall { method: u64, input: Vec<u8> },
}

/// An outbound client message.  `id` is the correlation key; `seq` is the
/// separate transport sequence number, unrelated to correlation.
#[derive(Debug, Clone, PartialEq)]
pub struct ClientMessage {
    pub id: u64,
    pub seq: u32,
    pub body: ClientBody,
}

/// An inbound server message: a closed tagged union.  `Unknown` stands for
/// any body this client does not recognize; dispatchers discard it.
#[derive(Debug, Clone, PartialEq)]
pub enum ServerMessage {
    /// Handshake success.
    ConnectionOpen,
    /// Fatal connection-level failure.
    ConnectionError,
    /// Terminal success for the request with id `req_msg_id`; `result` is
    /// the encoded payload, absent only when the server violates the
    /// protocol contract.
    RpcResult { req_msg_id: u64, result: Option<Vec<u8>> },
    /// Terminal failure for the request with id `req_msg_id`, carrying the
    /// transport status `code`, the application `error_code`, and the raw
    /// server message bytes.
    RpcError { req_msg_id: u64, code: i32, error_code: i32, message: Vec<u8> },
    /// A body this client does not recognize.
    Unknown,
}

/// A socket-level frame as the lower transport hands it over, reduced to
/// what the protocol cares about.  Non-data frames are control-plane only.
#[derive(Debug, Clone, PartialEq)]
pub enum WsFrame {
    /// A discrete binary message: the payload is a complete encoded
    /// server envelope.
    Binary(Vec<u8>),
    /// A text payload; discarded.
    Text,
    /// Transport keep-alive; answered by the lower transport's own rules.
    Ping,
    Pong,
    /// The peer closed the stream: a connection failure.
    Close,
    /// Any other framing primitive; discarded.
    Other,
}

/// A user account, with the optional profile fields the client renders.
#[derive(Clone, Debug, PartialEq)]
pub struct User {
    pub id: i64,
    pub first_name: Option<String>,
    pub last_name: Option<String>,
    pub username: Option<String>,
    pub email: Option<String>,
    pub phone_number: Option<String>,
    pub bot: Option<bool>,
}

/// A space (a named group of chats).
#[derive(Clone, Debug, PartialEq)]
pub struct Space {
    pub id: i64,
    pub name: String,
    pub creator: bool,
}

/// The party a message or chat points at.
#[derive(Clone, Debug, PartialEq)]
pub enum PeerKind {
    Chat(i64),
    User(i64),
}

/// A peer reference as the server sends it; absent when unknown.
#[derive(Clone, Debug, PartialEq)]
pub struct Peer {
    pub kind: Option<PeerKind>,
}

/// A peer reference as the client sends it.
#[derive(Clone, Debug, PartialEq)]
pub enum InputPeerKind {
    Chat(i64),
    User(i64),
    SelfPeer,
}

/// An outbound peer reference; absent when unresolved.
#[derive(Clone, Debug, PartialEq)]
pub struct InputPeer {
    pub kind: Option<InputPeerKind>,
}

/// A chat or thread.
#[derive(Clone, Debug, PartialEq)]
pub struct Chat {
    pub id: i64,
    pub title: String,
    pub emoji: Option<String>,
    pub description: Option<String>,
    pub space_id: Option<i64>,
    pub is_public: Option<bool>,
    pub last_msg_id: Option<i64>,
    pub peer_id: Option<Peer>,
}

/// Per-chat read state.
#[derive(Clone, Debug, PartialEq)]
pub struct Dialog {
    pub chat_id: Option<i64>,
    pub peer: Option<Peer>,
    pub unread_count: Option<i32>,
    pub read_max_id: Option<i64>,
    pub unread_mark: Option<bool>,
}

/// A document attachment's metadata.
#[derive(Clone, Debug, PartialEq)]
pub struct DocumentMedia {
    pub file_name: String,
    pub mime_type: String,
    pub size: i32,
    pub cdn_url: Option<String>,
}

/// A video attachment's metadata.
#[derive(Clone, Debug, PartialEq)]
pub struct VideoMedia {
    pub id: i64,
    pub size: i32,
    pub duration: i32,
    pub w: i32,
    pub h: i32,
    pub cdn_url: Option<String>,
}

/// One rendition of a photo.
#[derive(Clone, Debug, PartialEq)]
pub struct PhotoSize {
    pub w: i32,
    pub h: i32,
    pub size: i32,
    pub cdn_url: Option<String>,
}

/// How a photo's bytes are encoded.
#[derive(Clone, Copy, Debug, PartialEq, Eq, Structural)]
pub enum PhotoFormat {
    Unspecified,
    Jpeg,
    Png,
}

/// A photo attachment's metadata.
#[derive(Clone, Debug, PartialEq)]
pub struct PhotoMedia {
    pub id: i64,
    pub format: PhotoFormat,
    pub sizes: Vec<PhotoSize>,
}

/// The media payload of a message.
#[derive(Clone, Debug, PartialEq)]
pub enum MediaKind {
    Document(Option<DocumentMedia>),
    Video(Option<VideoMedia>),
    Photo(Option<PhotoMedia>),
    Nudge,
}

/// A message's media envelope; the inner kind is absent when unknown.
#[derive(Clone, Debug, PartialEq)]
pub struct MessageMedia {
    pub media: Option<MediaKind>,
}

/// Progress of an externally tracked task.
#[derive(Clone, Copy, Debug, PartialEq, Eq, Structural)]
pub enum ExternalTaskStatus {
    Unspecified,
    Backlog,
    Todo,
    InProgress,
    Done,
    Cancelled,
}

/// A link preview attachment.
#[derive(Clone, Debug, PartialEq)]
pub struct UrlPreviewAttachment {
    pub title: Option<String>,
    pub url: Option<String>,
    pub site_name: Option<String>,
}

/// A task tracked in an external tool.
#[derive(Clone, Debug, PartialEq)]
pub struct ExternalTaskAttachment {
    pub title: String,
    pub url: String,
    pub application: String,
    pub status: ExternalTaskStatus,
    pub number: String,
    pub assigned_user_id: i64,
}

/// One message attachment.
#[derive(Clone, Debug, PartialEq)]
pub enum AttachmentKind {
    UrlPreview(UrlPreviewAttachment),
    ExternalTask(ExternalTaskAttachment),
}

/// A message attachment envelope; absent kind when unknown.
#[derive(Clone, Debug, PartialEq)]
pub struct MessageAttachment {
    pub attachment: Option<AttachmentKind>,
}

/// The attachments of one message.
#[derive(Clone, Debug, PartialEq)]
pub struct MessageAttachments {
    pub attachments: Vec<MessageAttachment>,
}

/// A chat message.
#[derive(Clone, Debug, PartialEq)]
pub struct Message {
    pub id: i64,
    pub from_id: i64,
    pub date: i64,
    pub chat_id: i64,
    pub peer_id: Option<Peer>,
    pub message: Option<String>,
    pub out: bool,
    pub media: Option<MessageMedia>,
    pub attachments: Option<MessageAttachments>,
}

/// A server-side translation of one message.
#[derive(Clone, Debug, PartialEq)]
pub struct MessageTranslation {
    pub message_id: i64,
    pub translation: String,
    pub language: String,
}

/// A member's role inside a space.
#[derive(Clone, Copy, Debug, PartialEq, Eq, Structural)]
pub enum MemberRole {
    Owner,
    Admin,
    Member,
}

/// A space membership record.
#[derive(Clone, Debug, PartialEq)]
pub struct Member {
    pub id: i64,
    pub user_id: i64,
    pub role: Option<MemberRole>,
    pub can_access_public_chats: bool,
}

/// One participant of a chat.
#[derive(Clone, Debug, PartialEq)]
pub struct ChatParticipant {
    pub user_id: i64,
    pub date: i64,
}

/// Notification delivery mode.
#[derive(Clone, Copy, Debug, PartialEq, Eq, Structural)]
pub enum NotificationMode {
    All,
    Disabled,
    Mentions,
    ImportantOnly,
}

/// A user's notification preferences.
#[derive(Clone, Debug, PartialEq)]
pub struct NotificationSettings {
    pub mode: Option<NotificationMode>,
    pub silent: Option<bool>,
    pub zen_mode_requires_mention: Option<bool>,
    pub zen_mode_uses_default_rules: Option<bool>,
    pub zen_mode_custom_rules: Option<String>,
    pub disable_dm_notifications: Option<bool>,
}

/// A user's settings envelope.
#[derive(Clone, Debug, PartialEq)]
pub struct UserSettings {
    pub notification_settings: Option<NotificationSettings>,
}

/// Outbound media reference for a send.
#[derive(Clone, Debug, PartialEq)]
pub enum InputMediaKind {
    Photo(i64),
    Video(i64),
    Document(i64),
}

/// Outbound media envelope.
#[derive(Clone, Debug, PartialEq)]
pub struct InputMedia {
    pub media: Option<InputMediaKind>,
}

/// The kind of an inline message entity.
#[derive(Clone, Copy, Debug, PartialEq, Eq, Structural)]
pub enum MessageEntityKind {
    Mention,
}

/// One inline entity of a message (offsets in UTF-16 units).
#[derive(Clone, Debug, PartialEq)]
pub struct MessageEntity {
    pub kind: MessageEntityKind,
    pub offset: i64,
    pub length: i64,
    pub mention_user_id: Option<i64>,
}

/// The entities of one message.
#[derive(Clone, Debug, PartialEq)]
pub struct MessageEntities {
    pub entities: Vec<MessageEntity>,
}

/// The bundle the chat-list call returns.
#[derive(Clone, Debug, PartialEq)]
pub struct GetChatsResult {
    pub chats: Vec<Chat>,
    pub dialogs: Vec<Dialog>,
    pub users: Vec<User>,
    pub spaces: Vec<Space>,
    pub messages: Vec<Message>,
}

/// The bundle the space-members call returns.
#[derive(Clone, Debug, PartialEq)]
pub struct GetSpaceMembersResult {
    pub members: Vec<Member>,
    pub users: Vec<User>,
}

/// The bundle the chat-participants call returns.
#[derive(Clone, Debug, PartialEq)]
pub struct GetChatParticipantsResult {
    pub participants: Vec<ChatParticipant>,
    pub users: Vec<User>,
}

/// The bundle the chat-history call returns.
#[derive(Clone, Debug, PartialEq)]
pub struct GetChatHistoryResult {
    pub messages: Vec<Message>,
}

/// A member's role for invites and access changes.
#[derive(Clone, Debug, PartialEq)]
pub enum SpaceMemberRoleKind {
    /// A regular member; the flag grants access to public chats.
    Member { can_access_public_chats: bool },
    /// A space administrator.
    Admin,
}

/// The role envelope the server expects.
#[derive(Clone, Debug, PartialEq)]
pub struct SpaceMemberRole {
    pub role: Option<SpaceMemberRoleKind>,
}

/// The effective notification values, with every absent field defaulted.
#[derive(Clone, Debug, PartialEq)]
pub struct NotificationSettingsValues {
    pub mode: NotificationMode,
    pub silent: bool,
    pub zen_requires_mention: bool,
    pub zen_uses_default_rules: bool,
    pub zen_custom_rules: String,
    pub disable_dm_notifications: bool,
}

/// Resolves notification settings to their effective values: mode
/// defaults to all, the zen rules to set, everything else to unset.
pub fn notification_settings_values(settings: &Option<NotificationSettings>) -> (r:
    NotificationSettingsValues)
    ensures
        r.mode == (match settings {
            Option::Some(v) => match v.mode {
                Option::Some(mode) => mode,
                Option::None => NotificationMode::All,
            },
            Option::None => NotificationMode::All,
        }),
        r.silent == (match settings {
            Option::Some(v) => match v.silent {
                Option::Some(b) => b,
                Option::None => false,
            },
            Option::None => false,
        }),
        r.zen_requires_mention == (match settings {
            Option::Some(v) => match v.zen_mode_requires_mention {
                Option::Some(b) => b,
                Option::None => true,
            },
            Option::None => true,
        }),
        r.zen_uses_default_rules == (match settings {
            Option::Some(v) => match v.zen_mode_uses_default_rules {
                Option::Some(b) => b,
                Option::None => true,
            },
            Option::None => true,
        }),
        r.zen_custom_rules@ == (match settings {
            Option::Some(v) => match v.zen_mode_custom_rules {
                Option::Some(rules) => rules@,
                Option::None => Seq::<char>::empty(),
            },
            Option::None => Seq::<char>::empty(),
        }),
        r.disable_dm_notifications == (match settings {
            Option::Some(v) => match v.disable_dm_notifications {
                Option::Some(b) => b,
                Option::None => false,
            },
            Option::None => false,
        }),
{
    proof {
        reveal_strlit("");
        assert(""@ =~= Seq::<char>::empty());
    }
    match settings {
        Option::Some(v) => NotificationSettingsValues {
            mode: match v.mode {
                Option::Some(mode) => mode,
                Option::None => NotificationMode::All,
            },
            silent: match v.silent {
                Option::Some(b) => b,
                Option::None => false,
            },
            zen_requires_mention: match v.zen_mode_requires_mention {
                Option::Some(b) => b,
                Option::None => true,
            },
            zen_uses_default_rules: match v.zen_mode_uses_default_rules {
                Option::Some(b) => b,
                Option::None => true,
            },
            zen_custom_rules: match &v.zen_mode_custom_rules {
                Option::Some(rules) => rules.clone(),
                Option::None => String::from_str(""),
            },
            disable_dm_notifications: match v.disable_dm_notifications {
                Option::Some(b) => b,
                Option::None => false,
            },
        },
        Option::None => NotificationSettingsValues {
            mode: NotificationMode::All,
            silent: false,
            zen_requires_mention: true,
            zen_uses_default_rules: true,
            zen_custom_rules: String::from_str(""),
            disable_dm_notifications: false,
        },
    }
}

/// The short label of a notification mode.
pub fn notification_mode_label(mode: NotificationMode) -> (r: &'static str)
    ensures
        mode is All ==> r@ == "all"@,
        mode is Disabled ==> r@ == "none"@,
        mode is Mentions ==> r@ == "mentions"@,
        mode is ImportantOnly ==> r@ == "important"@,
{
    match mode {
        NotificationMode::All => "all",
        NotificationMode::Disabled => "none",
        NotificationMode::Mentions => "mentions",
        NotificationMode::ImportantOnly => "important",
    }
}

} // verus!
