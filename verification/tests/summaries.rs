use inline_cli::output::{
    attachment_preview, build_message_list_from_messages, build_space_list, build_user_list,
    chat_display_name, filter_users_output, format_attachment_detail, format_media_detail,
    media_file_name, media_preview, message_media_summary, message_preview, message_summary,
    sanitize_file_name, user_matches_filter, user_summary, AttachmentSummary, MediaSummary,
    UserListOutput,
};
use inline_cli::output::build_space_members_output;
use inline_cli::peers::{invite_role_from_args, require_member_access_role};
use inline_cli::protocol::{
    notification_settings_values, AttachmentKind, Chat, DocumentMedia, ExternalTaskAttachment,
    ExternalTaskStatus, GetChatsResult, GetSpaceMembersResult, MediaKind, Member, MemberRole,
    Message, MessageAttachment, MessageAttachments, MessageMedia, MessageTranslation,
    NotificationMode, NotificationSettings, Peer, PeerKind, PhotoFormat, PhotoMedia, PhotoSize,
    SpaceMemberRoleKind, Space, UrlPreviewAttachment, User, VideoMedia,
};

fn named_user(id: i64, first: &str) -> User {
    User {
        id,
        first_name: Some(first.to_string()),
        last_name: None,
        username: None,
        email: None,
        phone_number: None,
        bot: None,
    }
}

fn text_message(id: i64, from_id: i64, text: &str) -> Message {
    Message {
        id,
        from_id,
        date: 1000,
        chat_id: 5,
        peer_id: None,
        message: Some(text.to_string()),
        out: false,
        media: None,
        attachments: None,
    }
}

#[test]
fn document_media_summarizes_and_previews() {
    let mut message = text_message(1, 2, "");
    message.media = Some(MessageMedia {
        media: Some(MediaKind::Document(Some(DocumentMedia {
            file_name: "spec.pdf".to_string(),
            mime_type: "application/pdf".to_string(),
            size: 2048,
            cdn_url: None,
        }))),
    });
    let summary = message_media_summary(&message).expect("document summary");
    assert_eq!(summary.kind, "document");
    assert_eq!(summary.file_name.as_deref(), Some("spec.pdf"));
    assert_eq!(media_preview(&summary), "[file: spec.pdf application/pdf 2.0KB]");
    assert_eq!(
        format_media_detail(&summary),
        "document name=spec.pdf type=application/pdf size=2.0KB"
    );
}

#[test]
fn video_and_photo_media_summarize() {
    let mut message = text_message(1, 2, "");
    message.media = Some(MessageMedia {
        media: Some(MediaKind::Video(Some(VideoMedia {
            id: 9,
            size: 1024,
            duration: 12,
            w: 640,
            h: 480,
            cdn_url: Some("https://cdn/video".to_string()),
        }))),
    });
    let video = message_media_summary(&message).expect("video summary");
    assert_eq!(video.kind, "video");
    assert_eq!(media_preview(&video), "[video 12s 1.0KB]");

    message.media = Some(MessageMedia {
        media: Some(MediaKind::Photo(Some(PhotoMedia {
            id: 4,
            format: PhotoFormat::Png,
            sizes: vec![
                PhotoSize { w: 10, h: 10, size: 100, cdn_url: None },
                PhotoSize { w: 100, h: 100, size: 900, cdn_url: Some("big".to_string()) },
                PhotoSize { w: 50, h: 50, size: 400, cdn_url: Some("small".to_string()) },
            ],
        }))),
    });
    let photo = message_media_summary(&message).expect("photo summary");
    assert_eq!(photo.kind, "photo");
    assert_eq!(photo.url.as_deref(), Some("big"));
    assert_eq!(photo.width, Some(100));
    assert_eq!(media_preview(&photo), "[photo]");
}

#[test]
fn attachments_preview_and_detail() {
    let link = AttachmentSummary {
        kind: "url_preview".to_string(),
        title: Some("Docs".to_string()),
        url: Some("https://docs".to_string()),
        site_name: None,
        application: None,
        status: None,
        number: None,
        assigned_user_id: None,
    };
    assert_eq!(attachment_preview(&link), "[link: Docs]");
    assert_eq!(
        format_attachment_detail(&link),
        "url_preview title=Docs url=https://docs"
    );

    let task = AttachmentSummary {
        kind: "external_task".to_string(),
        title: Some("Fix bug".to_string()),
        url: Some("https://tracker/1".to_string()),
        site_name: None,
        application: Some("Linear".to_string()),
        status: Some("todo".to_string()),
        number: Some("T-1".to_string()),
        assigned_user_id: Some(7),
    };
    assert_eq!(attachment_preview(&task), "[task Linear: Fix bug]");
}

#[test]
fn message_previews_compose_text_translation_and_cards() {
    let mut message = text_message(1, 2, "  hello\nworld ");
    message.attachments = Some(MessageAttachments {
        attachments: vec![
            MessageAttachment {
                attachment: Some(AttachmentKind::UrlPreview(UrlPreviewAttachment {
                    title: None,
                    url: None,
                    site_name: Some("site".to_string()),
                })),
            },
            MessageAttachment {
                attachment: Some(AttachmentKind::ExternalTask(ExternalTaskAttachment {
                    title: "Task".to_string(),
                    url: "u".to_string(),
                    application: "Notion".to_string(),
                    status: ExternalTaskStatus::Done,
                    number: "N-2".to_string(),
                    assigned_user_id: 3,
                })),
            },
        ],
    });
    let media = message_media_summary(&message);
    let attachments = inline_cli::output::message_attachment_summaries(&message);
    let translation = Some(MessageTranslation {
        message_id: 1,
        translation: "hallo welt".to_string(),
        language: "de".to_string(),
    });
    let preview = message_preview(&message, &media, &attachments, &translation);
    assert_eq!(
        preview,
        "hello world tr(de): hallo welt [link: site] [task Notion: Task]"
    );

    // an identical translation is not repeated
    let same = Some(MessageTranslation {
        message_id: 1,
        translation: " hello  world ".to_string(),
        language: "en".to_string(),
    });
    let preview = message_preview(&message, &None, &Vec::new(), &same);
    assert_eq!(preview, "hello world");

    let empty = text_message(2, 2, "   ");
    let preview = message_preview(&empty, &None, &Vec::new(), &None);
    assert_eq!(preview, "<non-text>");
}

#[test]
fn message_summaries_resolve_sender_and_translation() {
    let users = vec![named_user(2, "Ada"), named_user(3, "Bea")];
    let translations = vec![MessageTranslation {
        message_id: 1,
        translation: "hola".to_string(),
        language: "es".to_string(),
    }];
    let summary = message_summary(text_message(1, 2, "hi"), &users, None, 1030, &translations);
    assert_eq!(summary.sender_name, "Ada");
    assert_eq!(summary.relative_date, "30s ago");
    assert_eq!(summary.translation.as_ref().map(|t| t.language.as_str()), Some("es"));
    assert_eq!(summary.preview, "hi tr(es): hola");

    let own = message_summary(text_message(4, 3, "mine"), &users, Some(3), 1030, &Vec::new());
    assert_eq!(own.sender_name, "You");

    let unknown = message_summary(text_message(5, 99, "?"), &users, None, 1030, &Vec::new());
    assert_eq!(unknown.sender_name, "user 99");

    let list = build_message_list_from_messages(
        vec![text_message(1, 2, "a"), text_message(2, 3, "b")],
        &users,
        None,
        1030,
        None,
        None,
        &Vec::new(),
    );
    assert_eq!(list.items.len(), 2);
    assert_eq!(list.items[0].sender_name, "Ada");
    assert_eq!(list.items[1].sender_name, "Bea");
}

#[test]
fn chat_names_prefer_the_peer_user() {
    let users = vec![named_user(2, "Ada")];
    let chat = Chat {
        id: 10,
        title: "Launch".to_string(),
        emoji: Some("*".to_string()),
        description: None,
        space_id: None,
        is_public: None,
        last_msg_id: None,
        peer_id: Some(Peer { kind: Some(PeerKind::User(2)) }),
    };
    assert_eq!(chat_display_name(&chat, &users), "* Ada");

    let group = Chat {
        id: 11,
        title: "  Team  ".to_string(),
        emoji: None,
        description: None,
        space_id: None,
        is_public: None,
        last_msg_id: None,
        peer_id: None,
    };
    assert_eq!(chat_display_name(&group, &users), "Team");

    let untitled = Chat {
        id: 12,
        title: "".to_string(),
        emoji: None,
        description: None,
        space_id: None,
        is_public: None,
        last_msg_id: None,
        peer_id: None,
    };
    assert_eq!(chat_display_name(&untitled, &users), "Chat 12");
}

#[test]
fn user_filters_match_lowercased_fields() {
    let mut output = UserListOutput {
        users: vec![
            user_summary(&named_user(1, "Ada")),
            user_summary(&named_user(2, "Bea")),
        ],
    };
    assert!(user_matches_filter(&output.users[0], "ad"));
    assert!(!user_matches_filter(&output.users[0], "bea"));
    filter_users_output(&mut output, Some(" BE "));
    assert_eq!(output.users.len(), 1);
    assert_eq!(output.users[0].display_name, "Bea");

    let mut untouched = UserListOutput {
        users: vec![user_summary(&named_user(1, "Ada"))],
    };
    filter_users_output(&mut untouched, Some("   "));
    assert_eq!(untouched.users.len(), 1);
}

#[test]
fn file_names_are_sanitized() {
    assert_eq!(sanitize_file_name("  dir/report.pdf "), Some("report.pdf".to_string()));
    assert_eq!(sanitize_file_name("plain.txt"), Some("plain.txt".to_string()));
    assert_eq!(sanitize_file_name("   "), None);
    assert_eq!(sanitize_file_name("trailing/"), None);

    let video = MessageMedia {
        media: Some(MediaKind::Video(Some(VideoMedia {
            id: 8,
            size: 1,
            duration: 1,
            w: 1,
            h: 1,
            cdn_url: None,
        }))),
    };
    assert_eq!(media_file_name(&video), Some("video-8.mp4".to_string()));
    let photo = MessageMedia {
        media: Some(MediaKind::Photo(Some(PhotoMedia {
            id: 3,
            format: PhotoFormat::Png,
            sizes: vec![],
        }))),
    };
    assert_eq!(media_file_name(&photo), Some("photo-3.png".to_string()));
}

#[test]
fn list_builders_keep_order() {
    let result = GetChatsResult {
        chats: vec![],
        dialogs: vec![],
        users: vec![named_user(1, "Ada"), named_user(2, "Bea")],
        spaces: vec![Space { id: 1, name: "Eng".to_string(), creator: true }],
        messages: vec![],
    };
    let users = build_user_list(&result);
    assert_eq!(users.users.len(), 2);
    assert_eq!(users.users[0].display_name, "Ada");
    let spaces = build_space_list(&result);
    assert_eq!(spaces.spaces[0].display_name, "Eng");
}

#[test]
fn roles_and_notification_defaults_resolve() {
    let role = invite_role_from_args(true, false).expect("admin role");
    assert_eq!(role.and_then(|r| r.role), Some(SpaceMemberRoleKind::Admin));
    assert_eq!(invite_role_from_args(false, false).expect("no role"), None);
    assert!(invite_role_from_args(true, true).is_err());

    let member = require_member_access_role(false, true, true).expect("member role");
    assert_eq!(
        member.role,
        Some(SpaceMemberRoleKind::Member { can_access_public_chats: true })
    );
    assert!(require_member_access_role(false, false, false).is_err());

    let values = notification_settings_values(&None);
    assert_eq!(values.mode, NotificationMode::All);
    assert!(values.zen_requires_mention);
    assert!(!values.silent);

    let custom = notification_settings_values(&Some(NotificationSettings {
        mode: Some(NotificationMode::Mentions),
        silent: Some(true),
        zen_mode_requires_mention: None,
        zen_mode_uses_default_rules: Some(false),
        zen_mode_custom_rules: Some("rules".to_string()),
        disable_dm_notifications: None,
    }));
    assert_eq!(custom.mode, NotificationMode::Mentions);
    assert!(custom.silent);
    assert!(!custom.zen_uses_default_rules);
    assert_eq!(custom.zen_custom_rules, "rules");
}

#[test]
fn space_members_come_back_sorted_by_name() {
    let result = GetSpaceMembersResult {
        members: vec![
            Member { id: 1, user_id: 10, role: Some(MemberRole::Owner), can_access_public_chats: true },
            Member { id: 2, user_id: 11, role: Some(MemberRole::Member), can_access_public_chats: false },
            Member { id: 3, user_id: 12, role: None, can_access_public_chats: false },
        ],
        users: vec![named_user(10, "Zoe"), named_user(11, "Ada"), named_user(12, "Mia")],
    };
    let output = build_space_members_output(&result);
    let names: Vec<&str> = output.members.iter().map(|m| m.display_name.as_str()).collect();
    assert_eq!(names, vec!["Ada", "Mia", "Zoe"]);
    assert_eq!(output.members[0].role, "member");
    assert_eq!(output.members[1].role, "-");
    assert_eq!(output.members[2].role, "owner");

    // an unknown user falls back to a numbered name
    let unknown = GetSpaceMembersResult {
        members: vec![Member { id: 4, user_id: 99, role: None, can_access_public_chats: false }],
        users: vec![],
    };
    let output = build_space_members_output(&unknown);
    assert_eq!(output.members[0].display_name, "user 99");
}
