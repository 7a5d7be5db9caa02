use inline_cli::api::{contact_from_args, Contact};
use inline_cli::messages::{
    apply_chat_list_limits, collect_message_ids, filter_messages_by_time,
    normalize_preview_text, normalize_search_queries, normalize_translation_language,
    parse_mention_entities,
};
use inline_cli::output::{peer_name_from_input, resolve_download_path};
use inline_cli::peers::{invite_target_from_args, peer_summary_from_input, InviteVia};
use inline_cli::protocol::{
    Chat, GetChatsResult, InputPeer, InputPeerKind, Message, MessageEntityKind, User,
};

fn plain_message(id: i64, date: i64) -> Message {
    Message {
        id,
        from_id: 1,
        date,
        chat_id: 7,
        peer_id: None,
        message: None,
        out: false,
        media: None,
        attachments: None,
    }
}

fn plain_chat(id: i64) -> Chat {
    Chat {
        id,
        title: format!("chat {id}"),
        emoji: None,
        description: None,
        space_id: None,
        is_public: None,
        last_msg_id: None,
        peer_id: None,
    }
}

#[test]
fn message_ids_come_back_in_order() {
    let messages = vec![plain_message(3, 10), plain_message(1, 20), plain_message(2, 30)];
    assert_eq!(collect_message_ids(&messages), vec![3, 1, 2]);
}

#[test]
fn time_filter_keeps_the_window() {
    let mut messages = vec![
        plain_message(1, 100),
        plain_message(2, 200),
        plain_message(3, 300),
        plain_message(4, 400),
    ];
    filter_messages_by_time(&mut messages, Some(150), Some(350));
    assert_eq!(collect_message_ids(&messages), vec![2, 3]);

    let mut all = vec![plain_message(1, 100), plain_message(2, 200)];
    filter_messages_by_time(&mut all, None, None);
    assert_eq!(collect_message_ids(&all), vec![1, 2]);
}

#[test]
fn chat_list_limits_take_a_window() {
    let payload = GetChatsResult {
        chats: vec![plain_chat(1), plain_chat(2), plain_chat(3), plain_chat(4)],
        dialogs: vec![],
        users: vec![],
        spaces: vec![],
        messages: vec![],
    };
    let limited = apply_chat_list_limits(payload, Some(2), Some(1));
    let ids: Vec<i64> = limited.chats.iter().map(|c| c.id).collect();
    assert_eq!(ids, vec![2, 3]);

    let payload = GetChatsResult {
        chats: vec![plain_chat(1), plain_chat(2)],
        dialogs: vec![],
        users: vec![],
        spaces: vec![],
        messages: vec![],
    };
    let unlimited = apply_chat_list_limits(payload, None, Some(5));
    assert!(unlimited.chats.is_empty());
}

#[test]
fn preview_text_collapses_whitespace() {
    assert_eq!(normalize_preview_text("  a\n\nb\r\tc  "), "a b c");
    assert_eq!(normalize_preview_text("plain"), "plain");
    assert_eq!(normalize_preview_text("   "), "");
}

#[test]
fn search_queries_are_normalized_or_rejected() {
    let queries = vec!["  hello   world ".to_string(), "".to_string(), " x ".to_string()];
    let normalized = normalize_search_queries(&queries).expect("queries remain");
    assert_eq!(normalized, vec!["hello world".to_string(), "x".to_string()]);

    let empty = vec!["   ".to_string(), "".to_string()];
    assert!(normalize_search_queries(&empty).is_err());
}

#[test]
fn translation_language_must_not_be_blank() {
    assert_eq!(normalize_translation_language(" en "), Ok("en".to_string()));
    assert!(normalize_translation_language("   ").is_err());
}

#[test]
fn mention_arguments_parse_and_validate() {
    assert_eq!(parse_mention_entities(&Vec::new()), Ok(None));

    let parsed = parse_mention_entities(&vec!["42:0:4".to_string(), " 7 : 2 : 3 ".to_string()])
        .expect("mentions parse")
        .expect("entities present");
    assert_eq!(parsed.entities.len(), 2);
    assert_eq!(parsed.entities[0].mention_user_id, Some(42));
    assert_eq!(parsed.entities[0].offset, 0);
    assert_eq!(parsed.entities[0].length, 4);
    assert!(matches!(parsed.entities[1].kind, MessageEntityKind::Mention));
    assert_eq!(parsed.entities[1].mention_user_id, Some(7));

    assert!(parse_mention_entities(&vec!["42:0".to_string()]).is_err());
    assert!(parse_mention_entities(&vec!["a:0:4".to_string()]).is_err());
    assert!(parse_mention_entities(&vec!["0:0:4".to_string()]).is_err());
    assert!(parse_mention_entities(&vec!["42:-1:4".to_string()]).is_err());
    assert!(parse_mention_entities(&vec!["42:0:0".to_string()]).is_err());
}

#[test]
fn peer_names_and_summaries_resolve() {
    let peer = InputPeer { kind: Some(InputPeerKind::User(2)) };
    let summary = peer_summary_from_input(&peer).expect("summary");
    assert_eq!(summary.peer_type, "user");
    assert_eq!(summary.id, 2);

    let users = vec![User {
        id: 2,
        first_name: Some("Ada".to_string()),
        last_name: None,
        username: None,
        email: None,
        phone_number: None,
        bot: None,
    }];
    let name = peer_name_from_input(&peer, &users, &Vec::new()).expect("name");
    assert_eq!(name, "Ada");
    let unknown = InputPeer { kind: Some(InputPeerKind::Chat(9)) };
    assert_eq!(
        peer_name_from_input(&unknown, &users, &Vec::new()),
        Some("chat 9".to_string())
    );

    let via = invite_target_from_args(None, &Some(" a@b ".to_string()), &None).expect("email");
    assert_eq!(via, InviteVia::Email("a@b".to_string()));
    assert!(invite_target_from_args(Some(1), &Some("a@b".to_string()), &None).is_err());
    assert!(invite_target_from_args(None, &None, &None).is_err());

    let contact = contact_from_args(Some(" a@b ".to_string()), None).expect("contact");
    assert_eq!(contact, Some(Contact::Email("a@b".to_string())));
    assert!(contact_from_args(Some("a".to_string()), Some("b".to_string())).is_err());

    let message = plain_message(12, 100);
    assert_eq!(
        resolve_download_path(&message, None, Some("out".to_string())),
        "out/message-12.bin"
    );
    assert_eq!(
        resolve_download_path(&message, Some("given.bin".to_string()), None),
        "given.bin"
    );
}
