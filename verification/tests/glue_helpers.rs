use inline_cli::api::{input_media_from_upload, UploadFileResult, UploadFileType};
use inline_cli::auth::{AuthStore, SecretsFile};
use inline_cli::config::trim_trailing_slashes;
use inline_cli::output::{
    char_display_width, display_width, format_bytes, format_external_status,
    format_relative_date, member_role_label, pad_left, pad_right, resolve_json_format,
    truncate_display, user_display_name, user_summary, JsonFormat,
};
use inline_cli::peers::{input_peer_from_args, peer_label_from_input};
use inline_cli::protocol::{
    ExternalTaskStatus, InputMediaKind, InputPeerKind, Member, MemberRole, User,
};
use inline_cli::state::{LocalDb, LocalState};
use inline_cli::strutil::{eq_ignore_ascii_case, i64_to_dec, lowercase, str_contains, u64_to_dec};
use inline_cli::update::{
    bytes_to_hex, hex_to_bytes, parse_version, should_check_for_update, should_notify,
    version_lt, UPDATE_CHECK_INTERVAL_SECS,
};

fn plain_user(id: i64) -> User {
    User {
        id,
        first_name: None,
        last_name: None,
        username: None,
        email: None,
        phone_number: None,
        bot: None,
    }
}

#[test]
fn decimal_rendering_is_exact() {
    assert_eq!(u64_to_dec(0), "0");
    assert_eq!(u64_to_dec(90210), "90210");
    assert_eq!(i64_to_dec(-45), "-45");
    assert_eq!(i64_to_dec(i64::MIN), "-9223372036854775808");
}

#[test]
fn string_helpers_behave() {
    assert!(eq_ignore_ascii_case("AbC", "aBc"));
    assert!(!eq_ignore_ascii_case("abc", "abd"));
    assert!(str_contains("hello world", "lo wo"));
    assert!(!str_contains("hello", "world"));
    // the lowering wrapper really lowers
    assert_eq!(lowercase("MiXeD"), "mixed");
}

#[test]
fn format_bytes_uses_binary_units() {
    assert_eq!(format_bytes(-3), "0B");
    assert_eq!(format_bytes(512), "512B");
    assert_eq!(format_bytes(1024), "1.0KB");
    assert_eq!(format_bytes(1536), "1.5KB");
    assert_eq!(format_bytes(1024 * 1024), "1.0MB");
    assert_eq!(format_bytes(5 * 1024 * 1024 * 1024), "5.0GB");
}

#[test]
fn relative_dates_pick_the_largest_unit() {
    let now = 1_000_000_000i64;
    assert_eq!(format_relative_date(0, now), "-");
    assert_eq!(format_relative_date(now - 5, now), "now");
    assert_eq!(format_relative_date(now - 30, now), "30s ago");
    assert_eq!(format_relative_date(now - 120, now), "2m ago");
    assert_eq!(format_relative_date(now - 7200, now), "2h ago");
    assert_eq!(format_relative_date(now - 3 * 86400, now), "3d ago");
    assert_eq!(format_relative_date(now - 14 * 86400, now), "2w ago");
    assert_eq!(format_relative_date(now - 60 * 86400, now), "2mo ago");
    assert_eq!(format_relative_date(now - 400 * 86400, now), "1y ago");
    assert_eq!(format_relative_date(now + 120, now), "in 2m");
}

#[test]
fn padding_respects_display_width() {
    assert_eq!(display_width("abc"), 3);
    assert_eq!(char_display_width('a'), 1);
    assert_eq!(pad_right("ab", 5), "ab   ");
    assert_eq!(pad_left("ab", 5), "   ab");
    assert_eq!(pad_right("abcdef", 3), "abcdef");
    assert_eq!(truncate_display("abc", 5), "abc");
    assert_eq!(truncate_display("abcdefgh", 6), "abc...");
}

#[test]
fn json_format_resolution_prefers_compact() {
    assert_eq!(resolve_json_format(false, false), JsonFormat::Pretty);
    assert_eq!(resolve_json_format(true, false), JsonFormat::Pretty);
    assert_eq!(resolve_json_format(false, true), JsonFormat::Compact);
}

#[test]
fn display_names_fall_back_in_order() {
    let mut user = plain_user(9);
    user.first_name = Some("  Ada ".to_string());
    user.last_name = Some("Chen".to_string());
    assert_eq!(user_display_name(&user), "Ada Chen");

    let mut user = plain_user(9);
    user.username = Some(" ada ".to_string());
    assert_eq!(user_display_name(&user), "@ada");

    let mut user = plain_user(9);
    user.email = Some("ada@example.com".to_string());
    assert_eq!(user_display_name(&user), "ada@example.com");

    let user = plain_user(9);
    assert_eq!(user_display_name(&user), "user 9");

    let summary = user_summary(&plain_user(3));
    assert_eq!(summary.display_name, "user 3");
    assert_eq!(summary.user.id, 3);
}

#[test]
fn member_roles_and_task_statuses_have_labels() {
    let member = Member { id: 1, user_id: 2, role: Some(MemberRole::Admin), can_access_public_chats: true };
    assert_eq!(member_role_label(&member), "admin");
    let unknown = Member { id: 1, user_id: 2, role: None, can_access_public_chats: false };
    assert_eq!(member_role_label(&unknown), "-");
    assert_eq!(format_external_status(ExternalTaskStatus::InProgress), "in_progress");
    assert_eq!(format_external_status(ExternalTaskStatus::Unspecified), "unknown");
}

#[test]
fn upload_media_ids_resolve_in_priority_order() {
    let upload = UploadFileResult {
        file_unique_id: "u".to_string(),
        photo_id: Some(4),
        video_id: Some(5),
        document_id: None,
    };
    let media = input_media_from_upload(&upload).expect("photo id present");
    assert_eq!(media.media, Some(InputMediaKind::Photo(4)));

    let none = UploadFileResult {
        file_unique_id: "u".to_string(),
        photo_id: None,
        video_id: None,
        document_id: None,
    };
    assert!(input_media_from_upload(&none).is_err());
    assert_eq!(UploadFileType::Video.as_str(), "video");
}

#[test]
fn peers_resolve_from_arguments() {
    let peer = input_peer_from_args(Some(7), None).expect("chat peer");
    assert_eq!(peer.kind, Some(InputPeerKind::Chat(7)));
    assert_eq!(peer_label_from_input(&peer), "chat 7");
    assert!(input_peer_from_args(Some(1), Some(2)).is_err());
    assert!(input_peer_from_args(None, None).is_err());
}

#[test]
fn auth_store_selects_the_right_token() {
    let store = AuthStore::new("secrets.json".to_string(), "https://api".to_string());

    // a non-blank environment token wins
    let chosen = store.select_token(Some("env-token".to_string()), None);
    assert_eq!(chosen, Some("env-token".to_string()));

    // a blank environment token falls through to the file
    let file = SecretsFile {
        token: Some("file-token".to_string()),
        api_base_url: Some("https://api".to_string()),
        updated_at: None,
    };
    let chosen = store.select_token(Some("   ".to_string()), Some(file));
    assert_eq!(chosen, Some("file-token".to_string()));

    // a file recorded for another API base URL is ignored
    let foreign = SecretsFile {
        token: Some("file-token".to_string()),
        api_base_url: Some("https://elsewhere".to_string()),
        updated_at: None,
    };
    assert_eq!(store.select_token(None, Some(foreign)), None);

    let written = store.build_secrets("tok".to_string(), 123);
    assert_eq!(written.token, Some("tok".to_string()));
    assert_eq!(written.updated_at, Some(123));
}

#[test]
fn local_state_updates_stamp_url_and_time() {
    let db = LocalDb::new("state.json".to_string(), "https://api".to_string());
    let state = db.set_current_user(LocalState::empty(), &plain_user(11), 500);
    assert_eq!(state.current_user.as_ref().map(|u| u.id), Some(11));
    assert_eq!(state.api_base_url, Some("https://api".to_string()));
    assert_eq!(state.updated_at, Some(500));

    let cleared = db.clear_current_user(state, 600);
    assert!(cleared.current_user.is_none());
    assert_eq!(cleared.updated_at, Some(600));

    // loaded state recorded for another API base URL is discarded
    let mut foreign = LocalState::empty();
    foreign.api_base_url = Some("https://elsewhere".to_string());
    foreign.updated_at = Some(1);
    let accepted = db.accept_loaded_state(foreign);
    assert!(accepted.api_base_url.is_none());
    assert!(accepted.updated_at.is_none());
}

#[test]
fn update_decisions_follow_interval_and_version() {
    assert!(should_check_for_update(None, 100));
    assert!(!should_check_for_update(Some(100), 100 + UPDATE_CHECK_INTERVAL_SECS - 1));
    assert!(should_check_for_update(Some(100), 100 + UPDATE_CHECK_INTERVAL_SECS));

    assert!(should_notify(&None, "1.2.3"));
    assert!(!should_notify(&Some("1.2.3".to_string()), "1.2.3"));
    assert!(should_notify(&Some("1.2.2".to_string()), "1.2.3"));

    // the semver wrapper extracts the numeric key
    assert_eq!(parse_version("1.2.3"), Some((1, 2, 3, false)));
    assert_eq!(parse_version("1.2.3-alpha.1"), Some((1, 2, 3, true)));
    assert_eq!(parse_version("not a version"), None);
    assert!(version_lt((1, 2, 3, false), (1, 2, 4, false)));
    assert!(version_lt((1, 2, 3, true), (1, 2, 3, false)));
    assert!(!version_lt((2, 0, 0, false), (1, 9, 9, false)));
}

#[test]
fn checksums_render_as_lowercase_hex() {
    assert_eq!(bytes_to_hex(&vec![]), "");
    assert_eq!(bytes_to_hex(&vec![0x00, 0xAB, 0xFF, 0x10]), "00abff10");
}

#[test]
fn hex_text_parses_back_to_bytes() {
    assert_eq!(hex_to_bytes("00abff10"), Some(vec![0x00, 0xAB, 0xFF, 0x10]));
    assert_eq!(hex_to_bytes("00ABff10"), Some(vec![0x00, 0xAB, 0xFF, 0x10]));
    assert_eq!(hex_to_bytes(""), Some(Vec::new()));
    assert_eq!(hex_to_bytes("abc"), None);
    assert_eq!(hex_to_bytes("zz"), None);
    // rendering then parsing gives the bytes back
    let bytes = vec![1u8, 2, 3, 254];
    assert_eq!(hex_to_bytes(&bytes_to_hex(&bytes)), Some(bytes));
}

#[test]
fn urls_lose_their_trailing_slashes() {
    assert_eq!(trim_trailing_slashes("https://api.example/v1///"), "https://api.example/v1");
    assert_eq!(trim_trailing_slashes("https://api.example"), "https://api.example");
    assert_eq!(trim_trailing_slashes(""), "");
}
