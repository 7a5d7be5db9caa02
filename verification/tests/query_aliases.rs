use inline_cli::query::{normalize_aliases, parse_path, projection_label, PathSegment, QueryContext};
use inline_cli::query::JsonQueryOptions;

#[test]
fn rewrites_aliases_in_jq_field_paths() {
    let input = ".u[] | .fn + \" \" + (.ln // \"\")";
    let output = normalize_aliases(input, QueryContext::Jq);
    assert_eq!(
        output,
        ".users[] | .first_name + \" \" + (.last_name // \"\")"
    );
}

#[test]
fn does_not_rewrite_strings_comments_or_mixed_case_tokens() {
    let input = ".u[] | .Fn # .fn should stay in comment\n| \".fn\" | .fn";
    let output = normalize_aliases(input, QueryContext::Jq);
    assert_eq!(
        output,
        ".users[] | .Fn # .fn should stay in comment\n| \".fn\" | .first_name"
    );
}

#[test]
fn preserves_quoted_bracket_keys() {
    let input = "users[\"fn\"].ln";
    let output = normalize_aliases(input, QueryContext::QueryPath);
    assert_eq!(output, "users[\"fn\"].last_name");
}

#[test]
fn rewrites_root_and_nested_path_segments() {
    let input = "u[].fn";
    let output = normalize_aliases(input, QueryContext::QueryPath);
    assert_eq!(output, "users[].first_name");
}

#[test]
fn keeps_long_form_paths_backward_compatible() {
    let input = "users[].first_name";
    let output = normalize_aliases(input, QueryContext::QueryPath);
    assert_eq!(output, "users[].first_name");
}

#[test]
fn jsonpath_context_rewrites_root_tokens() {
    let output = normalize_aliases("$.u[0].fn", QueryContext::JsonPath);
    assert_eq!(output, "$.users[0].first_name");
}

#[test]
fn sort_and_projection_contexts_use_path_rules() {
    assert_eq!(normalize_aliases("dn", QueryContext::SortPath), "display_name");
    assert_eq!(normalize_aliases("fn", QueryContext::FieldProjection), "first_name");
}

#[test]
fn parse_path_reads_keys_indexes_and_wildcards() {
    let segs = parse_path("$.users[0].name").expect("path should parse");
    assert_eq!(
        segs,
        vec![
            PathSegment::Key("users".to_string()),
            PathSegment::Index(0),
            PathSegment::Key("name".to_string()),
        ]
    );

    let segs = parse_path("users[*]").expect("wildcard should parse");
    assert_eq!(
        segs,
        vec![PathSegment::Key("users".to_string()), PathSegment::Wildcard]
    );

    let segs = parse_path("users[]").expect("empty bracket should parse");
    assert_eq!(
        segs,
        vec![PathSegment::Key("users".to_string()), PathSegment::Wildcard]
    );

    let segs = parse_path("users['fn']").expect("quoted key should parse");
    assert_eq!(
        segs,
        vec![
            PathSegment::Key("users".to_string()),
            PathSegment::Key("fn".to_string()),
        ]
    );
}

#[test]
fn parse_path_rejects_bad_input() {
    assert!(parse_path("").is_err());
    assert!(parse_path("   ").is_err());
    assert!(parse_path("users[").is_err());
    assert!(parse_path("users[1+2]").is_err());
    assert!(parse_path("users!").is_err());
}

#[test]
fn projection_label_takes_last_key() {
    let segs = parse_path("users[0].first_name").expect("path should parse");
    assert_eq!(projection_label("users[0].first_name", &segs), "first_name");

    let segs = parse_path("users[0]").expect("path should parse");
    assert_eq!(projection_label("users[0]", &segs), "users");

    let segs = parse_path("[0]").expect("path should parse");
    assert_eq!(projection_label("[0]", &segs), "[0]");
}

#[test]
fn has_transforms_reflects_any_option() {
    let empty = JsonQueryOptions::new();
    assert!(!empty.has_transforms());

    let mut with_sort = JsonQueryOptions::new();
    with_sort.sort_path = Some("display_name".to_string());
    assert!(with_sort.has_transforms());

    let mut with_fields = JsonQueryOptions::new();
    with_fields.fields = vec!["id".to_string()];
    assert!(with_fields.has_transforms());
}
