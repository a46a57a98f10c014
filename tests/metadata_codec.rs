use pr_commentator::metadata::{add_metadata_to_comment, get_metadata_from_comment, DecodeError, TAG};

fn round_trip(body: &str, identifier: Option<&str>) {
    let id = identifier.map(|s| s.to_owned());
    let encoded = add_metadata_to_comment(body, &id);
    assert!(encoded.ends_with(body));
    assert_eq!(get_metadata_from_comment(&encoded), Some(Ok(id)));
}

#[test]
fn encode_without_identifier_is_exact() {
    assert_eq!(add_metadata_to_comment("hi", &None), "<!-- pr_commentator : none -->\nhi");
}

#[test]
fn encode_with_identifier_is_exact() {
    let id = Some("build-7".to_owned());
    assert_eq!(
        add_metadata_to_comment("Build passed", &id),
        "<!-- pr_commentator : id=build-7 -->\nBuild passed"
    );
}

#[test]
fn encode_escapes_backslash_and_closing_bracket() {
    let id = Some("a>b\\c".to_owned());
    assert_eq!(add_metadata_to_comment("", &id), "<!-- pr_commentator : id=a\\gb\\\\c -->\n");
}

#[test]
fn round_trip_without_identifier() {
    round_trip("Build #12 passed", None);
}

#[test]
fn round_trip_with_identifier() {
    round_trip("Build #12 passed", Some("build-7"));
}

#[test]
fn round_trip_empty_identifier_differs_from_absent() {
    round_trip("text", Some(""));
    let encoded = add_metadata_to_comment("text", &Some(String::new()));
    assert_ne!(get_metadata_from_comment(&encoded), Some(Ok(None)));
}

#[test]
fn round_trip_unicode_and_tricky_identifiers() {
    round_trip("héllo wörld ✓ 日本語\n\n| a | b |", Some("ïd ✓"));
    round_trip("", Some("-->"));
    round_trip("x", Some("\\g\\\\>"));
    round_trip("", None);
}

#[test]
fn round_trip_body_holding_the_tag() {
    let body = format!("quoted {}id=other --> here", TAG);
    round_trip(&body, Some("mine"));
    round_trip(&body, None);
}

#[test]
fn foreign_text_is_not_managed() {
    assert_eq!(get_metadata_from_comment(""), None);
    assert_eq!(get_metadata_from_comment("Nice work, merging now."), None);
    assert_eq!(get_metadata_from_comment("<!-- a plain html comment -->"), None);
    assert_eq!(get_metadata_from_comment("<!-- pr_commentator :none -->"), None);
}

#[test]
fn truncated_marker_is_an_error() {
    assert_eq!(
        get_metadata_from_comment("hello <!-- pr_commentator : id=abc"),
        Some(Err(DecodeError::Unterminated))
    );
    assert_eq!(get_metadata_from_comment(TAG), Some(Err(DecodeError::Unterminated)));
}

#[test]
fn garbled_markers_are_errors() {
    assert_eq!(
        get_metadata_from_comment("<!-- pr_commentator : none>"),
        Some(Err(DecodeError::MissingCommentEnd))
    );
    assert_eq!(
        get_metadata_from_comment("<!-- pr_commentator : bogus -->"),
        Some(Err(DecodeError::UnknownPayload))
    );
    assert_eq!(
        get_metadata_from_comment("<!-- pr_commentator : id=a\\x -->"),
        Some(Err(DecodeError::InvalidEscape))
    );
}

#[test]
fn decode_reads_marker_after_leading_text() {
    assert_eq!(
        get_metadata_from_comment("intro\n<!-- pr_commentator : id=X -->\nrest"),
        Some(Ok(Some("X".to_owned())))
    );
}
