use pr_commentator::github::Comment;
use pr_commentator::metadata::add_metadata_to_comment;
use pr_commentator::overwrite::{
    plan_comment, select_comment_to_overwrite, CommentAction, CommentOverwriteMode,
};

fn unmanaged(id: u64) -> Comment {
    Comment { id, body: "Looks good to me".to_owned() }
}

fn managed(id: u64, identifier: Option<&str>) -> Comment {
    let ident = identifier.map(|s| s.to_owned());
    Comment { id, body: add_metadata_to_comment("status", &ident) }
}

fn malformed(id: u64) -> Comment {
    Comment { id, body: "<!-- pr_commentator : id=X".to_owned() }
}

fn some(s: &str) -> Option<String> {
    Some(s.to_owned())
}

#[test]
fn never_selects_nothing() {
    let cs = vec![managed(1, None), managed(2, Some("A")), unmanaged(3)];
    assert_eq!(select_comment_to_overwrite(&cs, CommentOverwriteMode::Never, &None), None);
    assert_eq!(select_comment_to_overwrite(&cs, CommentOverwriteMode::Never, &some("A")), None);
}

#[test]
fn always_picks_last_managed() {
    let cs = vec![unmanaged(1), managed(2, Some("A")), managed(3, Some("B"))];
    assert_eq!(select_comment_to_overwrite(&cs, CommentOverwriteMode::Always, &None), Some(3));
}

#[test]
fn always_skips_trailing_unmanaged_and_malformed() {
    let cs = vec![managed(2, None), unmanaged(4), malformed(5)];
    assert_eq!(select_comment_to_overwrite(&cs, CommentOverwriteMode::Always, &None), Some(2));
}

#[test]
fn using_identifier_matches_exactly() {
    let cs = vec![managed(10, Some("X")), managed(11, Some("Y")), malformed(12)];
    assert_eq!(
        select_comment_to_overwrite(&cs, CommentOverwriteMode::UsingIdentifier, &some("X")),
        Some(10)
    );
    assert_eq!(
        select_comment_to_overwrite(&cs, CommentOverwriteMode::UsingIdentifier, &some("Z")),
        None
    );
}

#[test]
fn using_identifier_absent_matches_absent() {
    let cs = vec![managed(1, None), managed(2, Some("A"))];
    assert_eq!(
        select_comment_to_overwrite(&cs, CommentOverwriteMode::UsingIdentifier, &None),
        Some(1)
    );
}

#[test]
fn empty_list_selects_nothing() {
    assert_eq!(select_comment_to_overwrite(&Vec::new(), CommentOverwriteMode::Always, &None), None);
}

#[test]
fn mode_names_and_default() {
    assert_eq!(CommentOverwriteMode::from_name("Never"), Some(CommentOverwriteMode::Never));
    assert_eq!(CommentOverwriteMode::from_name("Always"), Some(CommentOverwriteMode::Always));
    assert_eq!(
        CommentOverwriteMode::from_name("UsingIdentifier"),
        Some(CommentOverwriteMode::UsingIdentifier)
    );
    assert_eq!(CommentOverwriteMode::from_name("always"), None);
    assert_eq!(CommentOverwriteMode::default(), CommentOverwriteMode::Always);
}

#[test]
fn identifier_implies_using_identifier() {
    assert_eq!(
        CommentOverwriteMode::Never.effective(&some("x")),
        CommentOverwriteMode::UsingIdentifier
    );
    assert_eq!(CommentOverwriteMode::Never.effective(&None), CommentOverwriteMode::Never);
    assert!(!CommentOverwriteMode::Never.needs_listing());
    assert!(CommentOverwriteMode::Always.needs_listing());
}

#[test]
fn run_with_no_prior_comment_creates() {
    let comments: Vec<Comment> = Vec::new();
    let target = select_comment_to_overwrite(&comments, CommentOverwriteMode::Always, &None);
    match plan_comment(42, target, "All checks passed", &None) {
        CommentAction::Create { issue_number, body } => {
            assert_eq!(issue_number, 42);
            assert!(body.contains("All checks passed"));
            assert_eq!(body, "<!-- pr_commentator : none -->\nAll checks passed");
        }
        CommentAction::Edit { .. } => panic!("no edit expected"),
    }
}

#[test]
fn run_with_matching_prior_comment_edits() {
    let id = some("build-7");
    let comments = vec![managed(901, Some("build-7"))];
    let mode = CommentOverwriteMode::Always.effective(&id);
    let target = select_comment_to_overwrite(&comments, mode, &id);
    match plan_comment(42, target, "Build 7: green", &id) {
        CommentAction::Edit { comment_id, body } => {
            assert_eq!(comment_id, 901);
            assert_eq!(body, "<!-- pr_commentator : id=build-7 -->\nBuild 7: green");
        }
        CommentAction::Create { .. } => panic!("no create expected"),
    }
}

#[test]
fn malformed_and_unmanaged_comments_change_nothing() {
    let base = vec![managed(1, Some("X")), managed(2, Some("Y"))];
    let padded = vec![malformed(7), managed(1, Some("X")), unmanaged(8), managed(2, Some("Y")), malformed(9)];
    for mode in [CommentOverwriteMode::Always, CommentOverwriteMode::UsingIdentifier] {
        let id = some("X");
        assert_eq!(
            select_comment_to_overwrite(&base, mode, &id),
            select_comment_to_overwrite(&padded, mode, &id)
        );
    }
    assert_eq!(select_comment_to_overwrite(&padded, CommentOverwriteMode::Always, &None), Some(2));
}
