use pr_commentator::github::{
    comment_path, comments_path, expect_status, mask_token, pulls_path, push_decimal,
    select_pr_for_branch, ApiError, CommentCreateRequest, GithubAPI, PullRequestSummary,
    STATUS_CREATED,
};
use pr_commentator::repo::{api_url_for_host, get_repo_info_from_path};

fn pr(number: u64, head: &str) -> PullRequestSummary {
    PullRequestSummary { number, head_ref: head.to_owned() }
}

fn api(token: &str) -> GithubAPI {
    GithubAPI::new("https://api.github.com/".to_owned(), token.to_owned())
}

#[test]
fn newest_pr_wins_among_equal_heads() {
    let prs = vec![pr(7, "main"), pr(42, "feature/foo"), pr(3, "feature/foo")];
    assert!(matches!(select_pr_for_branch(&prs, "feature/foo"), Ok(42)));
}

#[test]
fn first_entry_wins() {
    let prs = vec![pr(5, "x"), pr(4, "x")];
    assert!(matches!(select_pr_for_branch(&prs, "x"), Ok(5)));
}

#[test]
fn missing_branch_is_not_found() {
    let prs = vec![pr(7, "main"), pr(8, "feature/bar")];
    assert!(matches!(select_pr_for_branch(&prs, "feature/foo"), Err(ApiError::NotFound)));
    assert!(matches!(select_pr_for_branch(&Vec::new(), "feature/foo"), Err(ApiError::NotFound)));
}

#[test]
fn long_token_keeps_two_characters_each_side() {
    let mut t = "abcdefghij".to_owned();
    mask_token(&mut t);
    assert_eq!(t, "ab************ij");
}

#[test]
fn short_token_is_masked_entirely() {
    let mut t = "12345678".to_owned();
    mask_token(&mut t);
    assert_eq!(t, "************");
    let mut e = String::new();
    mask_token(&mut e);
    assert_eq!(e, "************");
}

#[test]
fn masked_token_of_api_hides_the_secret() {
    let a = api("ghp_SECRET-REDACTED");
    let m = a.masked_token();
    assert!(m.starts_with("gh"));
    assert!(m.contains("************"));
    assert!(!m.contains("SECRET"));
}

#[test]
fn authorization_header() {
    assert_eq!(api("abc").authorization(), "token abc");
}

#[test]
fn endpoint_joins_path_to_base() {
    let u = api("abc").endpoint("repos/o/r/pulls").ok().unwrap();
    assert_eq!(u, "https://api.github.com/repos/o/r/pulls");
    let bad = GithubAPI::new("not a url".to_owned(), "abc".to_owned());
    assert!(matches!(bad.endpoint("repos/o/r/pulls"), Err(ApiError::InvalidUrl)));
}

#[test]
fn request_paths() {
    assert_eq!(
        pulls_path("octo", "repo"),
        "repos/octo/repo/pulls?state=open&sort=updated&direction=desc"
    );
    assert_eq!(comments_path("octo", "repo", 42), "repos/octo/repo/issues/42/comments");
    assert_eq!(comment_path("octo", "repo", 1007), "repos/octo/repo/issues/comments/1007");
}

#[test]
fn decimal_digits() {
    let mut s = String::new();
    push_decimal(&mut s, 0);
    assert_eq!(s, "0");
    let mut s = "#".to_owned();
    push_decimal(&mut s, u64::MAX);
    assert_eq!(s, "#18446744073709551615");
}

#[test]
fn status_check() {
    assert!(expect_status(201, STATUS_CREATED, "created".to_owned()).is_ok());
    match expect_status(500, STATUS_CREATED, "boom".to_owned()) {
        Err(ApiError::UnexpectedStatus(d)) => assert_eq!(d, "boom"),
        _ => panic!("expected an unexpected status"),
    }
}

#[test]
fn comment_create_request_holds_body() {
    assert_eq!(CommentCreateRequest::new("hello".to_owned()).body, "hello");
}

#[test]
fn repo_from_url_path() {
    let info = get_repo_info_from_path("/octo/hello.git").unwrap();
    assert_eq!((info.org.as_str(), info.name.as_str()), ("octo", "hello"));
    let info = get_repo_info_from_path("/octo/hello/pulls/3").unwrap();
    assert_eq!((info.org.as_str(), info.name.as_str()), ("octo", "hello"));
    assert!(get_repo_info_from_path("/octo").is_none());
    assert!(get_repo_info_from_path("/octo/").is_none());
    assert!(get_repo_info_from_path("//hello").is_none());
    assert!(get_repo_info_from_path("/octo/.git").is_none());
    assert!(get_repo_info_from_path("").is_none());
}

#[test]
fn api_url_by_host() {
    assert_eq!(api_url_for_host("https", "github.com"), "https://api.github.com/");
    assert_eq!(api_url_for_host("https", "git.example.org"), "https://git.example.org/api/v3/");
}
