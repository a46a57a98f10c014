//! What the library sends to and reads from the code-hosting API.
use vstd::prelude::*;
use vstd::string::{StrSliceExecFns, StringExecFns};
use crate::text::{chars_of, opt_view, push_char};

verus! {

broadcast use vstd::string::group_string_axioms;

/// The status the API answers a created comment with.
pub const STATUS_CREATED: u16 = 201;

/// The status the API answers an edited comment with.
pub const STATUS_OK: u16 = 200;

/// The body of a request that creates or edits a comment.
pub struct CommentCreateRequest {
    pub body: String,
}

/// One open pull request as the listing gives it: its number and the name of
/// its head branch.
pub struct PullRequestSummary {
    pub number: u64,
    pub head_ref: String,
}

/// One comment of a pull request's conversation.
pub struct Comment {
    pub id: u64,
    pub body: String,
}

/// Why a call to the API failed.
#[derive(Debug)]
pub enum ApiError {
    /// The request could not be sent or its answer not read.
    Transport(String),
    /// The answer came with another status than the one expected.
    UnexpectedStatus(String),
    /// No open pull request has the branch as its head.
    NotFound,
    /// The endpoint could not be joined to the base URL.
    InvalidUrl,
}

/// Where the API is and the token that authenticates to it. The base URL is
/// kept as its serialized text.
pub struct GithubAPI {
    pub base_url: String,
    pub token: String,
}

pub open spec fn stars() -> Seq<char> {
    seq!['*', '*', '*', '*', '*', '*', '*', '*', '*', '*', '*', '*']
}

/// A token as it may be shown: its first and last two characters when it has
/// more than eight, nothing of it otherwise.
pub open spec fn masked(t: Seq<char>) -> Seq<char> {
    if t.len() > 8 {
        t.subrange(0, 2) + stars() + t.subrange(t.len() - 2, t.len() as int)
    } else {
        stars()
    }
}

pub open spec fn digit_chars() -> Seq<char> {
    seq!['0', '1', '2', '3', '4', '5', '6', '7', '8', '9']
}

/// The decimal digits of `n`.
pub open spec fn decimal(n: nat) -> Seq<char>
    decreases n,
{
    if n < 10 {
        seq![digit_chars()[n as int]]
    } else {
        decimal(n / 10).push(digit_chars()[(n % 10) as int])
    }
}

/// The position of the first pull request whose head is `branch`.
pub open spec fn first_pr_at(prs: Seq<PullRequestSummary>, branch: Seq<char>, i: int) -> Option<int>
    decreases prs.len() - i,
{
    if i < 0 || i >= prs.len() {
        None
    } else if prs[i].head_ref@ == branch {
        Some(i)
    } else {
        first_pr_at(prs, branch, i + 1)
    }
}

/// The pull request that a listing sorted by recency, newest first, gives for
/// a branch: the number of its first entry with that head.
pub open spec fn pr_for_branch(prs: Seq<PullRequestSummary>, branch: Seq<char>) -> Option<u64> {
    match first_pr_at(prs, branch, 0) {
        Some(i) => Some(prs[i].number),
        None => None,
    }
}

pub open spec fn pulls_path_spec(owner: Seq<char>, repo: Seq<char>) -> Seq<char> {
    "repos/"@ + owner + "/"@ + repo + "/pulls?state=open&sort=updated&direction=desc"@
}

pub open spec fn comments_path_spec(owner: Seq<char>, repo: Seq<char>, issue: u64) -> Seq<char> {
    "repos/"@ + owner + "/"@ + repo + "/issues/"@ + decimal(issue as nat) + "/comments"@
}

pub open spec fn comment_path_spec(owner: Seq<char>, repo: Seq<char>, id: u64) -> Seq<char> {
    "repos/"@ + owner + "/"@ + repo + "/issues/comments/"@ + decimal(id as nat)
}

proof fn lemma_first_pr_from(prs: Seq<PullRequestSummary>, branch: Seq<char>, k: int, i: int)
    requires
        0 <= k <= i < prs.len(),
        prs[i].head_ref@ == branch,
        forall|j: int| k <= j < i ==> prs[j].head_ref@ != branch,
    ensures
        first_pr_at(prs, branch, k) == Some(i),
    decreases i - k,
{
    if k < i {
        lemma_first_pr_from(prs, branch, k + 1, i);
    }
}

proof fn lemma_no_pr_from(prs: Seq<PullRequestSummary>, branch: Seq<char>, k: int)
    requires
        0 <= k,
        forall|j: int| 0 <= j < prs.len() ==> prs[j].head_ref@ != branch,
    ensures
        first_pr_at(prs, branch, k) is None,
    decreases prs.len() - k,
{
    if k < prs.len() {
        lemma_no_pr_from(prs, branch, k + 1);
    }
}

/// In a listing sorted by recency, newest first, the first entry whose head is
/// the branch decides: every later entry with the same head, less recently
/// updated, loses to it.
pub proof fn lemma_newest_pr_wins(prs: Seq<PullRequestSummary>, branch: Seq<char>, i: int)
    requires
        0 <= i < prs.len(),
        prs[i].head_ref@ == branch,
        forall|j: int| 0 <= j < i ==> prs[j].head_ref@ != branch,
    ensures
        pr_for_branch(prs, branch) == Some(prs[i].number),
        forall|j: int|
            i < j < prs.len() && prs[j].head_ref@ == branch && prs[j].number != prs[i].number
                ==> pr_for_branch(prs, branch) != Some(prs[j].number),
{
    lemma_first_pr_from(prs, branch, 0, i);
}

/// A listing where no entry has the branch as its head resolves to nothing,
/// which the lookup reports as `NotFound`.
pub proof fn lemma_absent_branch_not_found(prs: Seq<PullRequestSummary>, branch: Seq<char>)
    requires
        forall|j: int| 0 <= j < prs.len() ==> prs[j].head_ref@ != branch,
    ensures
        pr_for_branch(prs, branch) is None,
{
    lemma_no_pr_from(prs, branch, 0);
}

/// The serialized URL that `input` resolves to against the URL `base`, if
/// both parse.
pub uninterp spec fn joined(base: Seq<char>, input: Seq<char>) -> Option<Seq<char>>;

/// Relies on `url::Url::join` (with `Url::parse` of the base and the URL's
/// serialization around it): resolves `input` against `base`; the result
/// depends on the two texts alone.
#[verifier::external_body]
fn join_str(base: &str, input: &str) -> (r: Option<String>)
    ensures
        opt_view(r) == joined(base@, input@),
{
    url::Url::parse(base).and_then(|b| b.join(input)).ok().map(|u| u.to_string())
}

/// Masks a token in place so that it can be shown.
pub fn mask_token(token: &mut String)
    ensures
        final(token)@ == masked(old(token)@),
{
    let n = token.as_str().unicode_len();
    let mut out = String::new();
    if n > 8 {
        out.append(token.as_str().substring_char(0, 2));
        append_stars(&mut out);
        out.append(token.as_str().substring_char(n - 2, n));
    } else {
        append_stars(&mut out);
    }
    assert(out@ =~= masked(old(token)@));
    *token = out;
}

fn append_stars(out: &mut String)
    ensures
        final(out)@ == old(out)@ + stars(),
{
    let ghost start = out@;
    let mut k: usize = 0;
    while k < 12
        invariant
            k <= 12,
            out@ == start + stars().subrange(0, k as int),
        decreases 12 - k,
    {
        push_char(out, '*');
        assert(stars().subrange(0, k + 1) =~= stars().subrange(0, k as int).push('*'));
        k = k + 1;
    }
    assert(stars().subrange(0, 12) =~= stars());
}

/// Appends the decimal digits of `n`.
pub fn push_decimal(out: &mut String, n: u64)
    ensures
        final(out)@ == old(out)@ + decimal(n as nat),
    decreases n,
{
    let digits = vec!['0', '1', '2', '3', '4', '5', '6', '7', '8', '9'];
    assert(digits@ =~= digit_chars());
    if n >= 10 {
        push_decimal(out, n / 10);
    }
    push_char(out, digits[(n % 10) as usize]);
    assert(out@ =~= old(out)@ + decimal(n as nat));
}

/// The number of the pull request whose head is `branch`, from a listing of
/// the open pull requests sorted by recency, newest first: the first entry
/// with that head wins.
pub fn select_pr_for_branch(prs: &Vec<PullRequestSummary>, branch: &str) -> (r: Result<u64, ApiError>)
    ensures
        match pr_for_branch(prs@, branch@) {
            Some(n) => r matches Ok(m) && m == n,
            None => r matches Err(ApiError::NotFound),
        },
{
    let wanted = String::from_str(branch);
    let mut i: usize = 0;
    while i < prs.len()
        invariant
            i <= prs@.len(),
            wanted@ == branch@,
            first_pr_at(prs@, branch@, 0) == first_pr_at(prs@, branch@, i as int),
        decreases prs@.len() - i,
    {
        if prs[i].head_ref == wanted {
            return Ok(prs[i].number);
        }
        i = i + 1;
    }
    Err(ApiError::NotFound)
}

/// Success when the API answered with the expected status, else the error
/// that carries the answer's description.
pub fn expect_status(status: u16, expected: u16, response: String) -> (r: Result<(), ApiError>)
    ensures
        status == expected <==> r is Ok,
        status != expected ==> (r matches Err(ApiError::UnexpectedStatus(d)) && d == response),
{
    if status == expected {
        Ok(())
    } else {
        Err(ApiError::UnexpectedStatus(response))
    }
}

impl CommentCreateRequest {
    pub fn new(body: String) -> (r: CommentCreateRequest)
        ensures
            r.body == body,
    {
        CommentCreateRequest { body }
    }
}

impl GithubAPI {
    pub fn new(base_url: String, token: String) -> (r: GithubAPI)
        ensures
            r.base_url == base_url,
            r.token == token,
    {
        GithubAPI { base_url, token }
    }

    /// The token as it may be shown in diagnostics.
    pub fn masked_token(&self) -> (r: String)
        ensures
            r@ == masked(self.token@),
    {
        let mut t = self.token.clone();
        mask_token(&mut t);
        t
    }

    /// The value of the `Authorization` header of every request.
    pub fn authorization(&self) -> (r: String)
        ensures
            r@ == "token "@ + self.token@,
    {
        let mut r = String::from_str("token ");
        r.append(self.token.as_str());
        r
    }

    /// The URL of an endpoint of the API, `path` resolved against the base URL.
    pub fn endpoint(&self, path: &str) -> (r: Result<String, ApiError>)
        ensures
            match joined(self.base_url@, path@) {
                Some(u) => r matches Ok(s) && s@ == u,
                None => r matches Err(ApiError::InvalidUrl),
            },
    {
        match join_str(self.base_url.as_str(), path) {
            Some(u) => Ok(u),
            None => Err(ApiError::InvalidUrl),
        }
    }
}

fn repo_prefix(owner: &str, repo: &str) -> (r: String)
    ensures
        r@ == "repos/"@ + owner@ + "/"@ + repo@,
{
    let mut r = String::from_str("repos/");
    r.append(owner);
    r.append("/");
    r.append(repo);
    r
}

/// The path that lists the open pull requests, most recently updated first.
pub fn pulls_path(owner: &str, repo: &str) -> (r: String)
    ensures
        r@ == pulls_path_spec(owner@, repo@),
{
    let mut r = repo_prefix(owner, repo);
    r.append("/pulls?state=open&sort=updated&direction=desc");
    r
}

/// The path that lists, and creates, the comments of an issue or pull request.
pub fn comments_path(owner: &str, repo: &str, issue_number: u64) -> (r: String)
    ensures
        r@ == comments_path_spec(owner@, repo@, issue_number),
{
    let mut r = repo_prefix(owner, repo);
    r.append("/issues/");
    push_decimal(&mut r, issue_number);
    r.append("/comments");
    r
}

/// The path of one comment, where it is edited.
pub fn comment_path(owner: &str, repo: &str, comment_id: u64) -> (r: String)
    ensures
        r@ == comment_path_spec(owner@, repo@, comment_id),
{
    let mut r = repo_prefix(owner, repo);
    r.append("/issues/comments/");
    push_decimal(&mut r, comment_id);
    r
}

} // verus!
