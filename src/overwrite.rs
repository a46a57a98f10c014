//! Which earlier managed comment, if any, a new one replaces, and what a run
//! sends in the end.
use vstd::prelude::*;
use vstd::string::StringExecFns;
use crate::github::Comment;
use crate::metadata::{add_metadata_to_comment, decode, encode, get_metadata_from_comment};
use crate::text::opt_view;

verus! {

broadcast use vstd::string::group_string_axioms;

/// Whether an earlier managed comment is overwritten.
#[derive(Debug, Clone, Copy, PartialEq, Eq, Structural)]
pub enum CommentOverwriteMode {
    /// Never look for an earlier comment: always add a new one.
    Never,
    /// Overwrite the latest managed comment.
    Always,
    /// Overwrite the latest managed comment whose identifier is the given one.
    UsingIdentifier,
}

impl Default for CommentOverwriteMode {
    fn default() -> (r: CommentOverwriteMode)
        ensures
            r == CommentOverwriteMode::Always,
    {
        CommentOverwriteMode::Always
    }
}

/// The mode a name stands for, if any.
pub open spec fn mode_named(s: Seq<char>) -> Option<CommentOverwriteMode> {
    if s == "Never"@ {
        Some(CommentOverwriteMode::Never)
    } else if s == "Always"@ {
        Some(CommentOverwriteMode::Always)
    } else if s == "UsingIdentifier"@ {
        Some(CommentOverwriteMode::UsingIdentifier)
    } else {
        None
    }
}

/// A supplied identifier implies `UsingIdentifier`, whatever mode was asked.
pub open spec fn effective_mode_spec(
    mode: CommentOverwriteMode,
    identifier: Option<Seq<char>>,
) -> CommentOverwriteMode {
    if identifier is Some {
        CommentOverwriteMode::UsingIdentifier
    } else {
        mode
    }
}

/// A comment is a candidate when its marker reads and fits the mode.
pub open spec fn is_candidate(
    body: Seq<char>,
    mode: CommentOverwriteMode,
    identifier: Option<Seq<char>>,
) -> bool {
    match decode(body) {
        Some(Ok(found)) => match mode {
            CommentOverwriteMode::Never => false,
            CommentOverwriteMode::Always => true,
            CommentOverwriteMode::UsingIdentifier => found == identifier,
        },
        _ => false,
    }
}

/// The id of the last candidate among the first `n` comments.
pub open spec fn last_candidate(
    cs: Seq<Comment>,
    n: int,
    mode: CommentOverwriteMode,
    identifier: Option<Seq<char>>,
) -> Option<u64>
    decreases n,
{
    if n <= 0 || n > cs.len() {
        None
    } else if is_candidate(cs[n - 1].body@, mode, identifier) {
        Some(cs[n - 1].id)
    } else {
        last_candidate(cs, n - 1, mode, identifier)
    }
}

/// The comment to overwrite: none under `Never`, else the last candidate in
/// listing order.
pub open spec fn overwrite_target(
    cs: Seq<Comment>,
    mode: CommentOverwriteMode,
    identifier: Option<Seq<char>>,
) -> Option<u64> {
    if mode == CommentOverwriteMode::Never {
        None
    } else {
        last_candidate(cs, cs.len() as int, mode, identifier)
    }
}

proof fn lemma_last_candidate_from(
    cs: Seq<Comment>,
    n: int,
    mode: CommentOverwriteMode,
    identifier: Option<Seq<char>>,
    k: int,
)
    requires
        0 <= k < n <= cs.len(),
        is_candidate(cs[k].body@, mode, identifier),
        forall|j: int| k < j < cs.len() ==> !is_candidate(cs[j].body@, mode, identifier),
    ensures
        last_candidate(cs, n, mode, identifier) == Some(cs[k].id),
    decreases n,
{
    if n - 1 > k {
        lemma_last_candidate_from(cs, n - 1, mode, identifier, k);
    }
}

/// Outside `Never`, the comment overwritten is the last candidate in listing
/// order: one that decodes to a marker fitting the mode, every comment after
/// it (unmanaged, malformed, or with another identifier) being passed over.
pub proof fn lemma_last_candidate_wins(
    cs: Seq<Comment>,
    mode: CommentOverwriteMode,
    identifier: Option<Seq<char>>,
    k: int,
)
    requires
        mode != CommentOverwriteMode::Never,
        0 <= k < cs.len(),
        is_candidate(cs[k].body@, mode, identifier),
        forall|j: int| k < j < cs.len() ==> !is_candidate(cs[j].body@, mode, identifier),
    ensures
        overwrite_target(cs, mode, identifier) == Some(cs[k].id),
{
    lemma_last_candidate_from(cs, cs.len() as int, mode, identifier, k);
}

/// Under `Never` no comment is chosen, whatever the list holds.
pub proof fn lemma_never_overwrites(cs: Seq<Comment>, identifier: Option<Seq<char>>)
    ensures
        overwrite_target(cs, CommentOverwriteMode::Never, identifier) is None,
{
}

proof fn lemma_last_candidate_prefix(
    a: Seq<Comment>,
    b: Seq<Comment>,
    n: int,
    mode: CommentOverwriteMode,
    identifier: Option<Seq<char>>,
)
    requires
        0 <= n <= a.len(),
        n <= b.len(),
        forall|i: int| 0 <= i < n ==> a[i] == b[i],
    ensures
        last_candidate(a, n, mode, identifier) == last_candidate(b, n, mode, identifier),
    decreases n,
{
    if n > 0 {
        lemma_last_candidate_prefix(a, b, n - 1, mode, identifier);
    }
}

proof fn lemma_last_candidate_shift(
    cs: Seq<Comment>,
    k: int,
    c: Comment,
    n: int,
    mode: CommentOverwriteMode,
    identifier: Option<Seq<char>>,
)
    requires
        0 <= k <= n <= cs.len(),
        !is_candidate(c.body@, mode, identifier),
    ensures
        last_candidate(cs.insert(k, c), n + 1, mode, identifier) == last_candidate(
            cs,
            n,
            mode,
            identifier,
        ),
    decreases n,
{
    let longer = cs.insert(k, c);
    if n == k {
        assert(longer[k] == c);
        lemma_last_candidate_prefix(cs, longer, k, mode, identifier);
    } else {
        assert(longer[n] == cs[n - 1]);
        lemma_last_candidate_shift(cs, k, c, n - 1, mode, identifier);
    }
}

/// A comment that is not machine-managed, or whose marker is malformed, never
/// changes the choice: inserting one anywhere in the list (or, read the other
/// way, removing one) leaves the comment to overwrite the same.
pub proof fn lemma_unmanaged_comment_changes_nothing(
    cs: Seq<Comment>,
    k: int,
    c: Comment,
    mode: CommentOverwriteMode,
    identifier: Option<Seq<char>>,
)
    requires
        0 <= k <= cs.len(),
        decode(c.body@) is None || decode(c.body@) matches Some(Err(_)),
    ensures
        overwrite_target(cs.insert(k, c), mode, identifier) == overwrite_target(
            cs,
            mode,
            identifier,
        ),
{
    lemma_last_candidate_shift(cs, k, c, cs.len() as int, mode, identifier);
}

/// The one request that ends a run.
pub enum CommentAction {
    /// Add a comment to the pull request.
    Create { issue_number: u64, body: String },
    /// Replace the body of an earlier comment.
    Edit { comment_id: u64, body: String },
}

impl CommentOverwriteMode {
    /// The mode with the given name, as written in the variants.
    pub fn from_name(name: &str) -> (r: Option<CommentOverwriteMode>)
        ensures
            r == mode_named(name@),
    {
        let s = String::from_str(name);
        if s == String::from_str("Never") {
            Some(CommentOverwriteMode::Never)
        } else if s == String::from_str("Always") {
            Some(CommentOverwriteMode::Always)
        } else if s == String::from_str("UsingIdentifier") {
            Some(CommentOverwriteMode::UsingIdentifier)
        } else {
            None
        }
    }

    /// The mode that a run uses for a requested mode and an optional identifier.
    pub fn effective(self, identifier: &Option<String>) -> (r: CommentOverwriteMode)
        ensures
            r == effective_mode_spec(self, opt_view(*identifier)),
    {
        match identifier {
            Some(_) => CommentOverwriteMode::UsingIdentifier,
            None => self,
        }
    }

    /// Whether a run lists the comments of the pull request at all.
    pub fn needs_listing(self) -> (r: bool)
        ensures
            r == (self != CommentOverwriteMode::Never),
    {
        !matches!(self, CommentOverwriteMode::Never)
    }
}

fn same_identifier(a: &Option<String>, b: &Option<String>) -> (r: bool)
    ensures
        r == (opt_view(*a) == opt_view(*b)),
{
    match a {
        None => b.is_none(),
        Some(x) => match b {
            Some(y) => {
                let same = *x == *y;
                same
            },
            None => false,
        },
    }
}

/// The id of the comment that a new one overwrites, if any. Under `Never` no
/// comment is read. Otherwise the comments whose marker is missing or
/// malformed are passed over, and of those that fit the mode the last one in
/// listing order is chosen.
pub fn select_comment_to_overwrite(
    comments: &Vec<Comment>,
    mode: CommentOverwriteMode,
    identifier: &Option<String>,
) -> (r: Option<u64>)
    ensures
        r == overwrite_target(comments@, mode, opt_view(*identifier)),
        mode == CommentOverwriteMode::Never ==> r is None,
{
    if !mode.needs_listing() {
        return None;
    }
    let ghost id = opt_view(*identifier);
    let mut n: usize = comments.len();
    while n > 0
        invariant
            n <= comments@.len(),
            mode != CommentOverwriteMode::Never,
            id == opt_view(*identifier),
            overwrite_target(comments@, mode, id) == last_candidate(comments@, n as int, mode, id),
        decreases n,
    {
        let c = &comments[n - 1];
        let decoded = get_metadata_from_comment(c.body.as_str());
        let fits = match decoded {
            Some(Ok(found)) => match mode {
                CommentOverwriteMode::UsingIdentifier => same_identifier(&found, identifier),
                _ => true,
            },
            _ => false,
        };
        if fits {
            return Some(c.id);
        }
        n = n - 1;
    }
    None
}

/// The request that ends a run: an edit of `target` when there is one, else a
/// new comment on the pull request; the body is `text` with the marker for
/// `identifier`.
pub fn plan_comment(
    pr_number: u64,
    target: Option<u64>,
    text: &str,
    identifier: &Option<String>,
) -> (r: CommentAction)
    ensures
        match target {
            Some(t) => r matches CommentAction::Edit { comment_id, body } && comment_id == t
                && body@ == encode(text@, opt_view(*identifier)),
            None => r matches CommentAction::Create { issue_number, body } && issue_number
                == pr_number && body@ == encode(text@, opt_view(*identifier)),
        },
{
    let body = add_metadata_to_comment(text, identifier);
    match target {
        Some(comment_id) => CommentAction::Edit { comment_id, body },
        None => CommentAction::Create { issue_number: pr_number, body },
    }
}

} // verus!
