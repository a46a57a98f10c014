//! The repository a URL such as `https://github.com/owner/name.git` names.
use vstd::prelude::*;
use vstd::string::StringExecFns;
use crate::metadata::{find_from, find_from_exec, lemma_find_some};
use crate::text::{chars_of, string_of};

verus! {

broadcast use vstd::string::group_string_axioms;

/// The API of the public service.
pub const DEFAULT_GITHUB_API_URL: &'static str = "https://api.github.com/";

/// Owner and name of a repository.
pub struct RepoInfo {
    pub org: String,
    pub name: String,
}

pub open spec fn slash() -> Seq<char> {
    seq!['/']
}

pub open spec fn git_suffix() -> Seq<char> {
    seq!['.', 'g', 'i', 't']
}

/// Where the path segment that starts at `i` ends.
pub open spec fn segment_end(p: Seq<char>, i: int) -> int {
    match find_from(p, slash(), i) {
        Some(j) => j,
        None => p.len() as int,
    }
}

pub open spec fn without_git_suffix(s: Seq<char>) -> Seq<char> {
    if s.len() >= 4 && s.subrange(s.len() - 4, s.len() as int) == git_suffix() {
        s.subrange(0, s.len() - 4)
    } else {
        s
    }
}

/// Owner and name read off a URL path `/owner/name[.git][/...]`: the first two
/// segments, both non-empty, the name without a `.git` ending.
pub open spec fn repo_of_path(p: Seq<char>) -> Option<(Seq<char>, Seq<char>)> {
    if p.len() == 0 || p[0] != '/' {
        None
    } else {
        let e1 = segment_end(p, 1);
        let org = p.subrange(1, e1);
        if org.len() == 0 || e1 >= p.len() {
            None
        } else {
            let name = without_git_suffix(p.subrange(e1 + 1, segment_end(p, e1 + 1)));
            if name.len() == 0 {
                None
            } else {
                Some((org, name))
            }
        }
    }
}

/// The base URL of the API that serves repositories of `host`.
pub open spec fn api_url_of(scheme: Seq<char>, host: Seq<char>) -> Seq<char> {
    if host == "github.com"@ {
        DEFAULT_GITHUB_API_URL@
    } else {
        scheme + "://"@ + host + "/api/v3/"@
    }
}

fn segment_end_exec(p: &Vec<char>, sl: &Vec<char>, i: usize) -> (r: usize)
    requires
        sl@ == slash(),
        i <= p@.len(),
    ensures
        r as int == segment_end(p@, i as int),
        i <= r <= p@.len(),
{
    match find_from_exec(p, sl, i) {
        Some(j) => {
            proof {
                lemma_find_some(p@, slash(), i as int);
            }
            j
        },
        None => p.len(),
    }
}

/// Owner and name of the repository whose URL has the path `path`.
pub fn get_repo_info_from_path(path: &str) -> (r: Option<RepoInfo>)
    ensures
        match repo_of_path(path@) {
            Some((org, name)) => r matches Some(info) && info.org@ == org && info.name@ == name,
            None => r is None,
        },
{
    let p = chars_of(path);
    let sl = vec!['/'];
    assert(sl@ =~= slash());
    if p.len() == 0 || p[0] != '/' {
        return None;
    }
    let e1 = segment_end_exec(&p, &sl, 1);
    if e1 == 1 || e1 >= p.len() {
        return None;
    }
    let e2 = segment_end_exec(&p, &sl, e1 + 1);
    let ghost seg = p@.subrange(e1 + 1, e2 as int);
    let mut stop = e2;
    if e2 - (e1 + 1) >= 4 && p[e2 - 4] == '.' && p[e2 - 3] == 'g' && p[e2 - 2] == 'i' && p[e2 - 1]
        == 't' {
        assert(seg.subrange(seg.len() - 4, seg.len() as int) =~= git_suffix());
        assert(seg.subrange(0, seg.len() - 4) =~= p@.subrange(e1 + 1, e2 - 4));
        stop = e2 - 4;
    } else {
        assert(seg.len() >= 4 ==> seg.subrange(seg.len() - 4, seg.len() as int)[0] == p@[e2 - 4]);
        assert(seg.len() >= 4 ==> seg.subrange(seg.len() - 4, seg.len() as int)[1] == p@[e2 - 3]);
        assert(seg.len() >= 4 ==> seg.subrange(seg.len() - 4, seg.len() as int)[2] == p@[e2 - 2]);
        assert(seg.len() >= 4 ==> seg.subrange(seg.len() - 4, seg.len() as int)[3] == p@[e2 - 1]);
    }
    if stop == e1 + 1 {
        return None;
    }
    Some(RepoInfo { org: string_of(&p, 1, e1), name: string_of(&p, e1 + 1, stop) })
}

/// The base URL of the API for a repository served over `scheme` by `host`:
/// the public API for `github.com`, the `/api/v3/` path of the host otherwise.
pub fn api_url_for_host(scheme: &str, host: &str) -> (r: String)
    ensures
        r@ == api_url_of(scheme@, host@),
{
    if String::from_str(host) == String::from_str("github.com") {
        String::from_str(DEFAULT_GITHUB_API_URL)
    } else {
        let mut r = String::from_str(scheme);
        r.append("://");
        r.append(host);
        r.append("/api/v3/");
        r
    }
}

} // verus!
