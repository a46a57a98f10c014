//! The hidden marker that makes a comment machine-managed.
//!
//! A managed comment starts with an HTML comment, which renderers hide:
//! `<!-- pr_commentator : none -->` when it carries no identifier, or
//! `<!-- pr_commentator : id=<escaped identifier> -->` when it does, followed
//! by a line break and the visible body. In the identifier a backslash is
//! written `\\` and `>` is written `\g`, so the marker holds no `>` before
//! its end.
use vstd::prelude::*;
use vstd::string::StringExecFns;
use crate::text::{chars_of, opt_view, push_char};

verus! {

broadcast use vstd::string::group_string_axioms;

/// The literal that opens every marker.
pub const TAG: &'static str = "<!-- pr_commentator : ";

/// Why a marker that was found could not be read.
#[derive(Debug, Clone, Copy, PartialEq, Eq, Structural)]
pub enum DecodeError {
    /// No `>` follows the tag.
    Unterminated,
    /// The marker does not end with ` -->`.
    MissingCommentEnd,
    /// The payload is neither `none` nor `id=...`.
    UnknownPayload,
    /// The identifier holds a backslash that starts no known escape.
    InvalidEscape,
}

pub open spec fn tag() -> Seq<char> {
    TAG@
}

pub open spec fn gt() -> Seq<char> {
    seq!['>']
}

pub open spec fn none_word() -> Seq<char> {
    seq!['n', 'o', 'n', 'e']
}

pub open spec fn id_prefix() -> Seq<char> {
    seq!['i', 'd', '=']
}

pub open spec fn close_dashes() -> Seq<char> {
    seq![' ', '-', '-']
}

/// What ends a marker: the end of the HTML comment and a line break.
pub open spec fn close_line() -> Seq<char> {
    seq![' ', '-', '-', '>', '\n']
}

/// `t` stands in `b` at position `i`.
pub open spec fn occurs_at(b: Seq<char>, t: Seq<char>, i: int) -> bool {
    0 <= i && i + t.len() <= b.len() && b.subrange(i, i + t.len()) == t
}

/// The first position at or after `i` where `t` stands in `b`.
pub open spec fn find_from(b: Seq<char>, t: Seq<char>, i: int) -> Option<int>
    decreases b.len() + 1 - i,
{
    if i < 0 || i + t.len() > b.len() {
        None
    } else if occurs_at(b, t, i) {
        Some(i)
    } else {
        find_from(b, t, i + 1)
    }
}

pub open spec fn escape_char(c: char) -> Seq<char> {
    if c == '\\' {
        seq!['\\', '\\']
    } else if c == '>' {
        seq!['\\', 'g']
    } else {
        seq![c]
    }
}

/// An identifier as it is written inside a marker.
pub open spec fn escape(s: Seq<char>) -> Seq<char>
    decreases s.len(),
{
    if s.len() == 0 {
        Seq::empty()
    } else {
        escape(s.drop_last()) + escape_char(s.last())
    }
}

/// The identifier that `s` writes, if it is a valid escaped text.
pub open spec fn unescape(s: Seq<char>) -> Option<Seq<char>>
    decreases s.len(),
{
    if s.len() == 0 {
        Some(Seq::empty())
    } else if s[0] == '\\' {
        if s.len() >= 2 && (s[1] == '\\' || s[1] == 'g') {
            match unescape(s.subrange(2, s.len() as int)) {
                Some(r) => Some(seq![if s[1] == 'g' { '>' } else { '\\' }] + r),
                None => None,
            }
        } else {
            None
        }
    } else {
        match unescape(s.subrange(1, s.len() as int)) {
            Some(r) => Some(seq![s[0]] + r),
            None => None,
        }
    }
}

pub open spec fn payload(id: Option<Seq<char>>) -> Seq<char> {
    match id {
        None => none_word(),
        Some(x) => id_prefix() + escape(x),
    }
}

/// The hidden marker for an optional identifier.
pub open spec fn marker(id: Option<Seq<char>>) -> Seq<char> {
    tag() + payload(id) + close_line()
}

/// A comment body with its marker.
pub open spec fn encode(body: Seq<char>, id: Option<Seq<char>>) -> Seq<char> {
    marker(id) + body
}

/// The payload between positions `s` and `e` of `b`, read.
pub open spec fn read_payload(b: Seq<char>, s: int, e: int) -> Result<Option<Seq<char>>, DecodeError> {
    if e - s == 4 && occurs_at(b, none_word(), s) {
        Ok(None)
    } else if e - s >= 3 && occurs_at(b, id_prefix(), s) {
        match unescape(b.subrange(s + 3, e)) {
            Some(x) => Ok(Some(x)),
            None => Err(DecodeError::InvalidEscape),
        }
    } else {
        Err(DecodeError::UnknownPayload)
    }
}

/// The marker of a comment body: `None` when the tag does not occur, else the
/// reading of the marker that the first occurrence of the tag opens.
pub open spec fn decode(b: Seq<char>) -> Option<Result<Option<Seq<char>>, DecodeError>> {
    match find_from(b, tag(), 0) {
        None => None,
        Some(i) => {
            let s = i + tag().len();
            match find_from(b, gt(), s) {
                None => Some(Err(DecodeError::Unterminated)),
                Some(j) => if j - s >= 3 && occurs_at(b, close_dashes(), j - 3) {
                    Some(read_payload(b, s, j - 3))
                } else {
                    Some(Err(DecodeError::MissingCommentEnd))
                },
            }
        },
    }
}

pub open spec fn decoded_view(r: Option<Result<Option<String>, DecodeError>>) -> Option<
    Result<Option<Seq<char>>, DecodeError>,
> {
    match r {
        None => None,
        Some(Ok(id)) => Some(Ok(opt_view(id))),
        Some(Err(e)) => Some(Err(e)),
    }
}

proof fn lemma_find_first(b: Seq<char>, t: Seq<char>, i: int, k: int)
    requires
        0 <= i <= k,
        occurs_at(b, t, k),
        forall|j: int| i <= j < k ==> !occurs_at(b, t, j),
    ensures
        find_from(b, t, i) == Some(k),
    decreases k - i,
{
    if i < k {
        lemma_find_first(b, t, i + 1, k);
    }
}

proof fn lemma_find_none(b: Seq<char>, t: Seq<char>, i: int)
    requires
        forall|j: int| i <= j ==> !occurs_at(b, t, j),
    ensures
        find_from(b, t, i) is None,
    decreases b.len() + 1 - i,
{
    if 0 <= i && i + t.len() <= b.len() {
        lemma_find_none(b, t, i + 1);
    }
}

proof fn lemma_find_reaches(b: Seq<char>, t: Seq<char>, i: int, k: int)
    requires
        0 <= i <= k,
        occurs_at(b, t, k),
    ensures
        find_from(b, t, i) is Some,
    decreases k - i,
{
    if i < k && !occurs_at(b, t, i) {
        lemma_find_reaches(b, t, i + 1, k);
    }
}

pub(crate) proof fn lemma_find_some(b: Seq<char>, t: Seq<char>, i: int)
    requires
        find_from(b, t, i) is Some,
    ensures
        occurs_at(b, t, find_from(b, t, i)->0),
        find_from(b, t, i)->0 >= i,
    decreases b.len() + 1 - i,
{
    if 0 <= i && i + t.len() <= b.len() && !occurs_at(b, t, i) {
        lemma_find_some(b, t, i + 1);
    }
}

proof fn lemma_unescape_escaped_prefix(x: Seq<char>, r: Seq<char>)
    ensures
        unescape(escape(x) + r) == match unescape(r) {
            Some(u) => Some(x + u),
            None => None::<Seq<char>>,
        },
    decreases x.len(),
{
    if x.len() == 0 {
        assert(escape(x) + r =~= r);
        assert forall|u: Seq<char>| x + u =~= u by {}
    } else {
        let init = x.drop_last();
        let l = x.last();
        let e = escape_char(l);
        let s = e + r;
        assert(escape(x) + r =~= escape(init) + s);
        lemma_unescape_escaped_prefix(init, s);
        if l == '\\' || l == '>' {
            assert(s.subrange(2, s.len() as int) =~= r);
        } else {
            assert(s.subrange(1, s.len() as int) =~= r);
        }
        assert(unescape(s) == match unescape(r) {
            Some(u) => Some(seq![l] + u),
            None => None::<Seq<char>>,
        });
        assert forall|u: Seq<char>| init + (seq![l] + u) =~= x + u by {}
    }
}

proof fn lemma_escape_has_no_gt(x: Seq<char>)
    ensures
        forall|k: int| 0 <= k < escape(x).len() ==> escape(x)[k] != '>',
    decreases x.len(),
{
    if x.len() > 0 {
        let init = x.drop_last();
        lemma_escape_has_no_gt(init);
        let e = escape_char(x.last());
        assert forall|k: int| 0 <= k < escape(x).len() implies escape(x)[k] != '>' by {
            if k >= escape(init).len() {
                assert(escape(x)[k] == e[k - escape(init).len()]);
            } else {
                assert(escape(x)[k] == escape(init)[k]);
            }
        }
    }
}

/// Encoding then decoding gives back the identifier, with or without one and
/// for every body. The body follows the marker unchanged, and the marker is a
/// single HTML comment: it opens with `<!--`, holds no `>` before its final
/// `-->`, and ends with a line break, so it renders as nothing.
pub proof fn lemma_decode_encode(body: Seq<char>, id: Option<Seq<char>>)
    ensures
        decode(encode(body, id)) == Some(Ok::<Option<Seq<char>>, DecodeError>(id)),
        encode(body, id) == marker(id) + body,
        marker(id).subrange(0, 4) == seq!['<', '!', '-', '-'],
        marker(id).subrange(marker(id).len() - 4, marker(id).len() as int)
            == seq!['-', '-', '>', '\n'],
        forall|k: int| 0 <= k < marker(id).len() - 2 ==> marker(id)[k] != '>',
{
    reveal_strlit("<!-- pr_commentator : ");
    let b = encode(body, id);
    let p = payload(id);
    let s = tag().len() as int;
    let e = s + p.len();
    assert(b.subrange(0, s) =~= tag());
    lemma_find_first(b, tag(), 0, 0);
    assert forall|k: int| 0 <= k < p.len() implies p[k] != '>' by {
        match id {
            None => {},
            Some(x) => {
                lemma_escape_has_no_gt(x);
                if k >= 3 {
                    assert(p[k] == escape(x)[k - 3]);
                }
            },
        }
    }
    assert forall|k: int| 0 <= k < marker(id).len() - 2 implies marker(id)[k] != '>' by {
        if s <= k < e {
            assert(marker(id)[k] == p[k - s]);
        }
    }
    assert forall|j: int| s <= j < e + 3 implies !occurs_at(b, gt(), j) by {
        if occurs_at(b, gt(), j) {
            assert(b.subrange(j, j + 1)[0] == b[j]);
            assert(b[j] == marker(id)[j]);
        }
    }
    assert(b.subrange(e + 3, e + 4) =~= gt());
    lemma_find_first(b, gt(), s, e + 3);
    assert(b.subrange(e, e + 3) =~= close_dashes());
    assert(b.subrange(s, e) =~= p);
    match id {
        None => {
            assert(b.subrange(s, s + 4) =~= none_word());
        },
        Some(x) => {
            assert(b.subrange(s, s + 3) =~= id_prefix());
            if e - s == 4 {
                assert(b.subrange(s, s + 4)[0] == 'i');
            }
            assert(b.subrange(s + 3, e) =~= escape(x) + Seq::<char>::empty());
            lemma_unescape_escaped_prefix(x, Seq::<char>::empty());
            assert(x + Seq::<char>::empty() =~= x);
        },
    }
    assert(marker(id).subrange(0, 4) =~= seq!['<', '!', '-', '-']);
    assert(marker(id).subrange(marker(id).len() - 4, marker(id).len() as int)
        =~= seq!['-', '-', '>', '\n']);
}

/// A body is recognised as managed exactly when the tag occurs in it: a text
/// that never holds the tag decodes to `None`, and one that does never does.
pub proof fn lemma_decode_none_iff_no_tag(text: Seq<char>)
    ensures
        decode(text) is None <==> forall|i: int| !occurs_at(text, tag(), i),
{
    if forall|i: int| !occurs_at(text, tag(), i) {
        lemma_find_none(text, tag(), 0);
    }
    if find_from(text, tag(), 0) is None {
        assert forall|i: int| !occurs_at(text, tag(), i) by {
            if occurs_at(text, tag(), i) {
                lemma_find_reaches(text, tag(), 0, i);
            }
        }
    }
}

/// A marker cut short, its tag followed by no `>`, is reported as an error:
/// the comment is neither taken as unmanaged nor read.
pub proof fn lemma_truncated_marker_is_error(rest: Seq<char>)
    requires
        forall|k: int| 0 <= k < rest.len() ==> rest[k] != '>',
    ensures
        decode(tag() + rest) == Some(Err::<Option<Seq<char>>, DecodeError>(DecodeError::Unterminated)),
{
    let b = tag() + rest;
    let s = tag().len() as int;
    assert(b.subrange(0, s) =~= tag());
    lemma_find_first(b, tag(), 0, 0);
    assert forall|j: int| s <= j implies !occurs_at(b, gt(), j) by {
        if occurs_at(b, gt(), j) {
            assert(b.subrange(j, j + 1)[0] == b[j]);
            assert(b[j] == rest[j - s]);
        }
    }
    lemma_find_none(b, gt(), s);
}

fn occurs_at_exec(b: &Vec<char>, t: &Vec<char>, i: usize) -> (r: bool)
    ensures
        r == occurs_at(b@, t@, i as int),
{
    if i > b.len() || t.len() > b.len() - i {
        return false;
    }
    let mut k: usize = 0;
    while k < t.len()
        invariant
            i + t@.len() <= b@.len(),
            i + t.len() <= b.len(),
            k <= t@.len(),
            forall|m: int| 0 <= m < k ==> b@[i + m] == t@[m],
        decreases t@.len() - k,
    {
        if b[i + k] != t[k] {
            assert(b@.subrange(i as int, i + t@.len())[k as int] != t@[k as int]);
            return false;
        }
        k = k + 1;
    }
    assert(b@.subrange(i as int, i + t@.len()) =~= t@);
    true
}

pub(crate) fn find_from_exec(b: &Vec<char>, t: &Vec<char>, from: usize) -> (r: Option<usize>)
    ensures
        match r {
            Some(k) => find_from(b@, t@, from as int) == Some(k as int),
            None => find_from(b@, t@, from as int) is None,
        },
{
    let mut i: usize = from;
    while i <= b.len() && t.len() <= b.len() - i
        invariant
            from <= i,
            find_from(b@, t@, from as int) == find_from(b@, t@, i as int),
        decreases b@.len() + 1 - i,
    {
        if occurs_at_exec(b, t, i) {
            return Some(i);
        }
        if i == b.len() {
            assert(find_from(b@, t@, i + 1) is None);
            return None;
        }
        i = i + 1;
    }
    None
}

fn unescape_range(b: &Vec<char>, lo: usize, hi: usize) -> (r: Option<String>)
    requires
        lo <= hi <= b@.len(),
    ensures
        opt_view(r) == unescape(b@.subrange(lo as int, hi as int)),
{
    let mut out = String::new();
    let mut k: usize = lo;
    while k < hi
        invariant
            lo <= k <= hi <= b@.len(),
            unescape(b@.subrange(lo as int, hi as int)) == match unescape(
                b@.subrange(k as int, hi as int),
            ) {
                Some(u) => Some(out@ + u),
                None => None::<Seq<char>>,
            },
        decreases hi - k,
    {
        let ghost s = b@.subrange(k as int, hi as int);
        let c = b[k];
        assert(s[0] == c);
        if c == '\\' {
            if k + 1 < hi && (b[k + 1] == '\\' || b[k + 1] == 'g') {
                assert(s[1] == b@[k + 1]);
                assert(s.subrange(2, s.len() as int) =~= b@.subrange(k + 2, hi as int));
                let d = if b[k + 1] == 'g' {
                    '>'
                } else {
                    '\\'
                };
                proof {
                    assert forall|u: Seq<char>| out@.push(d) + u =~= out@ + (seq![d] + u) by {}
                }
                push_char(&mut out, d);
                k = k + 2;
            } else {
                return None;
            }
        } else {
            assert(s.subrange(1, s.len() as int) =~= b@.subrange(k + 1, hi as int));
            proof {
                assert forall|u: Seq<char>| out@.push(c) + u =~= out@ + (seq![c] + u) by {}
            }
            push_char(&mut out, c);
            k = k + 1;
        }
    }
    assert(out@ + Seq::<char>::empty() =~= out@);
    Some(out)
}

/// Reads the marker of a comment body: `None` for a comment that is not
/// machine-managed, `Some(Ok(identifier))` for a well-formed marker and
/// `Some(Err(..))` for a malformed one.
pub fn get_metadata_from_comment(body: &str) -> (r: Option<Result<Option<String>, DecodeError>>)
    ensures
        decoded_view(r) == decode(body@),
{
    let b = chars_of(body);
    let t = chars_of(TAG);
    let i = match find_from_exec(&b, &t, 0) {
        None => return None,
        Some(i) => i,
    };
    proof {
        lemma_find_some(b@, tag(), 0);
    }
    assert(t@ == tag());
    assert(occurs_at(b@, tag(), i as int));
    assert(i + t@.len() <= b.len());
    let s = i + t.len();
    let gtv = vec!['>'];
    assert(gtv@ =~= gt());
    let dashes = vec![' ', '-', '-'];
    assert(dashes@ =~= close_dashes());
    let none_v = vec!['n', 'o', 'n', 'e'];
    assert(none_v@ =~= none_word());
    let id_v = vec!['i', 'd', '='];
    assert(id_v@ =~= id_prefix());
    let j = match find_from_exec(&b, &gtv, s) {
        None => return Some(Err(DecodeError::Unterminated)),
        Some(j) => j,
    };
    proof {
        lemma_find_some(b@, gt(), s as int);
    }
    if j - s < 3 || !occurs_at_exec(&b, &dashes, j - 3) {
        return Some(Err(DecodeError::MissingCommentEnd));
    }
    let e = j - 3;
    if e - s == 4 && occurs_at_exec(&b, &none_v, s) {
        Some(Ok(None))
    } else if e - s >= 3 && occurs_at_exec(&b, &id_v, s) {
        match unescape_range(&b, s + 3, e) {
            Some(x) => Some(Ok(Some(x))),
            None => Some(Err(DecodeError::InvalidEscape)),
        }
    } else {
        Some(Err(DecodeError::UnknownPayload))
    }
}

/// Puts the marker for `identifier` in front of `comment`.
pub fn add_metadata_to_comment(comment: &str, identifier: &Option<String>) -> (r: String)
    ensures
        r@ == encode(comment@, opt_view(*identifier)),
{
    let mut out = String::from_str(TAG);
    match identifier {
        None => {
            push_char(&mut out, 'n');
            push_char(&mut out, 'o');
            push_char(&mut out, 'n');
            push_char(&mut out, 'e');
            assert(out@ =~= tag() + payload(opt_view(*identifier)));
        },
        Some(id) => {
            push_char(&mut out, 'i');
            push_char(&mut out, 'd');
            push_char(&mut out, '=');
            let ghost head = out@;
            assert(head =~= tag() + id_prefix());
            let cs = chars_of(id.as_str());
            let mut k: usize = 0;
            while k < cs.len()
                invariant
                    k <= cs@.len(),
                    out@ == head + escape(cs@.subrange(0, k as int)),
                decreases cs@.len() - k,
            {
                let c = cs[k];
                assert(cs@.subrange(0, k + 1).drop_last() =~= cs@.subrange(0, k as int));
                if c == '\\' {
                    push_char(&mut out, '\\');
                    push_char(&mut out, '\\');
                } else if c == '>' {
                    push_char(&mut out, '\\');
                    push_char(&mut out, 'g');
                } else {
                    push_char(&mut out, c);
                }
                assert(out@ =~= head + escape(cs@.subrange(0, k + 1)));
                k = k + 1;
            }
            assert(cs@.subrange(0, cs@.len() as int) =~= id@);
            assert(out@ =~= tag() + payload(opt_view(*identifier)));
        },
    }
    push_char(&mut out, ' ');
    push_char(&mut out, '-');
    push_char(&mut out, '-');
    push_char(&mut out, '>');
    push_char(&mut out, '\n');
    out.append(comment);
    assert(out@ =~= encode(comment@, opt_view(*identifier)));
    out
}

} // verus!
