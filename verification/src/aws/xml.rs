//! Tag extraction from S3's XML responses by substring search.
//!
//! The search is tolerant by design: it looks for `<tag>` and the next
//! `</tag>` after it, and knows nothing of nesting or attributes.

use vstd::prelude::*;
use crate::text::{chars_of, find, find_from, lemma_find_from, push_text, string_of};

verus! {

/// The opening form of a tag: `<tag>`.
pub open spec fn open_tag(tag: Seq<char>) -> Seq<char> {
    seq!['<'] + tag + seq!['>']
}

/// The closing form of a tag: `</tag>`.
pub open spec fn close_tag(tag: Seq<char>) -> Seq<char> {
    seq!['<', '/'] + tag + seq!['>']
}

/// The bounds `(start, end)` of the content of the first `<tag>` at or after
/// `from` that is followed by a `</tag>`: the content is `xml[start..end]`.
pub open spec fn tag_span(xml: Seq<char>, tag: Seq<char>, from: int) -> Option<(int, int)> {
    match find_from(xml, open_tag(tag), from) {
        None => None,
        Some(at) => {
            let start = at + open_tag(tag).len();
            match find_from(xml, close_tag(tag), start) {
                None => None,
                Some(end) => Some((start, end)),
            }
        },
    }
}

/// The content of the first `<tag>…</tag>` in `xml`.
pub open spec fn tag_content(xml: Seq<char>, tag: Seq<char>) -> Option<Seq<char>> {
    match tag_span(xml, tag, 0) {
        None => None,
        Some((start, end)) => Some(xml.subrange(start, end)),
    }
}

/// The contents of all `<tag>…</tag>` pairs of `xml` from `from` on, left to
/// right, each search starting behind the previous closing tag.
pub open spec fn all_tag_contents(xml: Seq<char>, tag: Seq<char>, from: int) -> Seq<Seq<char>>
    decreases xml.len() - from,
{
    match tag_span(xml, tag, from) {
        None => Seq::empty(),
        Some((start, end)) => {
            if 0 <= from <= start <= end && end + close_tag(tag).len() <= xml.len() {
                seq![xml.subrange(start, end)] + all_tag_contents(
                    xml,
                    tag,
                    end + close_tag(tag).len(),
                )
            } else {
                Seq::empty()
            }
        },
    }
}

/// A span found at or after `from` lies inside `xml`, behind `from`.
pub proof fn lemma_tag_span(xml: Seq<char>, tag: Seq<char>, from: int)
    requires
        0 <= from,
    ensures
        tag_span(xml, tag, from) matches Some((start, end)) ==> {
            &&& from + open_tag(tag).len() <= start <= end
            &&& end + close_tag(tag).len() <= xml.len()
        },
{
    lemma_find_from(xml, open_tag(tag), from);
    if let Some(at) = find_from(xml, open_tag(tag), from) {
        lemma_find_from(xml, close_tag(tag), at + open_tag(tag).len());
    }
}

/// Builds `<tag>`.
pub(crate) fn make_open_tag(tag: &[char]) -> (v: Vec<char>)
    ensures
        v@ == open_tag(tag@),
{
    let mut v: Vec<char> = Vec::new();
    v.push('<');
    let mut i: usize = 0;
    while i < tag.len()
        invariant
            i <= tag@.len(),
            v@ == seq!['<'] + tag@.take(i as int),
        decreases tag@.len() - i,
    {
        proof {
            assert(tag@.take(i + 1) == tag@.take(i as int).push(tag@[i as int]));
        }
        v.push(tag[i]);
        i += 1;
    }
    proof {
        assert(tag@.take(i as int) == tag@);
    }
    v.push('>');
    v
}

/// Builds `</tag>`.
pub(crate) fn make_close_tag(tag: &[char]) -> (v: Vec<char>)
    ensures
        v@ == close_tag(tag@),
{
    let mut v: Vec<char> = Vec::new();
    v.push('<');
    v.push('/');
    let mut i: usize = 0;
    while i < tag.len()
        invariant
            i <= tag@.len(),
            v@ == seq!['<', '/'] + tag@.take(i as int),
        decreases tag@.len() - i,
    {
        proof {
            assert(tag@.take(i + 1) == tag@.take(i as int).push(tag@[i as int]));
        }
        v.push(tag[i]);
        i += 1;
    }
    proof {
        assert(tag@.take(i as int) == tag@);
    }
    v.push('>');
    v
}

/// Finds the content bounds of the first `<tag>…</tag>` at or after `from`.
pub fn find_tag_span(xml: &[char], tag: &[char], from: usize) -> (r: Option<(usize, usize)>)
    ensures
        match r {
            Some((start, end)) => {
                &&& tag_span(xml@, tag@, from as int) == Some((start as int, end as int))
                &&& from <= start <= end <= xml@.len()
            },
            None => tag_span(xml@, tag@, from as int) is None,
        },
{
    let open = make_open_tag(tag);
    let close = make_close_tag(tag);
    let len = xml.len();
    proof {
        lemma_tag_span(xml@, tag@, from as int);
    }
    match find(xml, open.as_slice(), from) {
        None => None,
        Some(at) => {
            proof {
                lemma_find_from(xml@, open@, from as int);
            }
            let start = at + open.len();
            match find(xml, close.as_slice(), start) {
                None => None,
                Some(end) => Some((start, end)),
            }
        },
    }
}

/// Extracts the content of the first `<tag>…</tag>` in `xml`, or `None` where
/// the opening tag, or a closing tag behind it, is missing.
pub fn extract_tag(xml: &str, tag: &str) -> (r: Option<String>)
    ensures
        r.deep_view() == tag_content(xml@, tag@),
{
    let x = chars_of(xml);
    let t = chars_of(tag);
    match find_tag_span(x.as_slice(), t.as_slice(), 0) {
        None => None,
        Some((start, end)) => Some(string_of(x.as_slice(), start, end)),
    }
}

/// Extracts the contents of all `<tag>…</tag>` pairs in `xml`, in order.
pub fn extract_all_tags(xml: &str, tag: &str) -> (r: Vec<String>)
    ensures
        r.deep_view() == all_tag_contents(xml@, tag@, 0),
{
    let x = chars_of(xml);
    let t = chars_of(tag);
    let close_len = make_close_tag(t.as_slice()).len();
    let xml_len = x.len();
    let mut results: Vec<String> = Vec::new();
    let mut pos: usize = 0;
    assert(results.deep_view() == Seq::<Seq<char>>::empty());
    assert(Seq::<Seq<char>>::empty() + all_tag_contents(x@, t@, 0) == all_tag_contents(x@, t@, 0));
    loop
        invariant
            pos <= x@.len() <= usize::MAX,
            close_len == close_tag(t@).len(),
            all_tag_contents(x@, t@, 0) == results.deep_view() + all_tag_contents(
                x@,
                t@,
                pos as int,
            ),
        ensures
            results.deep_view() == all_tag_contents(x@, t@, 0),
        decreases x@.len() - pos,
    {
        proof {
            lemma_tag_span(x@, t@, pos as int);
        }
        match find_tag_span(x.as_slice(), t.as_slice(), pos) {
            None => {
                assert(results.deep_view() + Seq::<Seq<char>>::empty() == results.deep_view());
                break;
            },
            Some((start, end)) => {
                let content = string_of(x.as_slice(), start, end);
                proof {
                    let prev = results.deep_view();
                    let rest = all_tag_contents(x@, t@, end + close_len);
                    assert(prev + (seq![content@] + rest) == prev.push(content@) + rest);
                    crate::events::lemma_deep_view_push(results@, results@.push(content), content);
                }
                results.push(content);
                pos = end + close_len;
            },
        }
    }
    results
}

/// The error that an S3 response body reports: `Code: Message`, where the
/// body has a `<Code>`; a missing `<Message>` counts as empty.
pub open spec fn error_text(xml: Seq<char>) -> Option<Seq<char>> {
    match tag_content(xml, "Code"@) {
        None => None,
        Some(code) => {
            let message = match tag_content(xml, "Message"@) {
                Some(m) => m,
                None => Seq::empty(),
            };
            Some(code + seq![':', ' '] + message)
        },
    }
}

/// Extracts the S3 error of a response body, if it reports one.
pub fn extract_error(xml: &str) -> (r: Option<String>)
    ensures
        r.deep_view() == error_text(xml@),
{
    let code = match extract_tag(xml, "Code") {
        Some(c) => c,
        None => {
            return None;
        },
    };
    let message = match extract_tag(xml, "Message") {
        Some(m) => m,
        None => String::new(),
    };
    let mut out = code;
    out.push(':');
    out.push(' ');
    push_text(&mut out, message.as_str());
    proof {
        let c = tag_content(xml@, "Code"@).unwrap();
        assert(c.push(':').push(' ') == c + seq![':', ' ']);
    }
    Some(out)
}

} // verus!
