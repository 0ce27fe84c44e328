//! The request engine: work items and their two queues, region resolution
//! with redirect recovery, request building, and the decisions taken on each
//! response.
//!
//! The engine performs no I/O. A worker takes an item from a queue, asks for
//! the request to send, sends it, and hands the response back; the engine
//! answers with the events to deliver and, after a redirect, the region to
//! retry with.

use std::collections::VecDeque;
use vstd::prelude::*;
use vstd::utf8::encode_utf8;
use crate::assoc::{
    assoc_map, lemma_assoc_absent, lemma_assoc_empty, lemma_assoc_get, lemma_assoc_push,
    lemma_assoc_update,
};
use crate::aws::credentials::{AWSProfile, AWSProfileView};
use crate::aws::signer::{
    aws_sign_request_at, signed_request, uri_encoded, url_encode, AWSSignedRequest,
    AWSSignedRequestView, CivilTime, SigningInputs,
};
use crate::aws::xml::{
    close_tag, find_tag_span, lemma_tag_span, make_close_tag, make_open_tag, open_tag, tag_content,
    tag_span,
};
use crate::backend::{Backend, CancelFlag};
use crate::events::{
    lemma_deep_view_push, S3Bucket, S3BucketView, S3Object, S3ObjectView, StateEvent,
    StateEventView,
};
use crate::text::{
    append_bytes, bytes_of, chars_of, decimal, decode_utf8_lossy, ends_with, find, find_char,
    find_char_from, find_from, lemma_find_char_from, lemma_find_from, lemma_rfind_char_before,
    occurs_at, parse_i64, parse_usize, parsed_i64, parsed_unsigned, position_of, push_decimal,
    push_text, range_equals, rfind_char, rfind_char_in, starts_with_at, str_equals, string_of,
    text_of, to_lowercase, trim_bounds, trimmed, unicode_lowercase, utf8_lossy,
};

verus! {

/// The content of the first `<tag>…</tag>` of `xml`, or the empty text where
/// there is none.
pub open spec fn tag_or_empty(xml: Seq<char>, tag: Seq<char>) -> Seq<char> {
    match tag_content(xml, tag) {
        Some(c) => c,
        None => Seq::empty(),
    }
}

/// Extracts the content of the first `<tag>…</tag>` of `xml`; empty where
/// there is none.
pub fn extract_tag(xml: &[char], tag: &str) -> (r: String)
    ensures
        r@ == tag_or_empty(xml@, tag@),
{
    let t = chars_of(tag);
    match find_tag_span(xml, t.as_slice(), 0) {
        Some((start, end)) => string_of(xml, start, end),
        None => String::new(),
    }
}

/// The error that a response body reports, as `Code: Message`; empty where
/// the body has no `<Code>`, or an empty one.
pub open spec fn response_error(xml: Seq<char>) -> Seq<char> {
    let code = tag_or_empty(xml, "Code"@);
    if code.len() == 0 {
        Seq::empty()
    } else {
        code + seq![':', ' '] + tag_or_empty(xml, "Message"@)
    }
}

/// Extracts the S3 error of a response body; empty where it reports none.
pub fn extract_error(xml: &[char]) -> (r: String)
    ensures
        r@ == response_error(xml@),
{
    let code = extract_tag(xml, "Code");
    if code.as_str().is_empty() {
        return String::new();
    }
    let message = extract_tag(xml, "Message");
    let mut out = code;
    out.push(':');
    out.push(' ');
    push_text(&mut out, message.as_str());
    proof {
        let c = tag_or_empty(xml@, "Code"@);
        assert(c.push(':').push(' ') == c + seq![':', ' ']);
    }
    out
}

/// `s` without the characters `c` at its end.
pub open spec fn trim_trailing(s: Seq<char>, c: char) -> Seq<char>
    decreases s.len(),
{
    if s.len() > 0 && s.last() == c {
        trim_trailing(s.drop_last(), c)
    } else {
        s
    }
}

/// `url` without a leading `https://` or `http://`.
pub open spec fn strip_scheme(url: Seq<char>) -> Seq<char> {
    if occurs_at(url, "https://"@, 0) {
        url.skip("https://"@.len() as int)
    } else if occurs_at(url, "http://"@, 0) {
        url.skip("http://"@.len() as int)
    } else {
        url
    }
}

/// The host (and port) of an endpoint URL: the URL without its scheme, its
/// trailing slashes and its path.
pub open spec fn endpoint_host(url: Seq<char>) -> Seq<char> {
    let rest = trim_trailing(strip_scheme(url), '/');
    match find_char_from(rest, '/', 0) {
        Some(i) => rest.take(i),
        None => rest,
    }
}

/// Strips scheme, trailing slashes and path from an endpoint URL.
pub fn parse_endpoint_host(endpoint_url: &str) -> (r: String)
    ensures
        r@ == endpoint_host(endpoint_url@),
{
    let u = chars_of(endpoint_url);
    let n = u.len();
    let https = chars_of("https://");
    let http = chars_of("http://");
    let start: usize = if starts_with_at(u.as_slice(), 0, "https://") {
        https.len()
    } else if starts_with_at(u.as_slice(), 0, "http://") {
        http.len()
    } else {
        0
    };
    let ghost rest = strip_scheme(u@);
    proof {
        assert(u@.skip(0) == u@);
        assert(rest == u@.skip(start as int));
    }
    let mut end: usize = n;
    while end > start && u[end - 1] == '/'
        invariant
            start <= end <= n,
            n == u@.len(),
            trim_trailing(rest, '/') == trim_trailing(u@.subrange(start as int, end as int), '/'),
        decreases end,
    {
        proof {
            let w = u@.subrange(start as int, end as int);
            assert(w.last() == u@[end - 1]);
            assert(w.drop_last() == u@.subrange(start as int, end - 1));
        }
        end -= 1;
    }
    let ghost trimmed = u@.subrange(start as int, end as int);
    proof {
        if end > start {
            assert(trimmed.last() == u@[end - 1]);
        }
        assert(trim_trailing(rest, '/') == trimmed);
    }
    let body = vstd::slice::slice_subrange(u.as_slice(), start, end);
    proof {
        lemma_find_char_from(body@, '/', 0);
    }
    match find_char(body, '/', 0) {
        Some(i) => {
            proof {
                assert(body@.take(i as int) == body@.subrange(0, i as int));
            }
            string_of(body, 0, i)
        },
        None => {
            proof {
                assert(body@.subrange(0, body@.len() as int) == body@);
            }
            string_of(body, 0, end - start)
        },
    }
}

/// Where the last label of a host begins: behind its last dot, or at its
/// start where it has no dot.
pub open spec fn last_label_start(host: Seq<char>) -> int {
    match rfind_char(host, '.') {
        Some(d) => d + 1,
        None => 0,
    }
}

/// Whether the label before the last label of a host is `s3`: what stands
/// before the last label is `s3.`, or ends in `.s3.`.
pub open spec fn behind_s3_label(before: Seq<char>) -> bool {
    before == "s3."@ || ".s3."@.is_suffix_of(before)
}

/// What stands for the region in a host without its `.amazonaws.com`. It is
/// read from the last label, the one directly before `.amazonaws.com`, and
/// from what stands directly before that label; a bucket name further to
/// the left, with `s3.` or `s3-` in it, does not count. In this order:
///
/// - for `….s3.{region}`, where the label before is `s3`: the last label;
/// - for `….s3-{region}`, where the last label begins with `s3-`: what
///   follows the `s3-`;
/// - for a host that otherwise has `s3.` directly before the last label:
///   the last label;
/// - for a last label that otherwise holds `s3-`: what follows the first
///   `s3-` in it;
/// - else nothing.
pub open spec fn region_label(host: Seq<char>) -> Seq<char> {
    let start = last_label_start(host);
    let label = host.skip(start);
    let before = host.take(start);
    if behind_s3_label(before) {
        label
    } else if occurs_at(label, "s3-"@, 0) {
        label.skip("s3-"@.len() as int)
    } else if "s3."@.is_suffix_of(before) {
        label
    } else {
        match find_from(label, "s3-"@, 0) {
            Some(p) => label.skip(p + "s3-"@.len()),
            None => Seq::empty(),
        }
    }
}

/// The region that an S3 endpoint host names. For a host that ends in
/// `s3.` or `s3-`, a text without dot, and `.amazonaws.com`, it is that text
/// where it holds a dash; where a host can be read in both ways, `s3.` goes
/// first. Empty for every other host, the global endpoint among them.
pub open spec fn endpoint_region(endpoint: Seq<char>) -> Seq<char> {
    let suffix = ".amazonaws.com"@;
    if suffix.is_suffix_of(endpoint) {
        let region = region_label(endpoint.take(endpoint.len() - suffix.len()));
        if region.contains('-') {
            region
        } else {
            Seq::empty()
        }
    } else {
        Seq::empty()
    }
}

/// A text without dot behind a front that is empty or ends in a dot is the
/// last label of the two together.
proof fn lemma_last_label(front: Seq<char>, label: Seq<char>)
    requires
        front.len() == 0 || front.last() == '.',
        !label.contains('.'),
    ensures
        last_label_start(front + label) == front.len(),
        (front + label).skip(front.len() as int) == label,
        (front + label).take(front.len() as int) == front,
{
    let host = front + label;
    lemma_rfind_char_before(host, '.', host.len() as int);
    assert forall|j: int| front.len() <= j < host.len() implies host[j] != '.' by {
        if host[j] == '.' {
            assert(label[j - front.len()] == '.');
            assert(label.contains('.'));
        }
    }
    if front.len() > 0 {
        assert(host[front.len() - 1] == '.');
    }
    assert(host.skip(front.len() as int) =~= label);
    assert(host.take(front.len() as int) =~= front);
}

/// An endpoint with `.amazonaws.com` at its end ends in it, and what stands
/// before is the host that the region is read from.
proof fn lemma_amazon_host(host: Seq<char>)
    ensures
        ".amazonaws.com"@.is_suffix_of(host + ".amazonaws.com"@),
        (host + ".amazonaws.com"@).take(
            (host + ".amazonaws.com"@).len() - ".amazonaws.com"@.len(),
        ) == host,
{
    let suffix = ".amazonaws.com"@;
    let endpoint = host + suffix;
    assert(endpoint.skip(endpoint.len() - suffix.len()) =~= suffix);
    assert(endpoint.take(endpoint.len() - suffix.len()) =~= host);
}

/// For an endpoint of the form `{bucket}.s3.{region}.amazonaws.com`, or
/// `s3.{region}.amazonaws.com`, with a region without dot, the region is
/// that text where it holds a dash, and empty where it holds none. Whatever
/// the bucket is called and whatever the region holds makes no difference.
pub proof fn lemma_region_of_dotted_endpoint(front: Seq<char>, region: Seq<char>)
    requires
        behind_s3_label(front),
        !region.contains('.'),
    ensures
        endpoint_region(front + region + ".amazonaws.com"@) == if region.contains('-') {
            region
        } else {
            Seq::empty()
        },
{
    reveal_strlit("s3.");
    reveal_strlit(".s3.");
    if front == "s3."@ {
        assert(front.last() == '.');
    } else {
        assert(front.len() >= 4);
        assert(front.last() == front.skip(front.len() - 4)[3]);
    }
    lemma_last_label(front, region);
    lemma_amazon_host(front + region);
}

/// For an endpoint of the form `{bucket}.s3-{region}.amazonaws.com`, or
/// `s3-{region}.amazonaws.com`, with a region without dot, the region is
/// that text where it holds a dash, and empty where it holds none. This
/// holds where the endpoint is not of the form with `.s3.` as well, which
/// goes first.
pub proof fn lemma_region_of_dashed_endpoint(front: Seq<char>, region: Seq<char>)
    requires
        front.len() == 0 || front.last() == '.',
        !behind_s3_label(front),
        !region.contains('.'),
    ensures
        endpoint_region(front + "s3-"@ + region + ".amazonaws.com"@) == if region.contains('-') {
            region
        } else {
            Seq::empty()
        },
{
    reveal_strlit("s3-");
    let mark = "s3-"@;
    let label = mark + region;
    assert forall|j: int| 0 <= j < label.len() implies label[j] != '.' by {
        if j >= 3 && label[j] == '.' {
            assert(region[j - 3] == '.');
            assert(region.contains('.'));
        }
    }
    assert(!label.contains('.'));
    assert(front + mark + region =~= front + label);
    lemma_last_label(front, label);
    lemma_amazon_host(front + label);
    assert(label.subrange(0, mark.len() as int) =~= mark);
    assert(occurs_at(label, mark, 0));
    assert(label.skip(mark.len() as int) =~= region);
}

/// Extracts the region from an S3-style endpoint host.
pub fn extract_region_from_endpoint(endpoint: &str) -> (r: String)
    ensures
        r@ == endpoint_region(endpoint@),
{
    let e = chars_of(endpoint);
    if !ends_with(e.as_slice(), ".amazonaws.com") {
        return String::new();
    }
    let suffix = chars_of(".amazonaws.com");
    let end = e.len() - suffix.len();
    let host = vstd::slice::slice_subrange(e.as_slice(), 0, end);
    proof {
        assert(host@ == e@.take(end as int));
    }
    let start: usize = match rfind_char_in(host, '.', end) {
        Some(d) => d + 1,
        None => 0,
    };
    let label = vstd::slice::slice_subrange(host, start, end);
    let before = vstd::slice::slice_subrange(host, 0, start);
    let dash = chars_of("s3-");
    proof {
        assert(label@ == host@.skip(start as int));
        assert(before@ == host@.take(start as int));
        assert(before@.subrange(0, start as int) == before@);
        lemma_find_from(label@, dash@, 0);
    }
    let region = if range_equals(before, 0, start, "s3.") || ends_with(before, ".s3.") {
        label
    } else if starts_with_at(label, 0, "s3-") {
        let r = vstd::slice::slice_subrange(label, dash.len(), label.len());
        proof {
            assert(r@ == label@.skip(dash@.len() as int));
        }
        r
    } else if ends_with(before, "s3.") {
        label
    } else {
        match find(label, dash.as_slice(), 0) {
            Some(p) => {
                let r = vstd::slice::slice_subrange(label, p + dash.len(), label.len());
                proof {
                    assert(r@ == label@.skip(p + dash@.len()));
                }
                r
            },
            None => {
                return String::new();
            },
        }
    };
    proof {
        assert(region@ == region_label(host@));
        lemma_find_char_from(region@, '-', 0);
    }
    match find_char(region, '-', 0) {
        Some(_) => {
            proof {
                assert(region@.subrange(0, region@.len() as int) == region@);
            }
            string_of(region, 0, region.len())
        },
        None => String::new(),
    }
}

/// The last segment of a key: what stands behind its last slash.
pub open spec fn last_segment(s: Seq<char>) -> Seq<char> {
    match rfind_char(s, '/') {
        Some(i) => s.skip(i + 1),
        None => s,
    }
}

/// The name under which a key is shown: its last path segment, a single
/// trailing slash not counted.
pub open spec fn display_name_of(key: Seq<char>) -> Seq<char> {
    if key.len() > 0 && key.last() == '/' {
        last_segment(key.drop_last())
    } else {
        last_segment(key)
    }
}

/// Computes the display name of a key.
pub fn display_name(key: &[char]) -> (r: String)
    ensures
        r@ == display_name_of(key@),
{
    let n = key.len();
    let end: usize = if n > 0 && key[n - 1] == '/' {
        n - 1
    } else {
        n
    };
    let ghost body = key@.subrange(0, end as int);
    proof {
        if end == n {
            assert(body == key@);
        } else {
            assert(body == key@.drop_last());
        }
        crate::text::lemma_rfind_char_prefix(key@, '/', end as int);
        assert(key@.take(end as int) == body);
    }
    match rfind_char_in(key, '/', end) {
        Some(i) => {
            proof {
                assert(body.skip(i + 1) == key@.subrange(i + 1, end as int));
            }
            string_of(key, i + 1, end)
        },
        None => string_of(key, 0, end),
    }
}

/// Tests whether `lit` occurs in `hay`.
fn contains_text(hay: &[char], lit: &str) -> (r: bool)
    ensures
        r == (find_from(hay@, lit@, 0) is Some),
{
    let l = chars_of(lit);
    find(hay, l.as_slice(), 0).is_some()
}

/// The first of the known AWS regions that occurs in `lower`, or the empty
/// text.
pub open spec fn first_known_region(lower: Seq<char>) -> Seq<char> {
    if find_from(lower, "us-east-1"@, 0) is Some {
        "us-east-1"@
    } else     if find_from(lower, "us-east-2"@, 0) is Some {
        "us-east-2"@
    } else     if find_from(lower, "us-west-1"@, 0) is Some {
        "us-west-1"@
    } else     if find_from(lower, "us-west-2"@, 0) is Some {
        "us-west-2"@
    } else     if find_from(lower, "eu-west-1"@, 0) is Some {
        "eu-west-1"@
    } else     if find_from(lower, "eu-west-2"@, 0) is Some {
        "eu-west-2"@
    } else     if find_from(lower, "eu-west-3"@, 0) is Some {
        "eu-west-3"@
    } else     if find_from(lower, "eu-central-1"@, 0) is Some {
        "eu-central-1"@
    } else     if find_from(lower, "eu-north-1"@, 0) is Some {
        "eu-north-1"@
    } else     if find_from(lower, "ap-southeast-1"@, 0) is Some {
        "ap-southeast-1"@
    } else     if find_from(lower, "ap-southeast-2"@, 0) is Some {
        "ap-southeast-2"@
    } else     if find_from(lower, "ap-northeast-1"@, 0) is Some {
        "ap-northeast-1"@
    } else     if find_from(lower, "ap-northeast-2"@, 0) is Some {
        "ap-northeast-2"@
    } else     if find_from(lower, "ap-south-1"@, 0) is Some {
        "ap-south-1"@
    } else     if find_from(lower, "ca-central-1"@, 0) is Some {
        "ca-central-1"@
    } else     if find_from(lower, "sa-east-1"@, 0) is Some {
        "sa-east-1"@
    } else {
        Seq::empty()
    }
}

/// Finds the first known AWS region whose name occurs in `lower`.
pub fn known_region_in(lower: &[char]) -> (r: String)
    ensures
        r@ == first_known_region(lower@),
{
    if contains_text(lower, "us-east-1") {
        return text_of("us-east-1");
    }
    if contains_text(lower, "us-east-2") {
        return text_of("us-east-2");
    }
    if contains_text(lower, "us-west-1") {
        return text_of("us-west-1");
    }
    if contains_text(lower, "us-west-2") {
        return text_of("us-west-2");
    }
    if contains_text(lower, "eu-west-1") {
        return text_of("eu-west-1");
    }
    if contains_text(lower, "eu-west-2") {
        return text_of("eu-west-2");
    }
    if contains_text(lower, "eu-west-3") {
        return text_of("eu-west-3");
    }
    if contains_text(lower, "eu-central-1") {
        return text_of("eu-central-1");
    }
    if contains_text(lower, "eu-north-1") {
        return text_of("eu-north-1");
    }
    if contains_text(lower, "ap-southeast-1") {
        return text_of("ap-southeast-1");
    }
    if contains_text(lower, "ap-southeast-2") {
        return text_of("ap-southeast-2");
    }
    if contains_text(lower, "ap-northeast-1") {
        return text_of("ap-northeast-1");
    }
    if contains_text(lower, "ap-northeast-2") {
        return text_of("ap-northeast-2");
    }
    if contains_text(lower, "ap-south-1") {
        return text_of("ap-south-1");
    }
    if contains_text(lower, "ca-central-1") {
        return text_of("ca-central-1");
    }
    if contains_text(lower, "sa-east-1") {
        return text_of("sa-east-1");
    }
    String::new()
}

/// The region to retry with after a `PermanentRedirect`: the one that the
/// response's `<Endpoint>` names; else the first known region that occurs in
/// the lowercased bucket name; else `us-east-1`.
pub open spec fn redirect_target(body: Seq<char>, bucket: Seq<char>) -> Seq<char> {
    let endpoint = tag_or_empty(body, "Endpoint"@);
    let from_endpoint = if endpoint.len() == 0 {
        Seq::empty()
    } else {
        endpoint_region(endpoint)
    };
    if from_endpoint.len() > 0 {
        from_endpoint
    } else {
        let from_bucket = first_known_region(unicode_lowercase(bucket));
        if from_bucket.len() > 0 {
            from_bucket
        } else {
            "us-east-1"@
        }
    }
}

/// The region to retry with after a `PermanentRedirect`, where it differs
/// from the region that was tried.
pub open spec fn redirect_region(body: Seq<char>, bucket: Seq<char>, current: Seq<char>) -> Option<
    Seq<char>,
> {
    let target = redirect_target(body, bucket);
    if target.len() > 0 && target != current {
        Some(target)
    } else {
        None
    }
}

/// Determines the region to retry with from a `PermanentRedirect` response.
/// Returns `None` where the region found is the one that was tried.
pub fn resolve_redirect_region(response_body: &[char], bucket: &str, current_region: &str) -> (r:
    Option<String>)
    ensures
        r.deep_view() == redirect_region(response_body@, bucket@, current_region@),
{
    let endpoint = extract_tag(response_body, "Endpoint");
    let mut region = if endpoint.as_str().is_empty() {
        String::new()
    } else {
        extract_region_from_endpoint(endpoint.as_str())
    };
    if region.as_str().is_empty() {
        let lower = to_lowercase(bucket);
        let l = chars_of(lower.as_str());
        region = known_region_in(l.as_slice());
    }
    if region.as_str().is_empty() {
        region = text_of("us-east-1");
    }
    if !region.as_str().is_empty() && !crate::text::str_equals(region.as_str(), current_region) {
        Some(region)
    } else {
        None
    }
}

/// Where a `<tag>…</tag>` block stands: `at` is the index of its opening
/// tag, `[start, end)` its content, `after` the index behind its closing tag.
#[derive(Clone, Copy, Debug)]
pub struct Block {
    pub at: usize,
    pub start: usize,
    pub end: usize,
    pub after: usize,
}

/// Finds the first `<tag>…</tag>` block at or after `from`.
pub fn next_block(xml: &[char], tag: &[char], from: usize) -> (r: Option<Block>)
    ensures
        match r {
            Some(b) => {
                &&& tag_span(xml@, tag@, from as int) == Some((b.start as int, b.end as int))
                &&& b.at + open_tag(tag@).len() == b.start
                &&& b.end + close_tag(tag@).len() == b.after
                &&& from <= b.at <= b.start <= b.end <= b.after <= xml@.len()
                &&& from < b.after
            },
            None => tag_span(xml@, tag@, from as int) is None,
        },
{
    let open_len = make_open_tag(tag).len();
    let close_len = make_close_tag(tag).len();
    let n = xml.len();
    proof {
        lemma_tag_span(xml@, tag@, from as int);
    }
    match find_tag_span(xml, tag, from) {
        None => None,
        Some((start, end)) => Some(
            Block { at: start - open_len, start, end, after: end + close_len },
        ),
    }
}

/// The bucket that a `<Bucket>` block describes, where it has a name.
pub open spec fn bucket_of(block: Seq<char>) -> Option<S3BucketView> {
    let name = tag_or_empty(block, "Name"@);
    if name.len() == 0 {
        None
    } else {
        Some(S3BucketView { name, creation_date: tag_or_empty(block, "CreationDate"@) })
    }
}

/// The buckets of the `<Bucket>` blocks of `xml` from `from` on, in order.
pub open spec fn bucket_entries(xml: Seq<char>, from: int) -> Seq<S3BucketView>
    decreases xml.len() - from,
{
    match tag_span(xml, "Bucket"@, from) {
        Some((start, end)) if from < end + close_tag("Bucket"@).len() <= xml.len() => {
            let block = xml.subrange(
                start - open_tag("Bucket"@).len(),
                end + close_tag("Bucket"@).len(),
            );
            let head = match bucket_of(block) {
                Some(b) => seq![b],
                None => Seq::empty(),
            };
            head + bucket_entries(xml, end + close_tag("Bucket"@).len())
        },
        _ => Seq::empty(),
    }
}

/// Parses a bucket listing: one bucket for each `<Bucket>` block that has a
/// `<Name>`, with its `<CreationDate>`.
pub fn parse_list_buckets_xml(xml: &str) -> (r: Vec<S3Bucket>)
    ensures
        r.deep_view() == bucket_entries(xml@, 0),
{
    let x = chars_of(xml);
    let tag = chars_of("Bucket");
    let n = x.len();
    let mut buckets: Vec<S3Bucket> = Vec::new();
    let mut pos: usize = 0;
    assert(buckets.deep_view() + bucket_entries(x@, 0) == bucket_entries(x@, 0));
    loop
        invariant_except_break
            bucket_entries(x@, 0) == buckets.deep_view() + bucket_entries(x@, pos as int),
        invariant
            pos <= x@.len(),
            n == x@.len(),
            tag@ == "Bucket"@,
        ensures
            buckets.deep_view() == bucket_entries(x@, 0),
        decreases x@.len() - pos,
    {
        match next_block(x.as_slice(), tag.as_slice(), pos) {
            None => {
                assert(buckets.deep_view() + Seq::<S3BucketView>::empty() == buckets.deep_view());
                break;
            },
            Some(b) => {
                let block = vstd::slice::slice_subrange(x.as_slice(), b.at, b.after);
                let name = extract_tag(block, "Name");
                let creation_date = extract_tag(block, "CreationDate");
                let ghost prev = buckets.deep_view();
                let ghost rest = bucket_entries(x@, b.after as int);
                if !name.as_str().is_empty() {
                    let bucket = S3Bucket { name, creation_date };
                    proof {
                        lemma_deep_view_push(buckets@, buckets@.push(bucket), bucket);
                        assert(prev + (seq![bucket@] + rest) == prev.push(bucket@) + rest);
                    }
                    buckets.push(bucket);
                } else {
                    assert(prev + (Seq::<S3BucketView>::empty() + rest) == prev + rest);
                }
                pos = b.after;
            },
        }
    }
    buckets
}

/// The result of parsing an object listing.
#[derive(Debug)]
pub struct ListObjectsResult {
    pub objects: Vec<S3Object>,
    pub next_continuation_token: String,
    pub is_truncated: bool,
    pub error: String,
}

/// The mathematical value of a [`ListObjectsResult`].
pub ghost struct ListObjectsResultView {
    pub objects: Seq<S3ObjectView>,
    pub next_continuation_token: Seq<char>,
    pub is_truncated: bool,
    pub error: Seq<char>,
}

impl View for ListObjectsResult {
    type V = ListObjectsResultView;

    open spec fn view(&self) -> ListObjectsResultView {
        ListObjectsResultView {
            objects: self.objects.deep_view(),
            next_continuation_token: self.next_continuation_token@,
            is_truncated: self.is_truncated,
            error: self.error@,
        }
    }
}

/// The folder entry for a common prefix.
pub open spec fn folder_object(prefix: Seq<char>) -> S3ObjectView {
    S3ObjectView {
        key: prefix,
        display_name: display_name_of(prefix),
        size: 0,
        last_modified: Seq::empty(),
        is_folder: true,
    }
}

/// The folder entries of the `<CommonPrefixes>` blocks of `xml` from `from`
/// on: one for each block with a non-empty `<Prefix>`.
pub open spec fn folder_entries(xml: Seq<char>, from: int) -> Seq<S3ObjectView>
    decreases xml.len() - from,
{
    match tag_span(xml, "CommonPrefixes"@, from) {
        Some((start, end)) if from < end + close_tag("CommonPrefixes"@).len() <= xml.len() => {
            let block = xml.subrange(start - open_tag("CommonPrefixes"@).len(), end);
            let prefix = tag_or_empty(block, "Prefix"@);
            let head = if prefix.len() == 0 {
                Seq::empty()
            } else {
                seq![folder_object(prefix)]
            };
            head + folder_entries(xml, end + close_tag("CommonPrefixes"@).len())
        },
        _ => Seq::empty(),
    }
}

/// The file entry that a `<Contents>` block describes: its key, size and
/// modification time. No entry for an empty key or one that ends in a slash;
/// a size that is no number counts as zero.
pub open spec fn file_object(block: Seq<char>) -> Option<S3ObjectView> {
    let key = tag_or_empty(block, "Key"@);
    if key.len() == 0 || key.last() == '/' {
        None
    } else {
        Some(
            S3ObjectView {
                key,
                display_name: last_segment(key),
                size: match parsed_i64(tag_or_empty(block, "Size"@)) {
                    Some(n) => n,
                    None => 0,
                },
                last_modified: tag_or_empty(block, "LastModified"@),
                is_folder: false,
            },
        )
    }
}

/// The file entries of the `<Contents>` blocks of `xml` from `from` on.
pub open spec fn file_entries(xml: Seq<char>, from: int) -> Seq<S3ObjectView>
    decreases xml.len() - from,
{
    match tag_span(xml, "Contents"@, from) {
        Some((start, end)) if from < end + close_tag("Contents"@).len() <= xml.len() => {
            let block = xml.subrange(start - open_tag("Contents"@).len(), end);
            let head = match file_object(block) {
                Some(o) => seq![o],
                None => Seq::empty(),
            };
            head + file_entries(xml, end + close_tag("Contents"@).len())
        },
        _ => Seq::empty(),
    }
}

/// What an object listing says: its error, where it reports one, and nothing
/// else; otherwise the folders of its common prefixes, then its files, with
/// the truncation flag and the token for the next page.
pub open spec fn list_objects_result(xml: Seq<char>) -> ListObjectsResultView {
    if response_error(xml).len() > 0 {
        ListObjectsResultView {
            objects: Seq::empty(),
            next_continuation_token: Seq::empty(),
            is_truncated: false,
            error: response_error(xml),
        }
    } else {
        ListObjectsResultView {
            objects: folder_entries(xml, 0) + file_entries(xml, 0),
            next_continuation_token: tag_or_empty(xml, "NextContinuationToken"@),
            is_truncated: tag_or_empty(xml, "IsTruncated"@) == "true"@,
            error: Seq::empty(),
        }
    }
}

/// Appends the folder entries of `x` to `objects`.
fn parse_folders(x: &[char], objects: &mut Vec<S3Object>)
    ensures
        final(objects).deep_view() == old(objects).deep_view() + folder_entries(x@, 0),
{
    let tag = chars_of("CommonPrefixes");
    let n = x.len();
    let mut pos: usize = 0;
    let ghost before = objects.deep_view();
    let ghost mut done: Seq<S3ObjectView> = Seq::empty();
    assert(before + done == before);
    assert(done + folder_entries(x@, 0) == folder_entries(x@, 0));
    loop
        invariant_except_break
            folder_entries(x@, 0) == done + folder_entries(x@, pos as int),
        invariant
            pos <= x@.len(),
            n == x@.len(),
            tag@ == "CommonPrefixes"@,
            objects.deep_view() == before + done,
        ensures
            objects.deep_view() == before + folder_entries(x@, 0),
        decreases x@.len() - pos,
    {
        match next_block(x, tag.as_slice(), pos) {
            None => {
                assert(done + Seq::<S3ObjectView>::empty() == done);
                break;
            },
            Some(b) => {
                let block = vstd::slice::slice_subrange(x, b.at, b.end);
                let prefix = extract_tag(block, "Prefix");
                let ghost rest = folder_entries(x@, b.after as int);
                if !prefix.as_str().is_empty() {
                    let p = chars_of(prefix.as_str());
                    let entry = S3Object {
                        display_name: display_name(p.as_slice()),
                        key: prefix,
                        size: 0,
                        last_modified: String::new(),
                        is_folder: true,
                    };
                    proof {
                        lemma_deep_view_push(objects@, objects@.push(entry), entry);
                        assert(entry@ == folder_object(p@));
                        assert(done + (seq![entry@] + rest) == done.push(entry@) + rest);
                        assert((before + done).push(entry@) == before + done.push(entry@));
                        done = done.push(entry@);
                    }
                    objects.push(entry);
                } else {
                    assert(done + (Seq::<S3ObjectView>::empty() + rest) == done + rest);
                }
                pos = b.after;
            },
        }
    }
}

/// Appends the file entries of `x` to `objects`.
fn parse_files(x: &[char], objects: &mut Vec<S3Object>)
    ensures
        final(objects).deep_view() == old(objects).deep_view() + file_entries(x@, 0),
{
    let tag = chars_of("Contents");
    let n = x.len();
    let mut pos: usize = 0;
    let ghost before = objects.deep_view();
    let ghost mut done: Seq<S3ObjectView> = Seq::empty();
    assert(before + done == before);
    assert(done + file_entries(x@, 0) == file_entries(x@, 0));
    loop
        invariant_except_break
            file_entries(x@, 0) == done + file_entries(x@, pos as int),
        invariant
            pos <= x@.len(),
            n == x@.len(),
            tag@ == "Contents"@,
            objects.deep_view() == before + done,
        ensures
            objects.deep_view() == before + file_entries(x@, 0),
        decreases x@.len() - pos,
    {
        match next_block(x, tag.as_slice(), pos) {
            None => {
                assert(done + Seq::<S3ObjectView>::empty() == done);
                break;
            },
            Some(b) => {
                let block = vstd::slice::slice_subrange(x, b.at, b.end);
                let key = extract_tag(block, "Key");
                let size_text = extract_tag(block, "Size");
                let digits = chars_of(size_text.as_str());
                let size: i64 = match parse_i64(digits.as_slice()) {
                    Some(n) => n,
                    None => 0,
                };
                let last_modified = extract_tag(block, "LastModified");
                let k = chars_of(key.as_str());
                let ghost rest = file_entries(x@, b.after as int);
                if k.len() > 0 && k[k.len() - 1] != '/' {
                    proof {
                        crate::text::lemma_rfind_char_prefix(k@, '/', k@.len() as int);
                        assert(k@.take(k@.len() as int) == k@);
                    }
                    let name = match rfind_char_in(k.as_slice(), '/', k.len()) {
                        Some(i) => {
                            proof {
                                assert(k@.skip(i + 1) == k@.subrange(i + 1, k@.len() as int));
                            }
                            string_of(k.as_slice(), i + 1, k.len())
                        },
                        None => {
                            proof {
                                assert(k@.subrange(0, k@.len() as int) == k@);
                            }
                            string_of(k.as_slice(), 0, k.len())
                        },
                    };
                    let entry = S3Object {
                        key,
                        display_name: name,
                        size,
                        last_modified,
                        is_folder: false,
                    };
                    proof {
                        lemma_deep_view_push(objects@, objects@.push(entry), entry);
                        assert(Some(entry@) == file_object(block@));
                        assert(done + (seq![entry@] + rest) == done.push(entry@) + rest);
                        assert((before + done).push(entry@) == before + done.push(entry@));
                        done = done.push(entry@);
                    }
                    objects.push(entry);
                } else {
                    assert(file_object(block@) is None);
                    assert(done + (Seq::<S3ObjectView>::empty() + rest) == done + rest);
                }
                pos = b.after;
            },
        }
    }
}

/// Parses an object listing into entries and pagination state.
pub fn parse_list_objects_xml(xml: &str) -> (r: ListObjectsResult)
    ensures
        r@ == list_objects_result(xml@),
{
    let x = chars_of(xml);
    let error = extract_error(x.as_slice());
    if !error.as_str().is_empty() {
        let r = ListObjectsResult {
            objects: Vec::new(),
            next_continuation_token: String::new(),
            is_truncated: false,
            error,
        };
        assert(r.objects.deep_view() =~= Seq::<S3ObjectView>::empty());
        return r;
    }
    let truncated = extract_tag(x.as_slice(), "IsTruncated");
    let is_truncated = crate::text::str_equals(truncated.as_str(), "true");
    let next_continuation_token = extract_tag(x.as_slice(), "NextContinuationToken");
    let mut objects: Vec<S3Object> = Vec::new();
    assert(objects.deep_view() =~= Seq::<S3ObjectView>::empty());
    parse_folders(x.as_slice(), &mut objects);
    parse_files(x.as_slice(), &mut objects);
    assert(objects.deep_view() =~= folder_entries(x@, 0) + file_entries(x@, 0));
    ListObjectsResult { objects, next_continuation_token, is_truncated, error }
}

/// A request waiting in a queue.
#[derive(Debug)]
pub enum WorkItem {
    ListBuckets,
    ListObjects {
        bucket: String,
        prefix: String,
        continuation_token: String,
        cancel_flag: Option<CancelFlag>,
    },
    GetObject { bucket: String, key: String, max_bytes: Option<usize>, cancel_flag: Option<CancelFlag> },
    GetObjectRange {
        bucket: String,
        key: String,
        start_byte: usize,
        end_byte: usize,
        cancel_flag: Option<CancelFlag>,
    },
    GetObjectStreaming {
        bucket: String,
        key: String,
        start_byte: usize,
        total_size: usize,
        cancel_flag: Option<CancelFlag>,
    },
}

/// The mathematical value of a [`WorkItem`].
pub ghost enum WorkItemView {
    ListBuckets,
    ListObjects {
        bucket: Seq<char>,
        prefix: Seq<char>,
        continuation_token: Seq<char>,
        cancel_flag: Option<CancelFlag>,
    },
    GetObject {
        bucket: Seq<char>,
        key: Seq<char>,
        max_bytes: Option<usize>,
        cancel_flag: Option<CancelFlag>,
    },
    GetObjectRange {
        bucket: Seq<char>,
        key: Seq<char>,
        start_byte: usize,
        end_byte: usize,
        cancel_flag: Option<CancelFlag>,
    },
    GetObjectStreaming {
        bucket: Seq<char>,
        key: Seq<char>,
        start_byte: usize,
        total_size: usize,
        cancel_flag: Option<CancelFlag>,
    },
}

impl View for WorkItem {
    type V = WorkItemView;

    open spec fn view(&self) -> WorkItemView {
        match self {
            WorkItem::ListBuckets => WorkItemView::ListBuckets,
            WorkItem::ListObjects { bucket, prefix, continuation_token, cancel_flag } => {
                WorkItemView::ListObjects {
                    bucket: bucket@,
                    prefix: prefix@,
                    continuation_token: continuation_token@,
                    cancel_flag: *cancel_flag,
                }
            },
            WorkItem::GetObject { bucket, key, max_bytes, cancel_flag } => WorkItemView::GetObject {
                bucket: bucket@,
                key: key@,
                max_bytes: *max_bytes,
                cancel_flag: *cancel_flag,
            },
            WorkItem::GetObjectRange { bucket, key, start_byte, end_byte, cancel_flag } => {
                WorkItemView::GetObjectRange {
                    bucket: bucket@,
                    key: key@,
                    start_byte: *start_byte,
                    end_byte: *end_byte,
                    cancel_flag: *cancel_flag,
                }
            },
            WorkItem::GetObjectStreaming { bucket, key, start_byte, total_size, cancel_flag } => {
                WorkItemView::GetObjectStreaming {
                    bucket: bucket@,
                    key: key@,
                    start_byte: *start_byte,
                    total_size: *total_size,
                    cancel_flag: *cancel_flag,
                }
            },
        }
    }
}

impl DeepView for WorkItem {
    type V = WorkItemView;

    open spec fn deep_view(&self) -> WorkItemView {
        self@
    }
}

impl WorkItemView {
    /// The cancel flag that the item carries.
    pub open spec fn cancel_flag(self) -> Option<CancelFlag> {
        match self {
            WorkItemView::ListBuckets => None,
            WorkItemView::ListObjects { cancel_flag, .. } => cancel_flag,
            WorkItemView::GetObject { cancel_flag, .. } => cancel_flag,
            WorkItemView::GetObjectRange { cancel_flag, .. } => cancel_flag,
            WorkItemView::GetObjectStreaming { cancel_flag, .. } => cancel_flag,
        }
    }

    /// The item without its cancel flag.
    pub open spec fn without_cancel_flag(self) -> WorkItemView {
        match self {
            WorkItemView::ListBuckets => WorkItemView::ListBuckets,
            WorkItemView::ListObjects { bucket, prefix, continuation_token, .. } => {
                WorkItemView::ListObjects { bucket, prefix, continuation_token, cancel_flag: None }
            },
            WorkItemView::GetObject { bucket, key, max_bytes, .. } => WorkItemView::GetObject {
                bucket,
                key,
                max_bytes,
                cancel_flag: None,
            },
            WorkItemView::GetObjectRange { bucket, key, start_byte, end_byte, .. } => {
                WorkItemView::GetObjectRange { bucket, key, start_byte, end_byte, cancel_flag: None }
            },
            WorkItemView::GetObjectStreaming { bucket, key, start_byte, total_size, .. } => {
                WorkItemView::GetObjectStreaming {
                    bucket,
                    key,
                    start_byte,
                    total_size,
                    cancel_flag: None,
                }
            },
        }
    }

    /// Whether the item is a listing of `name` in `bucket` (for `objects`
    /// false) or a fetch of the object `name` in `bucket` (for `objects` true).
    pub open spec fn targets(self, objects: bool, bucket: Seq<char>, name: Seq<char>) -> bool {
        match self {
            WorkItemView::ListObjects { bucket: b, prefix: p, .. } => !objects && b == bucket && p
                == name,
            WorkItemView::GetObject { bucket: b, key: k, .. } => objects && b == bucket && k
                == name,
            _ => false,
        }
    }
}

/// The least index at or after `from` of an item of `queue` that targets the
/// given listing or object.
pub open spec fn first_target(
    queue: Seq<WorkItemView>,
    objects: bool,
    bucket: Seq<char>,
    name: Seq<char>,
    from: int,
) -> Option<int>
    decreases queue.len() - from,
{
    if from < 0 || from >= queue.len() {
        None
    } else if queue[from].targets(objects, bucket, name) {
        Some(from)
    } else {
        first_target(queue, objects, bucket, name, from + 1)
    }
}

/// Clears the cancel flag of a work item: a request promoted to the
/// foreground is no longer cancelled by hovering elsewhere.
pub fn clear_cancel_flag(item: WorkItem) -> (r: WorkItem)
    ensures
        r@ == item@.without_cancel_flag(),
{
    match item {
        WorkItem::ListBuckets => WorkItem::ListBuckets,
        WorkItem::ListObjects { bucket, prefix, continuation_token, cancel_flag } => {
            WorkItem::ListObjects { bucket, prefix, continuation_token, cancel_flag: None }
        },
        WorkItem::GetObject { bucket, key, max_bytes, cancel_flag } => WorkItem::GetObject {
            bucket,
            key,
            max_bytes,
            cancel_flag: None,
        },
        WorkItem::GetObjectRange { bucket, key, start_byte, end_byte, cancel_flag } => {
            WorkItem::GetObjectRange { bucket, key, start_byte, end_byte, cancel_flag: None }
        },
        WorkItem::GetObjectStreaming { bucket, key, start_byte, total_size, cancel_flag } => {
            WorkItem::GetObjectStreaming { bucket, key, start_byte, total_size, cancel_flag: None }
        },
    }
}

/// Tests whether a work item targets the given listing or object.
pub fn item_targets(item: &WorkItem, objects: bool, bucket: &str, name: &str) -> (r: bool)
    ensures
        r == item@.targets(objects, bucket@, name@),
{
    match item {
        WorkItem::ListObjects { bucket: b, prefix: p, .. } => {
            !objects && crate::text::str_equals(b.as_str(), bucket) && crate::text::str_equals(
                p.as_str(),
                name,
            )
        },
        WorkItem::GetObject { bucket: b, key: k, .. } => {
            objects && crate::text::str_equals(b.as_str(), bucket) && crate::text::str_equals(
                k.as_str(),
                name,
            )
        },
        _ => false,
    }
}

/// Returns the cancel flag that a work item carries.
pub fn item_cancel_flag(item: &WorkItem) -> (r: Option<CancelFlag>)
    ensures
        r == item@.cancel_flag(),
{
    match item {
        WorkItem::ListBuckets => None,
        WorkItem::ListObjects { cancel_flag, .. } => *cancel_flag,
        WorkItem::GetObject { cancel_flag, .. } => *cancel_flag,
        WorkItem::GetObjectRange { cancel_flag, .. } => *cancel_flag,
        WorkItem::GetObjectStreaming { cancel_flag, .. } => *cancel_flag,
    }
}

/// The state of the request engine: the active profile, the two queues, the
/// events not yet taken, the region of each bucket seen, and the cancel flags.
pub struct S3Backend {
    profile: AWSProfile,
    events: Vec<StateEvent>,
    high_queue: VecDeque<WorkItem>,
    low_queue: VecDeque<WorkItem>,
    hover_list: Option<CancelFlag>,
    hover_object: Option<CancelFlag>,
    region_buckets: Vec<String>,
    region_names: Vec<String>,
    cancelled: Vec<u64>,
    next_flag: u64,
}

/// The mathematical value of an [`S3Backend`].
pub ghost struct S3BackendView {
    /// The active profile.
    pub profile: AWSProfileView,
    /// The events that the model has not taken yet, oldest first.
    pub events: Seq<StateEventView>,
    /// The foreground queue, served from the front.
    pub high: Seq<WorkItemView>,
    /// The background queue, served from the front.
    pub low: Seq<WorkItemView>,
    /// The flag of the latest cancellable hover request for a listing.
    pub hover_list: Option<CancelFlag>,
    /// The flag of the latest cancellable hover request for an object.
    pub hover_object: Option<CancelFlag>,
    /// The region cached for each bucket.
    pub regions: Map<Seq<char>, Seq<char>>,
    /// The identifiers of the flags that have been set.
    pub cancelled: Set<u64>,
    /// The identifier that the next flag gets.
    pub next_flag: u64,
}

impl S3BackendView {
    /// The state with `item` at the tail of the foreground queue.
    pub open spec fn enqueue_high(self, item: WorkItemView) -> S3BackendView {
        S3BackendView { high: self.high.push(item), ..self }
    }

    /// The state with `item` at the head of the background queue, so that the
    /// latest prefetch is served first.
    pub open spec fn enqueue_low(self, item: WorkItemView) -> S3BackendView {
        S3BackendView { low: seq![item] + self.low, ..self }
    }

    /// The state with `event` behind the pending events.
    pub open spec fn push_event(self, event: StateEventView) -> S3BackendView {
        S3BackendView { events: self.events.push(event), ..self }
    }

    /// The state with `flag` set, where this engine issued it.
    pub open spec fn cancel(self, flag: CancelFlag) -> S3BackendView {
        if flag.id < self.next_flag {
            S3BackendView { cancelled: self.cancelled.insert(flag.id), ..self }
        } else {
            self
        }
    }

    /// The flag that is issued next.
    pub open spec fn fresh_flag(self) -> CancelFlag {
        CancelFlag { id: self.next_flag }
    }

    /// The state after a flag has been issued.
    pub open spec fn issue_flag(self) -> S3BackendView {
        if self.next_flag < u64::MAX {
            S3BackendView { next_flag: (self.next_flag + 1) as u64, ..self }
        } else {
            self
        }
    }

    /// Whether `flag` was issued: its number lies below the number of the
    /// next flag. Once the numbers have run out, the last one is issued
    /// again and again.
    pub open spec fn issued(self, flag: Option<CancelFlag>) -> bool {
        match flag {
            Some(f) => f.id < self.next_flag || self.next_flag == u64::MAX,
            None => true,
        }
    }

    /// The flags remembered for the hover requests were issued, and the two
    /// categories do not share a flag while the numbers have not run out.
    pub open spec fn hover_flags_issued(self) -> bool {
        &&& self.issued(self.hover_list)
        &&& self.issued(self.hover_object)
        &&& self.hover_list is Some && self.hover_object is Some ==> self.hover_list
            != self.hover_object || self.next_flag == u64::MAX
    }

    /// The flag of the latest hover request of a category: for objects, or
    /// for listings.
    pub open spec fn hover(self, objects: bool) -> Option<CancelFlag> {
        if objects {
            self.hover_object
        } else {
            self.hover_list
        }
    }

    /// The state with the previous hover request of the category cancelled.
    pub open spec fn hover_cancelled(self, objects: bool) -> S3BackendView {
        match self.hover(objects) {
            Some(previous) => self.cancel(previous),
            None => self,
        }
    }

    /// The state after a hover request of a category has been announced: for
    /// a cancellable one, the flag of the previous hover request of that
    /// category is set, and a fresh flag takes its place.
    pub open spec fn hover_step(self, objects: bool, cancellable: bool) -> S3BackendView {
        if cancellable {
            let cancelled = self.hover_cancelled(objects);
            if objects {
                S3BackendView {
                    hover_object: Some(cancelled.fresh_flag()),
                    ..cancelled.issue_flag()
                }
            } else {
                S3BackendView { hover_list: Some(cancelled.fresh_flag()), ..cancelled.issue_flag() }
            }
        } else {
            self
        }
    }

    /// The flag that a hover request carries.
    pub open spec fn hover_flag(self, objects: bool, cancellable: bool) -> Option<CancelFlag> {
        if cancellable {
            Some(self.hover_cancelled(objects).fresh_flag())
        } else {
            None
        }
    }

    /// The state after a boost: the first matching item of the background
    /// queue, its cancel flag cleared, stands at the front of the foreground
    /// queue; unchanged where the background queue holds no such item.
    pub open spec fn boost(self, objects: bool, bucket: Seq<char>, name: Seq<char>) -> S3BackendView {
        match first_target(self.low, objects, bucket, name, 0) {
            Some(i) => S3BackendView {
                low: self.low.remove(i),
                high: seq![self.low[i].without_cancel_flag()] + self.high,
                ..self
            },
            None => self,
        }
    }

    /// Whether a matching item is pending in either queue.
    pub open spec fn pending(self, objects: bool, bucket: Seq<char>, name: Seq<char>) -> bool {
        first_target(self.high, objects, bucket, name, 0) is Some || first_target(
            self.low,
            objects,
            bucket,
            name,
            0,
        ) is Some
    }

    /// The region cached for `bucket`, or the empty text.
    pub open spec fn cached_region(self, bucket: Seq<char>) -> Seq<char> {
        if self.regions.dom().contains(bucket) {
            self.regions[bucket]
        } else {
            Seq::empty()
        }
    }

    /// The region in which requests for `bucket` are made: the cached one;
    /// else the profile's; else `us-east-1`.
    pub open spec fn region_for(self, bucket: Seq<char>) -> Seq<char> {
        if self.cached_region(bucket).len() > 0 {
            self.cached_region(bucket)
        } else if self.profile.region.len() > 0 {
            self.profile.region
        } else {
            "us-east-1"@
        }
    }

    /// The state with `region` cached for `bucket`.
    pub open spec fn cache_region(self, bucket: Seq<char>, region: Seq<char>) -> S3BackendView {
        S3BackendView { regions: self.regions.insert(bucket, region), ..self }
    }
}

/// `first_target` returns the first matching index, and `None` exactly when
/// no item matches.
pub proof fn lemma_first_target(
    queue: Seq<WorkItemView>,
    objects: bool,
    bucket: Seq<char>,
    name: Seq<char>,
    from: int,
)
    requires
        0 <= from,
    ensures
        match first_target(queue, objects, bucket, name, from) {
            Some(i) => {
                &&& from <= i < queue.len()
                &&& queue[i].targets(objects, bucket, name)
                &&& forall|j: int| from <= j < i ==> !queue[j].targets(objects, bucket, name)
            },
            None => forall|j: int|
                from <= j < queue.len() ==> !queue[j].targets(objects, bucket, name),
        },
    decreases queue.len() - from,
{
    if from < queue.len() && !queue[from].targets(objects, bucket, name) {
        lemma_first_target(queue, objects, bucket, name, from + 1);
    }
}

/// Finds the first item of a queue that targets the given listing or object.
fn find_target(queue: &VecDeque<WorkItem>, objects: bool, bucket: &str, name: &str) -> (r: Option<
    usize,
>)
    ensures
        match r {
            Some(i) => first_target(queue.deep_view(), objects, bucket@, name@, 0) == Some(
                i as int,
            ) && i < queue@.len(),
            None => first_target(queue.deep_view(), objects, bucket@, name@, 0) is None,
        },
{
    let mut i: usize = 0;
    while i < queue.len()
        invariant
            i <= queue@.len(),
            first_target(queue.deep_view(), objects, bucket@, name@, 0) == first_target(
                queue.deep_view(),
                objects,
                bucket@,
                name@,
                i as int,
            ),
        decreases queue@.len() - i,
    {
        if item_targets(&queue[i], objects, bucket, name) {
            return Some(i);
        }
        i += 1;
    }
    None
}

impl View for S3Backend {
    type V = S3BackendView;

    closed spec fn view(&self) -> S3BackendView {
        S3BackendView {
            profile: self.profile@,
            events: self.events.deep_view(),
            high: self.high_queue.deep_view(),
            low: self.low_queue.deep_view(),
            hover_list: self.hover_list,
            hover_object: self.hover_object,
            regions: assoc_map(self.region_buckets.deep_view(), self.region_names.deep_view()),
            cancelled: self.cancelled@.to_set(),
            next_flag: self.next_flag,
        }
    }
}

impl S3Backend {
    /// The bookkeeping is consistent: each bucket has one cached region,
    /// only flags that were issued are set, and the flags remembered for the
    /// hover requests were issued, one for each category.
    pub closed spec fn wf(&self) -> bool {
        &&& self.region_buckets@.len() == self.region_names@.len()
        &&& self.region_buckets.deep_view().no_duplicates()
        &&& forall|i: int| 0 <= i < self.cancelled@.len() ==> self.cancelled@[i] < self.next_flag
        &&& self@.hover_flags_issued()
    }

    /// The flags remembered for the hover requests were issued by this
    /// engine, and the two categories do not share a flag.
    pub proof fn lemma_hover_flags_issued(&self)
        requires
            self.wf(),
        ensures
            self@.hover_flags_issued(),
    {
    }

    /// Only flags that were issued are set: a fresh flag is never set.
    pub proof fn lemma_fresh_flag_is_clear(&self)
        requires
            self.wf(),
        ensures
            !self@.cancelled.contains(self@.next_flag),
            forall|id: u64| self@.cancelled.contains(id) ==> id < self@.next_flag,
    {
        assert forall|id: u64| self@.cancelled.contains(id) implies id < self@.next_flag by {
            let i = choose|i: int| 0 <= i < self.cancelled@.len() && self.cancelled@[i] == id;
            assert(self.cancelled@[i] < self.next_flag);
        }
    }

    /// Creates an engine for `profile` with empty queues and no cached region.
    pub fn new(profile: AWSProfile) -> (r: Self)
        ensures
            r.wf(),
            r@ == (S3BackendView {
                profile: profile@,
                events: Seq::empty(),
                high: Seq::empty(),
                low: Seq::empty(),
                hover_list: None,
                hover_object: None,
                regions: Map::empty(),
                cancelled: Set::empty(),
                next_flag: 0,
            }),
    {
        let r = S3Backend {
            profile,
            events: Vec::new(),
            high_queue: VecDeque::new(),
            low_queue: VecDeque::new(),
            hover_list: None,
            hover_object: None,
            region_buckets: Vec::new(),
            region_names: Vec::new(),
            cancelled: Vec::new(),
            next_flag: 0,
        };
        proof {
            lemma_assoc_empty::<Seq<char>, Seq<char>>();
            assert(r.region_buckets.deep_view() =~= Seq::<Seq<char>>::empty());
            assert(r.region_names.deep_view() =~= Seq::<Seq<char>>::empty());
            assert(r.events.deep_view() =~= Seq::<StateEventView>::empty());
            assert(r.high_queue.deep_view() =~= Seq::<WorkItemView>::empty());
            assert(r.low_queue.deep_view() =~= Seq::<WorkItemView>::empty());
            assert(r.cancelled@.to_set() =~= Set::<u64>::empty());
        }
        r
    }

    /// Appends an item to the foreground queue.
    pub fn enqueue_high(&mut self, item: WorkItem)
        requires
            old(self).wf(),
        ensures
            final(self).wf(),
            final(self)@ == old(self)@.enqueue_high(item@),
    {
        proof {
            lemma_deep_view_push(self.high_queue@, self.high_queue@.push(item), item);
        }
        self.high_queue.push_back(item);
    }

    /// Puts an item at the head of the background queue.
    pub fn enqueue_low(&mut self, item: WorkItem)
        requires
            old(self).wf(),
        ensures
            final(self).wf(),
            final(self)@ == old(self)@.enqueue_low(item@),
    {
        let ghost view = item@;
        self.low_queue.push_front(item);
        proof {
            assert(self.low_queue.deep_view() =~= seq![view] + old(self).low_queue.deep_view());
        }
    }

    /// Queues an event for the model.
    pub fn push_event(&mut self, event: StateEvent)
        requires
            old(self).wf(),
        ensures
            final(self).wf(),
            final(self)@ == old(self)@.push_event(event@),
    {
        proof {
            lemma_deep_view_push(self.events@, self.events@.push(event), event);
        }
        self.events.push(event);
    }

    /// Takes all pending events, oldest first, and leaves none behind.
    pub fn take_events(&mut self) -> (r: Vec<StateEvent>)
        requires
            old(self).wf(),
        ensures
            final(self).wf(),
            r.deep_view() == old(self)@.events,
            final(self)@ == (S3BackendView { events: Seq::empty(), ..old(self)@ }),
    {
        let mut taken: Vec<StateEvent> = Vec::new();
        std::mem::swap(&mut taken, &mut self.events);
        proof {
            assert(self.events.deep_view() =~= Seq::<StateEventView>::empty());
        }
        taken
    }

    /// Issues a flag that is not set.
    pub fn new_cancel_flag(&mut self) -> (flag: CancelFlag)
        requires
            old(self).wf(),
        ensures
            final(self).wf(),
            flag == old(self)@.fresh_flag(),
            final(self)@ == old(self)@.issue_flag(),
            !old(self)@.cancelled.contains(flag.id),
    {
        proof {
            self.lemma_fresh_flag_is_clear();
        }
        let flag = CancelFlag { id: self.next_flag };
        if self.next_flag < u64::MAX {
            self.next_flag = self.next_flag + 1;
        }
        flag
    }

    /// Whether `flag` has been set.
    pub fn is_cancelled(&self, flag: CancelFlag) -> (r: bool)
        ensures
            r == self@.cancelled.contains(flag.id),
    {
        let mut i: usize = 0;
        while i < self.cancelled.len()
            invariant
                i <= self.cancelled@.len(),
                forall|j: int| 0 <= j < i ==> self.cancelled@[j] != flag.id,
            decreases self.cancelled@.len() - i,
        {
            if self.cancelled[i] == flag.id {
                assert(self.cancelled@.contains(flag.id));
                return true;
            }
            i += 1;
        }
        assert(!self.cancelled@.contains(flag.id));
        false
    }

    /// Sets `flag`. A flag that this engine did not issue is ignored.
    pub fn cancel(&mut self, flag: CancelFlag)
        requires
            old(self).wf(),
        ensures
            final(self).wf(),
            final(self)@ == old(self)@.cancel(flag),
    {
        if flag.id < self.next_flag && !self.is_cancelled(flag) {
            self.cancelled.push(flag.id);
            proof {
                let a = old(self).cancelled@;
                let b = self.cancelled@;
                assert forall|x: u64| b.contains(x) <==> (a.contains(x) || x == flag.id) by {
                    if a.contains(x) {
                        let i = a.index_of(x);
                        assert(b[i] == x);
                    }
                    if x == flag.id {
                        assert(b[a.len() as int] == x);
                    }
                    if b.contains(x) {
                        let i = b.index_of(x);
                        if i < a.len() {
                            assert(a[i] == x);
                        }
                    }
                }
                assert(b.to_set() =~= a.to_set().insert(flag.id));
            }
        } else {
            proof {
                if flag.id < self.next_flag {
                    assert(self.cancelled@.to_set().insert(flag.id) =~= self.cancelled@.to_set());
                }
            }
        }
    }

    /// Announces a hover request of a category: for a cancellable one, sets
    /// the flag of the previous hover request of that category and issues the
    /// flag of this one.
    fn hover_flag(&mut self, objects: bool, cancellable: bool) -> (flag: Option<CancelFlag>)
        requires
            old(self).wf(),
        ensures
            final(self).wf(),
            flag == old(self)@.hover_flag(objects, cancellable),
            final(self)@ == old(self)@.hover_step(objects, cancellable),
    {
        if cancellable {
            let previous = if objects {
                self.hover_object
            } else {
                self.hover_list
            };
            match previous {
                Some(prev) => {
                    self.cancel(prev);
                },
                None => {},
            }
            let flag = self.new_cancel_flag();
            if objects {
                self.hover_object = Some(flag);
            } else {
                self.hover_list = Some(flag);
            }
            Some(flag)
        } else {
            None
        }
    }

    /// Drops every request that has not been taken from its queue.
    pub fn cancel_all(&mut self)
        requires
            old(self).wf(),
        ensures
            final(self).wf(),
            final(self)@ == (S3BackendView { high: Seq::empty(), low: Seq::empty(), ..old(self)@ }),
    {
        self.high_queue.clear();
        self.low_queue.clear();
        proof {
            assert(self.high_queue.deep_view() =~= Seq::<WorkItemView>::empty());
            assert(self.low_queue.deep_view() =~= Seq::<WorkItemView>::empty());
        }
    }

    /// Moves the first matching item of the background queue to the front of
    /// the foreground queue and clears its cancel flag. Returns whether a
    /// matching item stands in the foreground queue afterwards.
    fn boost_from_low_to_high(&mut self, objects: bool, bucket: &str, name: &str) -> (found: bool)
        requires
            old(self).wf(),
        ensures
            final(self).wf(),
            final(self)@ == old(self)@.boost(objects, bucket@, name@),
            found == (first_target(final(self)@.high, objects, bucket@, name@, 0) is Some),
    {
        proof {
            lemma_first_target(self@.low, objects, bucket@, name@, 0);
        }
        match find_target(&self.low_queue, objects, bucket, name) {
            Some(i) => {
                let taken = self.low_queue.remove(i);
                match taken {
                    Some(item) => {
                        let cleared = clear_cancel_flag(item);
                        proof {
                            assert(self.low_queue.deep_view() =~= old(self).low_queue.deep_view().remove(
                                i as int,
                            ));
                        }
                        self.high_queue.push_front(cleared);
                        proof {
                            assert(self.high_queue.deep_view() =~= seq![cleared@]
                                + old(self).high_queue.deep_view());
                            assert(cleared@.targets(objects, bucket@, name@));
                        }
                        true
                    },
                    None => false,
                }
            },
            None => find_target(&self.high_queue, objects, bucket, name).is_some(),
        }
    }

    /// Promotes a pending listing of `prefix` in `bucket` to the front of the
    /// foreground queue. Returns whether one is pending there afterwards.
    pub fn prioritize_request(&mut self, bucket: &str, prefix: &str) -> (found: bool)
        requires
            old(self).wf(),
        ensures
            final(self).wf(),
            final(self)@ == old(self)@.boost(false, bucket@, prefix@),
            found == (first_target(final(self)@.high, false, bucket@, prefix@, 0) is Some),
    {
        self.boost_from_low_to_high(false, bucket, prefix)
    }

    /// Promotes a pending fetch of the object `key` in `bucket` to the front
    /// of the foreground queue. Returns whether one is pending there
    /// afterwards.
    pub fn prioritize_object_request(&mut self, bucket: &str, key: &str) -> (found: bool)
        requires
            old(self).wf(),
        ensures
            final(self).wf(),
            final(self)@ == old(self)@.boost(true, bucket@, key@),
            found == (first_target(final(self)@.high, true, bucket@, key@, 0) is Some),
    {
        self.boost_from_low_to_high(true, bucket, key)
    }

    /// Whether a matching item stands in either queue.
    fn find_in_queues(&self, objects: bool, bucket: &str, name: &str) -> (r: bool)
        ensures
            r == self@.pending(objects, bucket@, name@),
    {
        find_target(&self.high_queue, objects, bucket, name).is_some() || find_target(
            &self.low_queue,
            objects,
            bucket,
            name,
        ).is_some()
    }

    /// Whether a listing of `prefix` in `bucket` is pending.
    pub fn has_pending_request(&self, bucket: &str, prefix: &str) -> (r: bool)
        ensures
            r == self@.pending(false, bucket@, prefix@),
    {
        self.find_in_queues(false, bucket, prefix)
    }

    /// Whether a fetch of the object `key` in `bucket` is pending.
    pub fn has_pending_object_request(&self, bucket: &str, key: &str) -> (r: bool)
        ensures
            r == self@.pending(true, bucket@, key@),
    {
        self.find_in_queues(true, bucket, key)
    }

    /// Queues a request for the list of buckets.
    pub fn list_buckets(&mut self)
        requires
            old(self).wf(),
        ensures
            final(self).wf(),
            final(self)@ == old(self)@.enqueue_high(WorkItemView::ListBuckets),
    {
        self.enqueue_high(WorkItem::ListBuckets);
    }

    /// Queues a foreground listing of `prefix` in `bucket`.
    pub fn list_objects(
        &mut self,
        bucket: &str,
        prefix: &str,
        continuation_token: &str,
        cancel_flag: Option<CancelFlag>,
    )
        requires
            old(self).wf(),
        ensures
            final(self).wf(),
            final(self)@ == old(self)@.enqueue_high(
                (WorkItemView::ListObjects {
                    bucket: bucket@,
                    prefix: prefix@,
                    continuation_token: continuation_token@,
                    cancel_flag,
                }),
            ),
    {
        self.enqueue_high(
            WorkItem::ListObjects {
                bucket: text_of(bucket),
                prefix: text_of(prefix),
                continuation_token: text_of(continuation_token),
                cancel_flag,
            },
        );
    }

    /// Queues a fetch of an object, limited to its first `max_bytes` bytes
    /// where given: in the background queue for `low_priority`, else in the
    /// foreground queue. A cancellable fetch is a hover request.
    pub fn get_object(
        &mut self,
        bucket: &str,
        key: &str,
        max_bytes: Option<usize>,
        low_priority: bool,
        cancellable: bool,
    )
        requires
            old(self).wf(),
        ensures
            final(self).wf(),
            final(self)@ == ({
                let item = WorkItemView::GetObject {
                    bucket: bucket@,
                    key: key@,
                    max_bytes,
                    cancel_flag: old(self)@.hover_flag(true, cancellable),
                };
                if low_priority {
                    old(self)@.hover_step(true, cancellable).enqueue_low(item)
                } else {
                    old(self)@.hover_step(true, cancellable).enqueue_high(item)
                }
            }),
    {
        let cancel_flag = self.hover_flag(true, cancellable);
        let item = WorkItem::GetObject {
            bucket: text_of(bucket),
            key: text_of(key),
            max_bytes,
            cancel_flag,
        };
        if low_priority {
            self.enqueue_low(item);
        } else {
            self.enqueue_high(item);
        }
    }

    /// Queues a foreground fetch of one byte range of an object.
    pub fn get_object_range(
        &mut self,
        bucket: &str,
        key: &str,
        start_byte: usize,
        end_byte: usize,
        cancel_flag: Option<CancelFlag>,
    )
        requires
            old(self).wf(),
        ensures
            final(self).wf(),
            final(self)@ == old(self)@.enqueue_high(
                (WorkItemView::GetObjectRange {
                    bucket: bucket@,
                    key: key@,
                    start_byte,
                    end_byte,
                    cancel_flag,
                }),
            ),
    {
        self.enqueue_high(
            WorkItem::GetObjectRange {
                bucket: text_of(bucket),
                key: text_of(key),
                start_byte,
                end_byte,
                cancel_flag,
            },
        );
    }

    /// Queues a foreground streaming fetch of an object from `start_byte` on.
    pub fn get_object_streaming(
        &mut self,
        bucket: &str,
        key: &str,
        start_byte: usize,
        total_size: usize,
        cancel_flag: Option<CancelFlag>,
    )
        requires
            old(self).wf(),
        ensures
            final(self).wf(),
            final(self)@ == old(self)@.enqueue_high(
                (WorkItemView::GetObjectStreaming {
                    bucket: bucket@,
                    key: key@,
                    start_byte,
                    total_size,
                    cancel_flag,
                }),
            ),
    {
        self.enqueue_high(
            WorkItem::GetObjectStreaming {
                bucket: text_of(bucket),
                key: text_of(key),
                start_byte,
                total_size,
                cancel_flag,
            },
        );
    }

    /// Queues a background listing of `prefix` in `bucket`, at the head of
    /// the background queue. A cancellable one is a hover request.
    pub fn list_objects_prefetch(&mut self, bucket: &str, prefix: &str, cancellable: bool)
        requires
            old(self).wf(),
        ensures
            final(self).wf(),
            final(self)@ == old(self)@.hover_step(false, cancellable).enqueue_low(
                (WorkItemView::ListObjects {
                    bucket: bucket@,
                    prefix: prefix@,
                    continuation_token: Seq::empty(),
                    cancel_flag: old(self)@.hover_flag(false, cancellable),
                }),
            ),
    {
        let cancel_flag = self.hover_flag(false, cancellable);
        self.enqueue_low(
            WorkItem::ListObjects {
                bucket: text_of(bucket),
                prefix: text_of(prefix),
                continuation_token: String::new(),
                cancel_flag,
            },
        );
    }

    /// Returns the region cached for `bucket`; empty where there is none.
    pub fn get_cached_region(&self, bucket: &str) -> (r: String)
        requires
            self.wf(),
        ensures
            r@ == self@.cached_region(bucket@),
    {
        match position_of(&self.region_buckets, bucket) {
            Some(i) => {
                proof {
                    lemma_assoc_get(
                        self.region_buckets.deep_view(),
                        self.region_names.deep_view(),
                        i as int,
                    );
                }
                self.region_names[i].clone()
            },
            None => {
                proof {
                    lemma_assoc_absent(
                        self.region_buckets.deep_view(),
                        self.region_names.deep_view(),
                        bucket@,
                    );
                }
                String::new()
            },
        }
    }

    /// Records `region` as the region of `bucket`, in place of any earlier one.
    pub fn cache_region(&mut self, bucket: &str, region: &str)
        requires
            old(self).wf(),
        ensures
            final(self).wf(),
            final(self)@ == old(self)@.cache_region(bucket@, region@),
    {
        let ghost keys = self.region_buckets.deep_view();
        let ghost values = self.region_names.deep_view();
        match position_of(&self.region_buckets, bucket) {
            Some(i) => {
                let r = text_of(region);
                proof {
                    lemma_assoc_update(keys, values, i as int, region@);
                }
                self.region_names[i] = r;
                proof {
                    assert(self.region_names.deep_view() =~= values.update(i as int, region@));
                }
            },
            None => {
                let b = text_of(bucket);
                let r = text_of(region);
                proof {
                    assert(!keys.contains(bucket@)) by {
                        if keys.contains(bucket@) {
                            let j = choose|j: int| 0 <= j < keys.len() && keys[j] == bucket@;
                            assert(self.region_buckets@[j]@ == bucket@);
                        }
                    }
                    lemma_assoc_push(keys, values, bucket@, region@);
                    lemma_deep_view_push(self.region_buckets@, self.region_buckets@.push(b), b);
                    lemma_deep_view_push(self.region_names@, self.region_names@.push(r), r);
                }
                self.region_buckets.push(b);
                self.region_names.push(r);
            },
        }
    }

    /// Returns the region in which to make requests for `bucket`.
    pub fn region_for(&self, bucket: &str) -> (r: String)
        requires
            self.wf(),
        ensures
            r@ == self@.region_for(bucket@),
            r@.len() > 0,
    {
        let cached = self.get_cached_region(bucket);
        if !cached.as_str().is_empty() {
            cached
        } else if !self.profile.region.as_str().is_empty() {
            self.profile.region.clone()
        } else {
            proof {
                reveal_strlit("us-east-1");
            }
            text_of("us-east-1")
        }
    }

    /// Switches to another profile: drops all pending requests and forgets
    /// the cached regions.
    pub fn set_profile(&mut self, profile: AWSProfile)
        requires
            old(self).wf(),
        ensures
            final(self).wf(),
            final(self)@ == (S3BackendView {
                profile: profile@,
                high: Seq::empty(),
                low: Seq::empty(),
                regions: Map::empty(),
                ..old(self)@
            }),
    {
        self.cancel_all();
        self.region_buckets.clear();
        self.region_names.clear();
        self.profile = profile;
        proof {
            lemma_assoc_empty::<Seq<char>, Seq<char>>();
            assert(self.region_buckets.deep_view() =~= Seq::<Seq<char>>::empty());
            assert(self.region_names.deep_view() =~= Seq::<Seq<char>>::empty());
        }
    }

    /// Returns a copy of the active profile.
    pub fn snapshot_profile(&self) -> (r: AWSProfile)
        ensures
            r@ == self@.profile,
    {
        self.profile.clone()
    }
}

/// Whether the worker should drop an item: it carries a flag that is set.
pub open spec fn is_cancelled_item(item: WorkItemView, cancelled: Set<u64>) -> bool {
    match item.cancel_flag() {
        Some(flag) => cancelled.contains(flag.id),
        None => false,
    }
}

/// The index of the first item of `queue` at or after `from` that is not
/// cancelled, or the length of the queue.
pub open spec fn first_live(queue: Seq<WorkItemView>, cancelled: Set<u64>, from: int) -> int
    decreases queue.len() - from,
{
    if 0 <= from < queue.len() && is_cancelled_item(queue[from], cancelled) {
        first_live(queue, cancelled, from + 1)
    } else {
        from
    }
}

/// The first live item lies at or behind `from`, within the queue.
pub proof fn lemma_first_live(queue: Seq<WorkItemView>, cancelled: Set<u64>, from: int)
    requires
        0 <= from <= queue.len(),
    ensures
        from <= first_live(queue, cancelled, from) <= queue.len(),
        first_live(queue, cancelled, from) < queue.len() ==> !is_cancelled_item(
            queue[first_live(queue, cancelled, from)],
            cancelled,
        ),
        forall|j: int|
            from <= j < first_live(queue, cancelled, from) ==> is_cancelled_item(
                queue[j],
                cancelled,
            ),
    decreases queue.len() - from,
{
    if from < queue.len() && is_cancelled_item(queue[from], cancelled) {
        lemma_first_live(queue, cancelled, from + 1);
    }
}

/// The host and path under which `key` of `bucket` is reached: path-style
/// below a custom endpoint, virtual-hosted style otherwise.
pub open spec fn host_and_path(
    endpoint_url: Seq<char>,
    region: Seq<char>,
    bucket: Seq<char>,
    key: Seq<char>,
) -> (Seq<char>, Seq<char>) {
    if endpoint_url.len() > 0 {
        (
            endpoint_host(endpoint_url),
            if key.len() == 0 {
                seq!['/'] + bucket
            } else {
                seq!['/'] + bucket + seq!['/'] + key
            },
        )
    } else {
        (
            bucket + ".s3."@ + region + ".amazonaws.com"@,
            if key.len() == 0 {
                seq!['/']
            } else {
                seq!['/'] + key
            },
        )
    }
}

/// Builds the host and the path for a bucket and key.
pub fn build_host_path(profile: &AWSProfile, region: &str, bucket: &str, key: &str) -> (r: (
    String,
    String,
))
    ensures
        (r.0@, r.1@) == host_and_path(profile@.endpoint_url, region@, bucket@, key@),
{
    if !profile.endpoint_url.as_str().is_empty() {
        let host = parse_endpoint_host(profile.endpoint_url.as_str());
        let mut path = String::new();
        path.push('/');
        push_text(&mut path, bucket);
        if !key.is_empty() {
            path.push('/');
            push_text(&mut path, key);
        }
        proof {
            assert(path@ =~= host_and_path(profile@.endpoint_url, region@, bucket@, key@).1);
        }
        (host, path)
    } else {
        let mut host = String::new();
        push_text(&mut host, bucket);
        push_text(&mut host, ".s3.");
        push_text(&mut host, region);
        push_text(&mut host, ".amazonaws.com");
        let mut path = String::new();
        path.push('/');
        if !key.is_empty() {
            push_text(&mut path, key);
        }
        proof {
            assert(host@ =~= host_and_path(profile@.endpoint_url, region@, bucket@, key@).0);
            assert(path@ =~= host_and_path(profile@.endpoint_url, region@, bucket@, key@).1);
        }
        (host, path)
    }
}

/// The host of the bucket listing: the custom endpoint's host, or the
/// regional service host.
pub open spec fn service_host(endpoint_url: Seq<char>, region: Seq<char>) -> Seq<char> {
    if endpoint_url.len() > 0 {
        endpoint_host(endpoint_url)
    } else {
        "s3."@ + region + ".amazonaws.com"@
    }
}

/// The query of an object listing, in fixed key order and percent-encoded:
/// list type, delimiter `/`, page size, then prefix and continuation token
/// where they are not empty.
pub open spec fn list_query(prefix: Seq<char>, continuation_token: Seq<char>) -> Seq<char> {
    let head = "list-type=2"@ + "&delimiter="@ + uri_encoded(encode_utf8("/"@), true)
        + "&max-keys=1000"@;
    let with_prefix = if prefix.len() == 0 {
        head
    } else {
        head + "&prefix="@ + uri_encoded(encode_utf8(prefix), true)
    };
    if continuation_token.len() == 0 {
        with_prefix
    } else {
        with_prefix + "&continuation-token="@ + uri_encoded(encode_utf8(continuation_token), true)
    }
}

/// Builds the query of an object listing.
pub fn build_list_query(prefix: &str, continuation_token: &str) -> (r: String)
    ensures
        r@ == list_query(prefix@, continuation_token@),
{
    let mut query = String::new();
    push_text(&mut query, "list-type=2");
    push_text(&mut query, "&delimiter=");
    push_text(&mut query, url_encode("/").as_str());
    push_text(&mut query, "&max-keys=1000");
    if !prefix.is_empty() {
        push_text(&mut query, "&prefix=");
        push_text(&mut query, url_encode(prefix).as_str());
    }
    if !continuation_token.is_empty() {
        push_text(&mut query, "&continuation-token=");
        push_text(&mut query, url_encode(continuation_token).as_str());
    }
    proof {
        assert(query@ =~= list_query(prefix@, continuation_token@));
    }
    query
}

/// The value of the `Range` header that a request carries, unsigned: the
/// first `max_bytes` bytes of a limited fetch, the bounds of a range fetch,
/// the open range from the start byte of a streaming fetch that does not
/// start at zero.
pub open spec fn range_header(item: WorkItemView) -> Option<Seq<char>> {
    match item {
        WorkItemView::GetObject { max_bytes: Some(mb), .. } if mb > 0 => Some(
            "bytes=0-"@ + decimal((mb - 1) as nat),
        ),
        WorkItemView::GetObjectRange { start_byte, end_byte, .. } => Some(
            "bytes="@ + decimal(start_byte as nat) + seq!['-'] + decimal(end_byte as nat),
        ),
        WorkItemView::GetObjectStreaming { start_byte, .. } if start_byte > 0 => Some(
            "bytes="@ + decimal(start_byte as nat) + seq!['-'],
        ),
        _ => None,
    }
}

/// Builds the value of the `Range` header of a request, if it has one.
pub fn build_range_header(item: &WorkItem) -> (r: Option<String>)
    ensures
        r.deep_view() == range_header(item@),
{
    match item {
        WorkItem::GetObject { max_bytes: Some(mb), .. } => {
            if *mb > 0 {
                let mut v = String::new();
                push_text(&mut v, "bytes=0-");
                push_decimal(&mut v, (*mb - 1) as u64);
                proof {
                    assert(v@ =~= "bytes=0-"@ + decimal((*mb - 1) as nat));
                }
                Some(v)
            } else {
                None
            }
        },
        WorkItem::GetObjectRange { start_byte, end_byte, .. } => {
            let mut v = String::new();
            push_text(&mut v, "bytes=");
            push_decimal(&mut v, *start_byte as u64);
            v.push('-');
            push_decimal(&mut v, *end_byte as u64);
            proof {
                assert(v@ =~= "bytes="@ + decimal(*start_byte as nat) + seq!['-'] + decimal(
                    *end_byte as nat,
                ));
            }
            Some(v)
        },
        WorkItem::GetObjectStreaming { start_byte, .. } => {
            if *start_byte > 0 {
                let mut v = String::new();
                push_text(&mut v, "bytes=");
                push_decimal(&mut v, *start_byte as u64);
                v.push('-');
                proof {
                    assert(v@ =~= "bytes="@ + decimal(*start_byte as nat) + seq!['-']);
                }
                Some(v)
            } else {
                None
            }
        },
        _ => None,
    }
}

/// What is signed for a work item: a `GET` for service `s3` with an empty
/// payload, on the host, path and query of the item.
pub open spec fn signing_inputs(item: WorkItemView, profile: AWSProfileView, region: Seq<char>)
    -> SigningInputs {
    let (host, path, query) = match item {
        WorkItemView::ListBuckets => (
            service_host(profile.endpoint_url, region),
            seq!['/'],
            Seq::<char>::empty(),
        ),
        WorkItemView::ListObjects { bucket, prefix, continuation_token, .. } => {
            let hp = host_and_path(profile.endpoint_url, region, bucket, Seq::empty());
            (hp.0, hp.1, list_query(prefix, continuation_token))
        },
        WorkItemView::GetObject { bucket, key, .. } => {
            let hp = host_and_path(profile.endpoint_url, region, bucket, key);
            (hp.0, hp.1, Seq::<char>::empty())
        },
        WorkItemView::GetObjectRange { bucket, key, .. } => {
            let hp = host_and_path(profile.endpoint_url, region, bucket, key);
            (hp.0, hp.1, Seq::<char>::empty())
        },
        WorkItemView::GetObjectStreaming { bucket, key, .. } => {
            let hp = host_and_path(profile.endpoint_url, region, bucket, key);
            (hp.0, hp.1, Seq::<char>::empty())
        },
    };
    SigningInputs {
        method: "GET"@,
        host,
        path,
        query,
        region,
        service: "s3"@,
        access_key: profile.access_key_id,
        secret_key: profile.secret_access_key,
        payload: Seq::empty(),
        session_token: profile.session_token,
    }
}

/// The request to send for a work item in a region at a time: the signed
/// request, with the `Range` header behind the signed headers where the item
/// has one. `None` where the request cannot be signed.
pub open spec fn request_for(
    item: WorkItemView,
    profile: AWSProfileView,
    region: Seq<char>,
    timestamp: Seq<char>,
) -> Option<AWSSignedRequestView> {
    match signed_request(timestamp, signing_inputs(item, profile, region)) {
        None => None,
        Some(signed) => Some(
            AWSSignedRequestView {
                url: signed.url,
                headers: match range_header(item) {
                    Some(v) => signed.headers.push(("Range"@, v)),
                    None => signed.headers,
                },
            },
        ),
    }
}

/// The `Range` header of a limited fetch is sent but not signed. A fetch of
/// the first `max_bytes` bytes of an object is signed as the fetch of the
/// whole object is: same URL, same signed headers, same signature. Its
/// request carries one header more, `Range: bytes=0-{max_bytes - 1}`, behind
/// the signed ones, none of which is named `Range`. A fetch without limit,
/// or with a limit of zero, carries no such header.
pub proof fn lemma_range_header_is_sent_unsigned(
    bucket: Seq<char>,
    key: Seq<char>,
    max_bytes: Option<usize>,
    cancel_flag: Option<CancelFlag>,
    profile: AWSProfileView,
    region: Seq<char>,
    timestamp: Seq<char>,
)
    ensures
        ({
            let limited = WorkItemView::GetObject { bucket, key, max_bytes, cancel_flag };
            let whole = WorkItemView::GetObject { bucket, key, max_bytes: None, cancel_flag };
            let signed = signed_request(timestamp, signing_inputs(whole, profile, region));
            &&& signing_inputs(limited, profile, region) == signing_inputs(whole, profile, region)
            &&& request_for(whole, profile, region, timestamp) == signed
            &&& request_for(limited, profile, region, timestamp) is Some <==> signed is Some
            &&& signed matches Some(plain) ==> {
                &&& forall|i: int|
                    0 <= i < plain.headers.len() ==> (#[trigger] plain.headers[i]).0 != "Range"@
                &&& request_for(limited, profile, region, timestamp) matches Some(sent)
                &&& sent.url == plain.url
                &&& sent.headers == match max_bytes {
                    Some(mb) if mb > 0 => plain.headers.push(
                        ("Range"@, "bytes=0-"@ + decimal((mb - 1) as nat)),
                    ),
                    _ => plain.headers,
                }
            }
        }),
{
    reveal_strlit("Range");
    reveal_strlit("Authorization");
    reveal_strlit("Host");
    reveal_strlit("x-amz-content-sha256");
    reveal_strlit("x-amz-date");
    reveal_strlit("x-amz-security-token");
    let whole = WorkItemView::GetObject { bucket, key, max_bytes: None, cancel_flag };
    let signed = signed_request(timestamp, signing_inputs(whole, profile, region));
    match signed {
        Some(plain) => {
            assert forall|i: int| 0 <= i < plain.headers.len() implies (
            #[trigger] plain.headers[i]).0 != "Range"@ by {
                let name = plain.headers[i].0;
                assert(name.len() != 5 || name[0] != 'R');
            }
        },
        None => {},
    }
}

/// Builds the request to send for a work item.
pub fn build_request(item: &WorkItem, profile: &AWSProfile, region: &str, time: &CivilTime) -> (r:
    Option<AWSSignedRequest>)
    ensures
        r.deep_view() == request_for(item@, profile@, region@, time.text()),
{
    let (host, path, query) = match item {
        WorkItem::ListBuckets => {
            let host = if !profile.endpoint_url.as_str().is_empty() {
                parse_endpoint_host(profile.endpoint_url.as_str())
            } else {
                let mut h = String::new();
                push_text(&mut h, "s3.");
                push_text(&mut h, region);
                push_text(&mut h, ".amazonaws.com");
                proof {
                    assert(h@ =~= "s3."@ + region@ + ".amazonaws.com"@);
                }
                h
            };
            let mut path = String::new();
            path.push('/');
            proof {
                assert(path@ =~= seq!['/']);
            }
            (host, path, String::new())
        },
        WorkItem::ListObjects { bucket, prefix, continuation_token, .. } => {
            let hp = build_host_path(profile, region, bucket.as_str(), "");
            proof {
                reveal_strlit("");
                assert(""@ =~= Seq::<char>::empty());
            }
            (hp.0, hp.1, build_list_query(prefix.as_str(), continuation_token.as_str()))
        },
        WorkItem::GetObject { bucket, key, .. } => {
            let hp = build_host_path(profile, region, bucket.as_str(), key.as_str());
            (hp.0, hp.1, String::new())
        },
        WorkItem::GetObjectRange { bucket, key, .. } => {
            let hp = build_host_path(profile, region, bucket.as_str(), key.as_str());
            (hp.0, hp.1, String::new())
        },
        WorkItem::GetObjectStreaming { bucket, key, .. } => {
            let hp = build_host_path(profile, region, bucket.as_str(), key.as_str());
            (hp.0, hp.1, String::new())
        },
    };
    let payload: Vec<u8> = Vec::new();
    assert(payload@ =~= Seq::<u8>::empty());
    let signed = aws_sign_request_at(
        time,
        "GET",
        host.as_str(),
        path.as_str(),
        query.as_str(),
        region,
        "s3",
        profile.access_key_id.as_str(),
        profile.secret_access_key.as_str(),
        payload.as_slice(),
        profile.session_token.as_str(),
    );
    match signed {
        None => None,
        Some(request) => {
            let AWSSignedRequest { url, headers } = request;
            let mut headers = headers;
            match build_range_header(item) {
                Some(v) => {
                    let name = text_of("Range");
                    proof {
                        lemma_deep_view_push(headers@, headers@.push((name, v)), (name, v));
                    }
                    headers.push((name, v));
                },
                None => {},
            }
            Some(AWSSignedRequest { url, headers })
        },
    }
}

/// Whether an HTTP status tells success.
pub open spec fn is_success(status: u16) -> bool {
    200 <= status < 300
}

/// The message for a response that failed without saying why: `HTTP` and
/// the status.
pub open spec fn http_error(status: u16) -> Seq<char> {
    "HTTP "@ + decimal(status as nat)
}

/// Builds the message for a response that failed without saying why.
pub fn http_error_text(status: u16) -> (r: String)
    ensures
        r@ == http_error(status),
{
    let mut out = String::new();
    push_text(&mut out, "HTTP ");
    push_decimal(&mut out, status as u64);
    proof {
        assert(out@ =~= http_error(status));
    }
    out
}

fn success(status: u16) -> (r: bool)
    ensures
        r == is_success(status),
{
    200 <= status && status < 300
}

/// The event that answers a bucket listing: the error of a failed transfer,
/// of the response body or of the status; else the buckets listed.
pub open spec fn list_buckets_event(status: u16, response: Seq<char>) -> StateEventView {
    if occurs_at(response, "ERROR:"@, 0) {
        StateEventView::BucketsLoadError { error_message: response }
    } else if response_error(response).len() > 0 {
        StateEventView::BucketsLoadError { error_message: response_error(response) }
    } else if !is_success(status) {
        StateEventView::BucketsLoadError { error_message: http_error(status) }
    } else {
        StateEventView::BucketsLoaded { buckets: bucket_entries(response, 0) }
    }
}

/// The region to retry with after a response: set for a `PermanentRedirect`
/// on the first attempt that points to another region.
pub open spec fn retry_region(
    body: Seq<char>,
    bucket: Seq<char>,
    region: Seq<char>,
    attempt: nat,
) -> Option<Seq<char>> {
    if attempt == 0 && tag_or_empty(body, "Code"@) == "PermanentRedirect"@ {
        redirect_region(body, bucket, region)
    } else {
        None
    }
}

/// Decides whether to retry in another region after an error response.
pub fn decide_retry(body: &[char], bucket: &str, region: &str, attempt: u32) -> (r: Option<String>)
    ensures
        r.deep_view() == retry_region(body@, bucket@, region@, attempt as nat),
{
    if attempt != 0 {
        return None;
    }
    let code = extract_tag(body, "Code");
    if str_equals(code.as_str(), "PermanentRedirect") {
        resolve_redirect_region(body, bucket, region)
    } else {
        None
    }
}

/// The total size that a `Content-Range` value reports: the number behind
/// its slash, or zero where there is none.
pub open spec fn content_range_total(value: Seq<char>) -> nat {
    match find_char_from(value, '/', 0) {
        Some(i) => match parsed_unsigned(trimmed(value.skip(i + 1)), usize::MAX as nat) {
            Some(n) => n,
            None => 0,
        },
        None => 0,
    }
}

/// Reads the total size from a `Content-Range` header value.
pub fn parse_content_range_total(value: &str) -> (r: usize)
    ensures
        r == content_range_total(value@),
{
    let v = chars_of(value);
    let len = v.len();
    proof {
        lemma_find_char_from(v@, '/', 0);
    }
    match find_char(v.as_slice(), '/', 0) {
        Some(i) => {
            let (a, b) = trim_bounds(v.as_slice(), i + 1);
            let number = vstd::slice::slice_subrange(v.as_slice(), a, b);
            match parse_usize(number) {
                Some(n) => n,
                None => 0,
            }
        },
        None => 0,
    }
}

/// The size of the chunks in which a streaming download is delivered.
pub const STREAMING_CHUNK_SIZE: usize = 262144;

/// The events for the full chunks of `data`, which begins at `offset` of the
/// object: one range event per `STREAMING_CHUNK_SIZE` bytes.
pub open spec fn chunk_events(
    bucket: Seq<char>,
    key: Seq<char>,
    total_size: nat,
    offset: nat,
    data: Seq<u8>,
) -> Seq<StateEventView>
    decreases data.len(),
{
    if data.len() < STREAMING_CHUNK_SIZE {
        Seq::empty()
    } else {
        seq![
            StateEventView::ObjectRangeLoaded {
                bucket,
                key,
                start_byte: offset,
                total_size,
                data: data.take(STREAMING_CHUNK_SIZE as int),
            },
        ] + chunk_events(
            bucket,
            key,
            total_size,
            (offset + STREAMING_CHUNK_SIZE) as nat,
            data.skip(STREAMING_CHUNK_SIZE as int),
        )
    }
}

/// What is left of `data` behind its full chunks.
pub open spec fn chunk_remainder(data: Seq<u8>) -> Seq<u8>
    decreases data.len(),
{
    if data.len() < STREAMING_CHUNK_SIZE {
        data
    } else {
        chunk_remainder(data.skip(STREAMING_CHUNK_SIZE as int))
    }
}

/// A streaming download in progress: the object it fetches, the byte at
/// which it began, the bytes that have arrived and not been delivered, and
/// the count of those delivered.
pub struct StreamingDownload {
    pub bucket: String,
    pub key: String,
    pub start_byte: usize,
    pub total_size: usize,
    /// The HTTP status of the response that is being read.
    pub status: u16,
    pub buffer: Vec<u8>,
    pub bytes_received: usize,
}

impl StreamingDownload {
    /// The position reached in the object is a `usize`.
    pub open spec fn wf(&self) -> bool {
        self.start_byte + self.bytes_received + self.buffer@.len() <= usize::MAX
    }

    /// The position in the object of the first buffered byte.
    pub open spec fn offset(&self) -> nat {
        (self.start_byte + self.bytes_received) as nat
    }

    /// A download from `start_byte`, of a response with the given status,
    /// of which nothing has arrived.
    pub fn new(bucket: &str, key: &str, start_byte: usize, total_size: usize, status: u16) -> (r:
        Self)
        ensures
            r.wf(),
            r.bucket@ == bucket@,
            r.key@ == key@,
            r.start_byte == start_byte,
            r.total_size == total_size,
            r.status == status,
            r.buffer@ == Seq::<u8>::empty(),
            r.bytes_received == 0,
    {
        StreamingDownload {
            bucket: text_of(bucket),
            key: text_of(key),
            start_byte,
            total_size,
            status,
            buffer: Vec::new(),
            bytes_received: 0,
        }
    }
}

impl S3Backend {
    /// Takes the next item to work on from the foreground queue (for
    /// `foreground`) or the background queue: the first item whose cancel
    /// flag is not set. The cancelled items before it are dropped.
    pub fn next_work(&mut self, foreground: bool) -> (r: Option<WorkItem>)
        requires
            old(self).wf(),
        ensures
            final(self).wf(),
            ({
                let queue = if foreground {
                    old(self)@.high
                } else {
                    old(self)@.low
                };
                let k = first_live(queue, old(self)@.cancelled, 0);
                let rest = if k < queue.len() {
                    queue.skip(k + 1)
                } else {
                    Seq::empty()
                };
                &&& r.deep_view() == if k < queue.len() {
                    Some(queue[k])
                } else {
                    None
                }
                &&& final(self)@ == if foreground {
                    S3BackendView { high: rest, ..old(self)@ }
                } else {
                    S3BackendView { low: rest, ..old(self)@ }
                }
            }),
    {
        let ghost queue = if foreground {
            self@.high
        } else {
            self@.low
        };
        let ghost cancelled = self@.cancelled;
        let ghost mut dropped: int = 0;
        proof {
            assert(queue.skip(0) =~= queue);
        }
        loop
            invariant
                self.wf(),
                0 <= dropped <= queue.len(),
                first_live(queue, cancelled, 0) == first_live(queue, cancelled, dropped),
                self@ == if foreground {
                    S3BackendView { high: queue.skip(dropped), ..old(self)@ }
                } else {
                    S3BackendView { low: queue.skip(dropped), ..old(self)@ }
                },
                cancelled == old(self)@.cancelled,
                queue == if foreground {
                    old(self)@.high
                } else {
                    old(self)@.low
                },
            decreases queue.len() - dropped,
        {
            let ghost items = if foreground {
                self.high_queue@
            } else {
                self.low_queue@
            };
            let popped = if foreground {
                self.high_queue.pop_front()
            } else {
                self.low_queue.pop_front()
            };
            match popped {
                None => {
                    proof {
                        assert(queue.skip(dropped).len() == 0);
                        assert(queue.skip(dropped) =~= Seq::<WorkItemView>::empty());
                    }
                    return None;
                },
                Some(item) => {
                    proof {
                        assert(queue.skip(dropped).len() > 0);
                        assert(item@ == queue.skip(dropped)[0]);
                        crate::events::lemma_deep_view_subrange(items, 1, items.len() as int);
                        assert(queue.skip(dropped).subrange(1, items.len() as int) =~= queue.skip(
                            dropped + 1,
                        ));
                    }
                    let drop_it = match item_cancel_flag(&item) {
                        Some(flag) => self.is_cancelled(flag),
                        None => false,
                    };
                    if !drop_it {
                        return Some(item);
                    }
                    proof {
                        dropped = dropped + 1;
                    }
                },
            }
        }
    }

    /// Returns the region in which to start working on `item`.
    pub fn start_region(&self, item: &WorkItem) -> (r: String)
        requires
            self.wf(),
        ensures
            r@ == self@.region_for(item_bucket(item@)),
    {
        match item {
            WorkItem::ListBuckets => {
                proof {
                    reveal_strlit("");
                    assert(""@ =~= Seq::<char>::empty());
                }
                self.region_for("")
            },
            WorkItem::ListObjects { bucket, .. } => self.region_for(bucket.as_str()),
            WorkItem::GetObject { bucket, .. } => self.region_for(bucket.as_str()),
            WorkItem::GetObjectRange { bucket, .. } => self.region_for(bucket.as_str()),
            WorkItem::GetObjectStreaming { bucket, .. } => self.region_for(bucket.as_str()),
        }
    }

    /// Handles the response to a bucket listing: queues the one event that
    /// answers it.
    pub fn process_list_buckets(&mut self, status: u16, response: &str)
        requires
            old(self).wf(),
        ensures
            final(self).wf(),
            final(self)@ == old(self)@.push_event(list_buckets_event(status, response@)),
    {
        let x = chars_of(response);
        if starts_with_at(x.as_slice(), 0, "ERROR:") {
            self.push_event(StateEvent::BucketsLoadError { error_message: text_of(response) });
            return ;
        }
        let error = extract_error(x.as_slice());
        if !error.as_str().is_empty() {
            self.push_event(StateEvent::BucketsLoadError { error_message: error });
        } else if !success(status) {
            self.push_event(StateEvent::BucketsLoadError { error_message: http_error_text(status) });
        } else {
            self.push_event(StateEvent::BucketsLoaded { buckets: parse_list_buckets_xml(response) });
        }
    }

    /// Handles the response to an object listing made in `region` on the
    /// given attempt. Returns the region to retry with after a redirect; the
    /// request is done where it returns `None`.
    pub fn process_list_objects(
        &mut self,
        bucket: &str,
        prefix: &str,
        continuation_token: &str,
        region: &str,
        attempt: u32,
        status: u16,
        response: &str,
    ) -> (retry: Option<String>)
        requires
            old(self).wf(),
        ensures
            final(self).wf(),
            (final(self)@, retry.deep_view()) == list_objects_step(
                old(self)@,
                bucket@,
                prefix@,
                continuation_token@,
                region@,
                attempt as nat,
                status,
                response@,
            ),
    {
        if str_equals(response, "CANCELLED") {
            return None;
        }
        let x = chars_of(response);
        if starts_with_at(x.as_slice(), 0, "ERROR:") {
            self.push_event(
                StateEvent::ObjectsLoadError {
                    bucket: text_of(bucket),
                    prefix: text_of(prefix),
                    error_message: text_of(response),
                },
            );
            return None;
        }
        let result = parse_list_objects_xml(response);
        if !result.error.as_str().is_empty() {
            match decide_retry(x.as_slice(), bucket, region, attempt) {
                Some(new_region) => {
                    self.cache_region(bucket, new_region.as_str());
                    return Some(new_region);
                },
                None => {},
            }
            self.push_event(
                StateEvent::ObjectsLoadError {
                    bucket: text_of(bucket),
                    prefix: text_of(prefix),
                    error_message: result.error,
                },
            );
            return None;
        }
        if !success(status) {
            self.push_event(
                StateEvent::ObjectsLoadError {
                    bucket: text_of(bucket),
                    prefix: text_of(prefix),
                    error_message: http_error_text(status),
                },
            );
            return None;
        }
        self.cache_region(bucket, region);
        self.push_event(
            StateEvent::ObjectsLoaded {
                bucket: text_of(bucket),
                prefix: text_of(prefix),
                continuation_token: text_of(continuation_token),
                objects: result.objects,
                next_continuation_token: result.next_continuation_token,
                is_truncated: result.is_truncated,
            },
        );
        None
    }

    /// Handles the response to an object fetch made in `region` on the given
    /// attempt. Returns the region to retry with after a redirect.
    pub fn process_get_object(
        &mut self,
        bucket: &str,
        key: &str,
        region: &str,
        attempt: u32,
        status: u16,
        response: &str,
    ) -> (retry: Option<String>)
        requires
            old(self).wf(),
        ensures
            final(self).wf(),
            (final(self)@, retry.deep_view()) == get_object_step(
                old(self)@,
                bucket@,
                key@,
                region@,
                attempt as nat,
                status,
                response@,
            ),
    {
        if str_equals(response, "CANCELLED") {
            return None;
        }
        let x = chars_of(response);
        if starts_with_at(x.as_slice(), 0, "ERROR:") {
            self.push_event(
                StateEvent::ObjectContentLoadError {
                    bucket: text_of(bucket),
                    key: text_of(key),
                    error_message: text_of(response),
                },
            );
            return None;
        }
        let error = extract_error(x.as_slice());
        if !error.as_str().is_empty() {
            match decide_retry(x.as_slice(), bucket, region, attempt) {
                Some(new_region) => {
                    self.cache_region(bucket, new_region.as_str());
                    return Some(new_region);
                },
                None => {},
            }
            let code = extract_tag(x.as_slice(), "Code");
            if str_equals(code.as_str(), "InvalidRange") {
                let content: Vec<u8> = Vec::new();
                assert(content@ =~= Seq::<u8>::empty());
                self.push_event(
                    StateEvent::ObjectContentLoaded {
                        bucket: text_of(bucket),
                        key: text_of(key),
                        content,
                    },
                );
                return None;
            }
            self.push_event(
                StateEvent::ObjectContentLoadError {
                    bucket: text_of(bucket),
                    key: text_of(key),
                    error_message: error,
                },
            );
            return None;
        }
        if !success(status) {
            self.push_event(
                StateEvent::ObjectContentLoadError {
                    bucket: text_of(bucket),
                    key: text_of(key),
                    error_message: http_error_text(status),
                },
            );
            return None;
        }
        self.cache_region(bucket, region);
        self.push_event(
            StateEvent::ObjectContentLoaded {
                bucket: text_of(bucket),
                key: text_of(key),
                content: bytes_of(response.as_bytes()),
            },
        );
        None
    }

    /// Reports that the request for a work item has failed before any
    /// response could be handled: queues the error event of the item's kind
    /// with the given message.
    pub fn report_failure(&mut self, item: &WorkItem, message: &str)
        requires
            old(self).wf(),
        ensures
            final(self).wf(),
            final(self)@ == old(self)@.push_event(failure_event(item@, message@)),
    {
        let event = match item {
            WorkItem::ListBuckets => StateEvent::BucketsLoadError {
                error_message: text_of(message),
            },
            WorkItem::ListObjects { bucket, prefix, .. } => StateEvent::ObjectsLoadError {
                bucket: bucket.clone(),
                prefix: prefix.clone(),
                error_message: text_of(message),
            },
            WorkItem::GetObject { bucket, key, .. } => StateEvent::ObjectContentLoadError {
                bucket: bucket.clone(),
                key: key.clone(),
                error_message: text_of(message),
            },
            WorkItem::GetObjectRange { bucket, key, start_byte, .. } => {
                StateEvent::ObjectRangeLoadError {
                    bucket: bucket.clone(),
                    key: key.clone(),
                    start_byte: *start_byte,
                    error_message: text_of(message),
                }
            },
            WorkItem::GetObjectStreaming { bucket, key, start_byte, .. } => {
                StateEvent::ObjectRangeLoadError {
                    bucket: bucket.clone(),
                    key: key.clone(),
                    start_byte: *start_byte,
                    error_message: text_of(message),
                }
            },
        };
        self.push_event(event);
    }

    /// Reports that the transfer of a range or streaming fetch failed.
    pub fn report_range_error(&mut self, bucket: &str, key: &str, start_byte: usize, message: &str)
        requires
            old(self).wf(),
        ensures
            final(self).wf(),
            final(self)@ == old(self)@.push_event(
                (StateEventView::ObjectRangeLoadError {
                    bucket: bucket@,
                    key: key@,
                    start_byte: start_byte as nat,
                    error_message: "ERROR: "@ + message@,
                }),
            ),
    {
        let mut text = String::new();
        push_text(&mut text, "ERROR: ");
        push_text(&mut text, message);
        proof {
            assert(text@ =~= "ERROR: "@ + message@);
        }
        self.push_event(
            StateEvent::ObjectRangeLoadError {
                bucket: text_of(bucket),
                key: text_of(key),
                start_byte,
                error_message: text,
            },
        );
    }

    /// Handles the body of a range fetch made in `region` on the given
    /// attempt, with the value of its `Content-Range` header where it had
    /// one. Returns the region to retry with after a redirect.
    pub fn process_get_object_range(
        &mut self,
        bucket: &str,
        key: &str,
        start_byte: usize,
        region: &str,
        attempt: u32,
        status: u16,
        content_range: Option<&str>,
        body: &[u8],
    ) -> (retry: Option<String>)
        requires
            old(self).wf(),
        ensures
            final(self).wf(),
            (final(self)@, retry.deep_view()) == get_object_range_step(
                old(self)@,
                bucket@,
                key@,
                start_byte as nat,
                region@,
                attempt as nat,
                status,
                content_range.deep_view(),
                body@,
            ),
    {
        let total: usize = match content_range {
            Some(v) => parse_content_range_total(v),
            None => 0,
        };
        let text = decode_utf8_lossy(body);
        let x = chars_of(text.as_str());
        let error = extract_error(x.as_slice());
        if !error.as_str().is_empty() {
            match decide_retry(x.as_slice(), bucket, region, attempt) {
                Some(new_region) => {
                    self.cache_region(bucket, new_region.as_str());
                    return Some(new_region);
                },
                None => {},
            }
            self.push_event(
                StateEvent::ObjectRangeLoadError {
                    bucket: text_of(bucket),
                    key: text_of(key),
                    start_byte,
                    error_message: error,
                },
            );
            return None;
        }
        if !success(status) {
            self.push_event(
                StateEvent::ObjectRangeLoadError {
                    bucket: text_of(bucket),
                    key: text_of(key),
                    start_byte,
                    error_message: http_error_text(status),
                },
            );
            return None;
        }
        self.cache_region(bucket, region);
        self.push_event(
            StateEvent::ObjectRangeLoaded {
                bucket: text_of(bucket),
                key: text_of(key),
                start_byte,
                total_size: total,
                data: bytes_of(body),
            },
        );
        None
    }

    /// Takes in one chunk of a streaming download, and queues a range event
    /// for each full `STREAMING_CHUNK_SIZE` bytes buffered; the body of a
    /// response that failed is only buffered. Returns `false`, and changes
    /// nothing, where the position in the object would leave the range of
    /// `usize`.
    pub fn push_chunk(&mut self, download: &mut StreamingDownload, chunk: &[u8]) -> (ok: bool)
        requires
            old(self).wf(),
            old(download).wf(),
        ensures
            final(self).wf(),
            final(download).wf(),
            ok == (old(download).offset() + old(download).buffer@.len() + chunk@.len()
                <= usize::MAX),
            !ok ==> final(self)@ == old(self)@ && *final(download) == *old(download),
            ok ==> ({
                let data = old(download).buffer@ + chunk@;
                &&& final(self)@ == (S3BackendView {
                    events: old(self)@.events + if is_success(old(download).status) {
                        chunk_events(
                            old(download).bucket@,
                            old(download).key@,
                            old(download).total_size as nat,
                            old(download).offset(),
                            data,
                        )
                    } else {
                        Seq::empty()
                    },
                    ..old(self)@
                })
                &&& final(download).buffer@ == if is_success(old(download).status) {
                    chunk_remainder(data)
                } else {
                    data
                }
                &&& final(download).status == old(download).status
                &&& final(download).offset() + final(download).buffer@.len() == old(
                    download,
                ).offset() + data.len()
                &&& final(download).bucket == old(download).bucket
                &&& final(download).key == old(download).key
                &&& final(download).start_byte == old(download).start_byte
                &&& final(download).total_size == old(download).total_size
            }),
    {
        let buffered = download.buffer.len();
        let position = download.start_byte + download.bytes_received + buffered;
        if chunk.len() > usize::MAX - position {
            return false;
        }
        append_bytes(&mut download.buffer, chunk);
        if !success(download.status) {
            proof {
                assert(old(self)@.events + Seq::<StateEventView>::empty() =~= old(self)@.events);
            }
            return true;
        }
        let ghost data = download.buffer@;
        let ghost bucket = download.bucket@;
        let ghost key = download.key@;
        let ghost total_size = download.total_size as nat;
        let ghost first_offset = download.offset();
        let ghost mut emitted: Seq<StateEventView> = Seq::empty();
        proof {
            assert(old(self)@.events + emitted =~= old(self)@.events);
            assert(emitted + chunk_events(bucket, key, total_size, first_offset, data)
                =~= chunk_events(bucket, key, total_size, first_offset, data));
        }
        while download.buffer.len() >= STREAMING_CHUNK_SIZE
            invariant
                self.wf(),
                self@ == (S3BackendView { events: old(self)@.events + emitted, ..old(self)@ }),
                chunk_events(bucket, key, total_size, first_offset, data) == emitted
                    + chunk_events(bucket, key, total_size, download.offset(), download.buffer@),
                chunk_remainder(data) == chunk_remainder(download.buffer@),
                download.offset() + download.buffer@.len() == first_offset + data.len(),
                first_offset + data.len() <= usize::MAX,
                download.bucket == old(download).bucket,
                download.key == old(download).key,
                download.start_byte == old(download).start_byte,
                download.total_size == old(download).total_size,
                download.status == old(download).status,
                bucket == download.bucket@,
                key == download.key@,
                total_size == download.total_size,
            decreases download.buffer@.len(),
        {
            let rest = download.buffer.split_off(STREAMING_CHUNK_SIZE);
            let mut chunk_data = rest;
            std::mem::swap(&mut chunk_data, &mut download.buffer);
            let offset = download.start_byte + download.bytes_received;
            let ghost before = chunk_data@ + download.buffer@;
            proof {
                assert(chunk_data@ =~= before.take(STREAMING_CHUNK_SIZE as int));
                assert(download.buffer@ =~= before.skip(STREAMING_CHUNK_SIZE as int));
            }
            download.bytes_received = download.bytes_received + STREAMING_CHUNK_SIZE;
            let event = StateEvent::ObjectRangeLoaded {
                bucket: download.bucket.clone(),
                key: download.key.clone(),
                start_byte: offset,
                total_size: download.total_size,
                data: chunk_data,
            };
            proof {
                let tail = chunk_events(
                    bucket,
                    key,
                    total_size,
                    (offset + STREAMING_CHUNK_SIZE) as nat,
                    download.buffer@,
                );
                assert(emitted + (seq![event@] + tail) =~= emitted.push(event@) + tail);
                assert((old(self)@.events + emitted).push(event@) =~= old(self)@.events
                    + emitted.push(event@));
                emitted = emitted.push(event@);
            }
            self.push_event(event);
        }
        proof {
            assert(emitted + Seq::<StateEventView>::empty() =~= emitted);
        }
        true
    }

    /// Handles the end of a streaming download made in `region` on the given
    /// attempt: looks for an error in what is left in the buffer, and
    /// otherwise delivers it as the last chunk. Returns the region to retry
    /// with after a redirect.
    pub fn process_get_object_streaming(
        &mut self,
        download: StreamingDownload,
        region: &str,
        attempt: u32,
    ) -> (retry: Option<String>)
        requires
            old(self).wf(),
            download.wf(),
        ensures
            final(self).wf(),
            (final(self)@, retry.deep_view()) == get_object_streaming_step(
                old(self)@,
                download.bucket@,
                download.key@,
                download.start_byte as nat,
                download.total_size as nat,
                region@,
                attempt as nat,
                download.status,
                download.bytes_received as nat,
                download.buffer@,
            ),
    {
        let text = decode_utf8_lossy(download.buffer.as_slice());
        let x = chars_of(text.as_str());
        let error = extract_error(x.as_slice());
        let StreamingDownload {
            bucket,
            key,
            start_byte,
            total_size,
            status,
            buffer,
            bytes_received,
        } = download;
        if !error.as_str().is_empty() {
            match decide_retry(x.as_slice(), bucket.as_str(), region, attempt) {
                Some(new_region) => {
                    self.cache_region(bucket.as_str(), new_region.as_str());
                    return Some(new_region);
                },
                None => {},
            }
            self.push_event(
                StateEvent::ObjectRangeLoadError { bucket, key, start_byte, error_message: error },
            );
            return None;
        }
        if !success(status) {
            self.push_event(
                StateEvent::ObjectRangeLoadError {
                    bucket,
                    key,
                    start_byte,
                    error_message: http_error_text(status),
                },
            );
            return None;
        }
        self.cache_region(bucket.as_str(), region);
        if buffer.len() > 0 {
            let offset = start_byte + bytes_received;
            self.push_event(
                StateEvent::ObjectRangeLoaded {
                    bucket,
                    key,
                    start_byte: offset,
                    total_size,
                    data: buffer,
                },
            );
        }
        None
    }
}

impl Backend for S3Backend {
    closed spec fn valid(&self) -> bool {
        self.wf()
    }

    fn take_events(&mut self) -> (r: Vec<StateEvent>)
        ensures
            r.deep_view() == old(self)@.events,
            final(self)@ == (S3BackendView { events: Seq::empty(), ..old(self)@ }),
    {
        S3Backend::take_events(self)
    }

    fn list_buckets(&mut self)
        ensures
            final(self)@ == old(self)@.enqueue_high(WorkItemView::ListBuckets),
    {
        S3Backend::list_buckets(self);
    }

    fn list_objects(
        &mut self,
        bucket: &str,
        prefix: &str,
        continuation_token: &str,
        cancel_flag: Option<CancelFlag>,
    )
        ensures
            final(self)@ == old(self)@.enqueue_high(
                (WorkItemView::ListObjects {
                    bucket: bucket@,
                    prefix: prefix@,
                    continuation_token: continuation_token@,
                    cancel_flag,
                }),
            ),
    {
        S3Backend::list_objects(self, bucket, prefix, continuation_token, cancel_flag);
    }

    fn get_object(
        &mut self,
        bucket: &str,
        key: &str,
        max_bytes: Option<usize>,
        low_priority: bool,
        cancellable: bool,
    )
        ensures
            final(self)@ == ({
                let item = WorkItemView::GetObject {
                    bucket: bucket@,
                    key: key@,
                    max_bytes,
                    cancel_flag: old(self)@.hover_flag(true, cancellable),
                };
                if low_priority {
                    old(self)@.hover_step(true, cancellable).enqueue_low(item)
                } else {
                    old(self)@.hover_step(true, cancellable).enqueue_high(item)
                }
            }),
    {
        S3Backend::get_object(self, bucket, key, max_bytes, low_priority, cancellable);
    }

    fn get_object_range(
        &mut self,
        bucket: &str,
        key: &str,
        start_byte: usize,
        end_byte: usize,
        cancel_flag: Option<CancelFlag>,
    )
        ensures
            final(self)@ == old(self)@.enqueue_high(
                (WorkItemView::GetObjectRange {
                    bucket: bucket@,
                    key: key@,
                    start_byte,
                    end_byte,
                    cancel_flag,
                }),
            ),
    {
        S3Backend::get_object_range(self, bucket, key, start_byte, end_byte, cancel_flag);
    }

    fn get_object_streaming(
        &mut self,
        bucket: &str,
        key: &str,
        start_byte: usize,
        total_size: usize,
        cancel_flag: Option<CancelFlag>,
    )
        ensures
            final(self)@ == old(self)@.enqueue_high(
                (WorkItemView::GetObjectStreaming {
                    bucket: bucket@,
                    key: key@,
                    start_byte,
                    total_size,
                    cancel_flag,
                }),
            ),
    {
        S3Backend::get_object_streaming(self, bucket, key, start_byte, total_size, cancel_flag);
    }

    fn cancel_all(&mut self)
        ensures
            final(self)@ == (S3BackendView { high: Seq::empty(), low: Seq::empty(), ..old(self)@ }),
    {
        S3Backend::cancel_all(self);
    }

    fn list_objects_prefetch(&mut self, bucket: &str, prefix: &str, cancellable: bool)
        ensures
            final(self)@ == old(self)@.hover_step(false, cancellable).enqueue_low(
                (WorkItemView::ListObjects {
                    bucket: bucket@,
                    prefix: prefix@,
                    continuation_token: Seq::empty(),
                    cancel_flag: old(self)@.hover_flag(false, cancellable),
                }),
            ),
    {
        S3Backend::list_objects_prefetch(self, bucket, prefix, cancellable);
    }

    fn prioritize_request(&mut self, bucket: &str, prefix: &str) -> (found: bool)
        ensures
            final(self)@ == old(self)@.boost(false, bucket@, prefix@),
            found == (first_target(final(self)@.high, false, bucket@, prefix@, 0) is Some),
    {
        S3Backend::prioritize_request(self, bucket, prefix)
    }

    fn has_pending_request(&self, bucket: &str, prefix: &str) -> (r: bool)
        ensures
            r == self@.pending(false, bucket@, prefix@),
    {
        S3Backend::has_pending_request(self, bucket, prefix)
    }

    fn has_pending_object_request(&self, bucket: &str, key: &str) -> (r: bool)
        ensures
            r == self@.pending(true, bucket@, key@),
    {
        S3Backend::has_pending_object_request(self, bucket, key)
    }

    fn prioritize_object_request(&mut self, bucket: &str, key: &str) -> (found: bool)
        ensures
            final(self)@ == old(self)@.boost(true, bucket@, key@),
            found == (first_target(final(self)@.high, true, bucket@, key@, 0) is Some),
    {
        S3Backend::prioritize_object_request(self, bucket, key)
    }
}

/// The event that reports the failure of a work item.
pub open spec fn failure_event(item: WorkItemView, message: Seq<char>) -> StateEventView {
    match item {
        WorkItemView::ListBuckets => StateEventView::BucketsLoadError { error_message: message },
        WorkItemView::ListObjects { bucket, prefix, .. } => StateEventView::ObjectsLoadError {
            bucket,
            prefix,
            error_message: message,
        },
        WorkItemView::GetObject { bucket, key, .. } => StateEventView::ObjectContentLoadError {
            bucket,
            key,
            error_message: message,
        },
        WorkItemView::GetObjectRange { bucket, key, start_byte, .. } => {
            StateEventView::ObjectRangeLoadError {
                bucket,
                key,
                start_byte: start_byte as nat,
                error_message: message,
            }
        },
        WorkItemView::GetObjectStreaming { bucket, key, start_byte, .. } => {
            StateEventView::ObjectRangeLoadError {
                bucket,
                key,
                start_byte: start_byte as nat,
                error_message: message,
            }
        },
    }
}

/// The bucket that a work item addresses; empty for a bucket listing.
pub open spec fn item_bucket(item: WorkItemView) -> Seq<char> {
    match item {
        WorkItemView::ListBuckets => Seq::empty(),
        WorkItemView::ListObjects { bucket, .. } => bucket,
        WorkItemView::GetObject { bucket, .. } => bucket,
        WorkItemView::GetObjectRange { bucket, .. } => bucket,
        WorkItemView::GetObjectStreaming { bucket, .. } => bucket,
    }
}

/// The engine's step on the response to an object listing: nothing for a
/// cancelled request; an error event for a failed transfer; for an error in
/// the body, a retry in the redirect's region (which is cached) or an error
/// event; else the region is cached and the listing delivered, echoing the
/// continuation token of the request.
pub open spec fn list_objects_step(
    v: S3BackendView,
    bucket: Seq<char>,
    prefix: Seq<char>,
    continuation_token: Seq<char>,
    region: Seq<char>,
    attempt: nat,
    status: u16,
    response: Seq<char>,
) -> (S3BackendView, Option<Seq<char>>) {
    if response == "CANCELLED"@ {
        (v, None)
    } else if occurs_at(response, "ERROR:"@, 0) {
        (
            v.push_event(
                StateEventView::ObjectsLoadError { bucket, prefix, error_message: response },
            ),
            None,
        )
    } else {
        let result = list_objects_result(response);
        if result.error.len() > 0 {
            match retry_region(response, bucket, region, attempt) {
                Some(new_region) => (v.cache_region(bucket, new_region), Some(new_region)),
                None => (
                    v.push_event(
                        StateEventView::ObjectsLoadError {
                            bucket,
                            prefix,
                            error_message: result.error,
                        },
                    ),
                    None,
                ),
            }
        } else if !is_success(status) {
            (
                v.push_event(
                    StateEventView::ObjectsLoadError {
                        bucket,
                        prefix,
                        error_message: http_error(status),
                    },
                ),
                None,
            )
        } else {
            (
                v.cache_region(bucket, region).push_event(
                    StateEventView::ObjectsLoaded {
                        bucket,
                        prefix,
                        continuation_token,
                        objects: result.objects,
                        next_continuation_token: result.next_continuation_token,
                        is_truncated: result.is_truncated,
                    },
                ),
                None,
            )
        }
    }
}

/// The engine's step on the response to an object fetch: as for a listing,
/// except that `InvalidRange` means an empty object and is delivered as
/// empty content, and that success delivers the bytes of the body.
pub open spec fn get_object_step(
    v: S3BackendView,
    bucket: Seq<char>,
    key: Seq<char>,
    region: Seq<char>,
    attempt: nat,
    status: u16,
    response: Seq<char>,
) -> (S3BackendView, Option<Seq<char>>) {
    if response == "CANCELLED"@ {
        (v, None)
    } else if occurs_at(response, "ERROR:"@, 0) {
        (
            v.push_event(
                StateEventView::ObjectContentLoadError { bucket, key, error_message: response },
            ),
            None,
        )
    } else if response_error(response).len() > 0 {
        match retry_region(response, bucket, region, attempt) {
            Some(new_region) => (v.cache_region(bucket, new_region), Some(new_region)),
            None => if tag_or_empty(response, "Code"@) == "InvalidRange"@ {
                (
                    v.push_event(
                        StateEventView::ObjectContentLoaded {
                            bucket,
                            key,
                            content: Seq::empty(),
                        },
                    ),
                    None,
                )
            } else {
                (
                    v.push_event(
                        StateEventView::ObjectContentLoadError {
                            bucket,
                            key,
                            error_message: response_error(response),
                        },
                    ),
                    None,
                )
            },
        }
    } else if !is_success(status) {
        (
            v.push_event(
                StateEventView::ObjectContentLoadError {
                    bucket,
                    key,
                    error_message: http_error(status),
                },
            ),
            None,
        )
    } else {
        (
            v.cache_region(bucket, region).push_event(
                StateEventView::ObjectContentLoaded {
                    bucket,
                    key,
                    content: encode_utf8(response),
                },
            ),
            None,
        )
    }
}

/// The engine's step on an error found in the body of a range or streaming
/// fetch: a retry in the redirect's region, or an error event.
pub open spec fn range_error_step(
    v: S3BackendView,
    bucket: Seq<char>,
    key: Seq<char>,
    start_byte: nat,
    region: Seq<char>,
    attempt: nat,
    text: Seq<char>,
) -> (S3BackendView, Option<Seq<char>>) {
    match retry_region(text, bucket, region, attempt) {
        Some(new_region) => (v.cache_region(bucket, new_region), Some(new_region)),
        None => (
            v.push_event(
                StateEventView::ObjectRangeLoadError {
                    bucket,
                    key,
                    start_byte,
                    error_message: response_error(text),
                },
            ),
            None,
        ),
    }
}

/// The engine's step on the body of a range fetch: an error in the body
/// (read as text) is handled as such; else the region is cached and the
/// bytes are delivered with the total size that `Content-Range` reports.
pub open spec fn get_object_range_step(
    v: S3BackendView,
    bucket: Seq<char>,
    key: Seq<char>,
    start_byte: nat,
    region: Seq<char>,
    attempt: nat,
    status: u16,
    content_range: Option<Seq<char>>,
    body: Seq<u8>,
) -> (S3BackendView, Option<Seq<char>>) {
    let text = utf8_lossy(body);
    if response_error(text).len() > 0 {
        range_error_step(v, bucket, key, start_byte, region, attempt, text)
    } else if !is_success(status) {
        (
            v.push_event(
                StateEventView::ObjectRangeLoadError {
                    bucket,
                    key,
                    start_byte,
                    error_message: http_error(status),
                },
            ),
            None,
        )
    } else {
        (
            v.cache_region(bucket, region).push_event(
                StateEventView::ObjectRangeLoaded {
                    bucket,
                    key,
                    start_byte,
                    total_size: match content_range {
                        Some(value) => content_range_total(value),
                        None => 0,
                    },
                    data: body,
                },
            ),
            None,
        )
    }
}

/// The engine's step at the end of a streaming download: an error in what
/// is left in the buffer (read as text) is handled as such, and so is a
/// status that tells failure; else the region is cached and what is left, if
/// anything, is delivered as the last chunk.
pub open spec fn get_object_streaming_step(
    v: S3BackendView,
    bucket: Seq<char>,
    key: Seq<char>,
    start_byte: nat,
    total_size: nat,
    region: Seq<char>,
    attempt: nat,
    status: u16,
    bytes_received: nat,
    buffer: Seq<u8>,
) -> (S3BackendView, Option<Seq<char>>) {
    let text = utf8_lossy(buffer);
    if response_error(text).len() > 0 {
        range_error_step(v, bucket, key, start_byte, region, attempt, text)
    } else if !is_success(status) {
        (
            v.push_event(
                StateEventView::ObjectRangeLoadError {
                    bucket,
                    key,
                    start_byte,
                    error_message: http_error(status),
                },
            ),
            None,
        )
    } else {
        let cached = v.cache_region(bucket, region);
        if buffer.len() > 0 {
            (
                cached.push_event(
                    StateEventView::ObjectRangeLoaded {
                        bucket,
                        key,
                        start_byte: start_byte + bytes_received,
                        total_size,
                        data: buffer,
                    },
                ),
                None,
            )
        } else {
            (cached, None)
        }
    }
}

/// Caching a region twice is the same as caching it once, and the region
/// read back for a bucket is the one cached last.
pub proof fn lemma_region_cache_idempotent(
    v: S3BackendView,
    bucket: Seq<char>,
    region: Seq<char>,
    earlier: Seq<char>,
)
    ensures
        v.cache_region(bucket, region).cache_region(bucket, region) == v.cache_region(
            bucket,
            region,
        ),
        v.cache_region(bucket, region).cached_region(bucket) == region,
        v.cache_region(bucket, earlier).cache_region(bucket, region).cached_region(bucket)
            == region,
{
    assert(v.regions.insert(bucket, region).insert(bucket, region) =~= v.regions.insert(
        bucket,
        region,
    ));
}

/// After all pending requests have been cancelled, no work item is left to
/// take from either queue: no request that had not been taken before gives
/// rise to an event.
pub proof fn lemma_cancel_all_leaves_no_work(v: S3BackendView)
    ensures
        ({
            let cancelled = S3BackendView { high: Seq::empty(), low: Seq::empty(), ..v };
            &&& first_live(cancelled.high, cancelled.cancelled, 0) >= cancelled.high.len()
            &&& first_live(cancelled.low, cancelled.cancelled, 0) >= cancelled.low.len()
            &&& cancelled.events == v.events
        }),
{
}

/// A request in flight delivers at most one event when its response is
/// handled as a listing, an object fetch or a range fetch.
pub proof fn lemma_one_event_per_response(
    v: S3BackendView,
    bucket: Seq<char>,
    name: Seq<char>,
    token: Seq<char>,
    start_byte: nat,
    region: Seq<char>,
    attempt: nat,
    status: u16,
    response: Seq<char>,
    content_range: Option<Seq<char>>,
    body: Seq<u8>,
)
    ensures
        v.push_event(list_buckets_event(status, response)).events.len() == v.events.len() + 1,
        list_objects_step(v, bucket, name, token, region, attempt, status, response).0.events.len()
            <= v.events.len() + 1,
        get_object_step(v, bucket, name, region, attempt, status, response).0.events.len()
            <= v.events.len() + 1,
        get_object_range_step(
            v,
            bucket,
            name,
            start_byte,
            region,
            attempt,
            status,
            content_range,
            body,
        ).0.events.len() <= v.events.len() + 1,
        v.events.is_prefix_of(
            list_objects_step(v, bucket, name, token, region, attempt, status, response).0.events,
        ),
        v.events.is_prefix_of(
            get_object_step(v, bucket, name, region, attempt, status, response).0.events,
        ),
        v.events.is_prefix_of(
            get_object_range_step(
                v,
                bucket,
                name,
                start_byte,
                region,
                attempt,
                status,
                content_range,
                body,
            ).0.events,
        ),
{
}

} // verus!
