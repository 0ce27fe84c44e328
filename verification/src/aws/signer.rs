//! AWS Signature Version 4: canonical request, signing-key chain, signed
//! headers and presigned URLs.

use vstd::prelude::*;
use vstd::string::StringSliceAdditionalSpecFns;
use vstd::utf8::encode_utf8;
use crate::text::{
    chars_of, decimal_padded, decimal_signed, push_chars, push_decimal_padded,
    push_decimal_signed, push_text, span_pieces, split_from, split_spans, text_of, Span,
};

verus! {

/// Upper bound on the length of a hashed input. The digest counts the bits of
/// its input in 64 bits, and fails on 2^61 bytes or more.
pub const HASH_INPUT_LIMIT: u64 = 0x1fff_ffff_ffff_ff00;

/// The SHA-256 digest of `data`, as `ring::digest::digest` computes it.
pub uninterp spec fn sha256_digest(data: Seq<u8>) -> Seq<u8>;

/// Calls `ring::digest::digest` with SHA-256. The digest is named; its length
/// of 32 bytes is the algorithm's output length. Inputs at or above the limit
/// are left out: on those the call fails.
#[verifier::external_body]
pub(crate) fn sha256_raw(data: &[u8]) -> (r: Vec<u8>)
    requires
        data@.len() < HASH_INPUT_LIMIT,
    ensures
        r@ == sha256_digest(data@),
        r@.len() == 32,
{
    ring::digest::digest(&ring::digest::SHA256, data).as_ref().to_vec()
}

/// The HMAC-SHA256 tag of `data` under `key`, as `ring::hmac::sign` computes it.
pub uninterp spec fn hmac_sha256(key: Seq<u8>, data: Seq<u8>) -> Seq<u8>;

/// Calls `ring::hmac::Key::new` and `ring::hmac::sign` with HMAC-SHA256. The
/// tag is named; its length of 32 bytes is the digest's output length. The
/// limit leaves room for the one block that the key adds to the hashed input.
#[verifier::external_body]
pub(crate) fn hmac_sha256_raw(key: &[u8], data: &[u8]) -> (r: Vec<u8>)
    requires
        key@.len() < HASH_INPUT_LIMIT,
        data@.len() < HASH_INPUT_LIMIT,
    ensures
        r@ == hmac_sha256(key@, data@),
        r@.len() == 32,
{
    let k = ring::hmac::Key::new(ring::hmac::HMAC_SHA256, key);
    ring::hmac::sign(&k, data).as_ref().to_vec()
}

/// Reads the system clock: seconds since the Unix epoch, zero where the clock
/// stands before it. Nothing is promised of the value.
#[verifier::external_body]
pub(crate) fn unix_now() -> (secs: u64) {
    std::time::SystemTime::now().duration_since(std::time::UNIX_EPOCH).unwrap_or_default().as_secs()
}

/// The lowercase hexadecimal digit for `n`.
pub open spec fn hex_digit(n: int) -> char
    recommends
        0 <= n < 16,
{
    if n < 10 {
        (48 + n) as u8 as char
    } else {
        (87 + n) as u8 as char
    }
}

/// The uppercase hexadecimal digit for `n`.
pub open spec fn hex_digit_upper(n: int) -> char
    recommends
        0 <= n < 16,
{
    if n < 10 {
        (48 + n) as u8 as char
    } else {
        (55 + n) as u8 as char
    }
}

/// The lowercase hexadecimal text of `data`: two digits per byte, high
/// nibble first.
pub open spec fn hex(data: Seq<u8>) -> Seq<char> {
    Seq::new(
        2 * data.len(),
        |i: int|
            if i % 2 == 0 {
                hex_digit(data[i / 2] as int / 16)
            } else {
                hex_digit(data[i / 2] as int % 16)
            },
    )
}

/// Whether `c` is a lowercase hexadecimal digit.
pub open spec fn is_lower_hex_digit(c: char) -> bool {
    ('0' <= c && c <= '9') || ('a' <= c && c <= 'f')
}

/// Whether `s` is the hexadecimal text of a digest of 32 bytes: 64 lowercase
/// hexadecimal digits.
pub open spec fn is_hex_digest(s: Seq<char>) -> bool {
    s.len() == 64 && forall|i: int| 0 <= i < s.len() ==> is_lower_hex_digit(#[trigger] s[i])
}

/// The hexadecimal text of `data` has two digits for each byte, all of them
/// lowercase hexadecimal digits.
pub proof fn lemma_hex_text(data: Seq<u8>)
    ensures
        hex(data).len() == 2 * data.len(),
        forall|i: int| 0 <= i < hex(data).len() ==> is_lower_hex_digit(#[trigger] hex(data)[i]),
{
    assert forall|i: int| 0 <= i < hex(data).len() implies is_lower_hex_digit(
        #[trigger] hex(data)[i],
    ) by {
        let b = data[i / 2] as int;
        let n = if i % 2 == 0 {
            b / 16
        } else {
            b % 16
        };
        assert(0 <= n < 16);
        assert(hex(data)[i] == hex_digit(n));
    }
}

fn hex_digit_of(n: u8) -> (c: char)
    requires
        n < 16,
    ensures
        c == hex_digit(n as int),
{
    if n < 10 {
        (48u8 + n) as char
    } else {
        (87u8 + n) as char
    }
}

fn hex_digit_upper_of(n: u8) -> (c: char)
    requires
        n < 16,
    ensures
        c == hex_digit_upper(n as int),
{
    if n < 10 {
        (48u8 + n) as char
    } else {
        (55u8 + n) as char
    }
}

/// Renders bytes as lowercase hexadecimal text.
pub fn to_hex(data: &[u8]) -> (s: String)
    ensures
        s@ == hex(data@),
{
    let mut s = String::new();
    let mut i: usize = 0;
    while i < data.len()
        invariant
            i <= data@.len(),
            s@ == hex(data@.take(i as int)),
        decreases data@.len() - i,
    {
        let b = data[i];
        s.push(hex_digit_of(b / 16));
        s.push(hex_digit_of(b % 16));
        proof {
            assert(s@ =~= hex(data@.take(i + 1)));
        }
        i += 1;
    }
    proof {
        assert(data@.take(i as int) == data@);
    }
    s
}

/// Whether a byte passes through percent-encoding unchanged: ASCII letters
/// and digits, and `-`, `_`, `.`, `~`.
pub open spec fn is_unreserved(b: u8) -> bool {
    ||| 48 <= b <= 57
    ||| 65 <= b <= 90
    ||| 97 <= b <= 122
    ||| b == 45
    ||| b == 95
    ||| b == 46
    ||| b == 126
}

/// The percent-encoding of one byte.
pub open spec fn uri_encoded_byte(b: u8, encode_slash: bool) -> Seq<char> {
    if is_unreserved(b) || (b == 47 && !encode_slash) {
        seq![b as char]
    } else {
        seq!['%', hex_digit_upper(b as int / 16), hex_digit_upper(b as int % 16)]
    }
}

/// The percent-encoding of a byte string: unreserved bytes as they are, a
/// slash as it is unless `encode_slash`, every other byte as `%XX` in
/// uppercase hexadecimal.
pub open spec fn uri_encoded(bytes: Seq<u8>, encode_slash: bool) -> Seq<char>
    decreases bytes.len(),
{
    if bytes.len() == 0 {
        Seq::empty()
    } else {
        uri_encoded(bytes.drop_last(), encode_slash) + uri_encoded_byte(bytes.last(), encode_slash)
    }
}

/// Percent-encodes the UTF-8 bytes of `value`.
pub fn uri_encode(value: &str, encode_slash: bool) -> (r: String)
    ensures
        r@ == uri_encoded(value.spec_bytes(), encode_slash),
{
    let bytes = value.as_bytes();
    let mut out = String::new();
    let mut i: usize = 0;
    while i < bytes.len()
        invariant
            i <= bytes@.len(),
            out@ == uri_encoded(bytes@.take(i as int), encode_slash),
        decreases bytes@.len() - i,
    {
        let b = bytes[i];
        proof {
            assert(bytes@.take(i + 1).drop_last() == bytes@.take(i as int));
        }
        if (48 <= b && b <= 57) || (65 <= b && b <= 90) || (97 <= b && b <= 122) || b == 45 || b
            == 95 || b == 46 || b == 126 || (b == 47 && !encode_slash) {
            out.push(b as char);
            proof {
                assert(out@ == uri_encoded(bytes@.take(i as int), encode_slash) + seq![b as char]);
            }
        } else {
            out.push('%');
            out.push(hex_digit_upper_of(b / 16));
            out.push(hex_digit_upper_of(b % 16));
            proof {
                assert(out@ == uri_encoded(bytes@.take(i as int), encode_slash) + seq![
                    '%',
                    hex_digit_upper(b as int / 16),
                    hex_digit_upper(b as int % 16),
                ]);
            }
        }
        i += 1;
    }
    proof {
        assert(bytes@.take(i as int) == bytes@);
    }
    out
}

/// Percent-encodes a value for a query string: the slash is encoded too.
pub fn url_encode(value: &str) -> (r: String)
    ensures
        r@ == uri_encoded(value.spec_bytes(), true),
{
    uri_encode(value, true)
}

/// A point in time as calendar fields in UTC.
#[derive(Clone, Copy, Debug)]
pub struct CivilTime {
    pub year: u64,
    pub month: u64,
    pub day: u64,
    pub hour: u64,
    pub minute: u64,
    pub second: u64,
}

/// Whether `y` is a leap year of the Gregorian calendar.
pub open spec fn is_leap_year(y: int) -> bool {
    y % 4 == 0 && (y % 100 != 0 || y % 400 == 0)
}

/// The number of days of year `y`.
pub open spec fn days_in_year(y: int) -> int {
    if is_leap_year(y) {
        366
    } else {
        365
    }
}

/// The number of days of month `m` (1 to 12) of year `y`.
pub open spec fn days_in_month(y: int, m: int) -> int {
    if m == 2 {
        if is_leap_year(y) {
            29
        } else {
            28
        }
    } else if m == 4 || m == 6 || m == 9 || m == 11 {
        30
    } else {
        31
    }
}

/// The number of days from 1 January 1970 to 1 January of year `y`.
pub open spec fn days_before_year(y: int) -> int
    decreases y,
{
    if y <= 1970 {
        0
    } else {
        days_before_year(y - 1) + days_in_year(y - 1)
    }
}

/// The number of days of year `y` that lie before its month `m`.
pub open spec fn days_before_month(y: int, m: int) -> int
    decreases m,
{
    if m <= 1 {
        0
    } else {
        days_before_month(y, m - 1) + days_in_month(y, m - 1)
    }
}

impl CivilTime {
    /// The fields name a real date and time of day, in 1970 or later.
    pub open spec fn valid(self) -> bool {
        &&& 1970 <= self.year
        &&& 1 <= self.month <= 12
        &&& 1 <= self.day <= days_in_month(self.year as int, self.month as int)
        &&& self.hour < 24
        &&& self.minute < 60
        &&& self.second < 60
    }

    /// The number of seconds from the Unix epoch to this time.
    pub open spec fn unix_seconds(self) -> int {
        (days_before_year(self.year as int) + days_before_month(
            self.year as int,
            self.month as int,
        ) + (self.day - 1)) * 86400 + self.hour * 3600 + self.minute * 60 + self.second
    }

    /// The timestamp `YYYYMMDDTHHMMSSZ`, each field padded with zeros.
    pub open spec fn text(self) -> Seq<char> {
        decimal_padded(self.year as nat, 4) + decimal_padded(self.month as nat, 2)
            + decimal_padded(self.day as nat, 2) + seq!['T'] + decimal_padded(self.hour as nat, 2)
            + decimal_padded(self.minute as nat, 2) + decimal_padded(self.second as nat, 2)
            + seq!['Z']
    }

    /// Renders the timestamp `YYYYMMDDTHHMMSSZ`.
    pub fn timestamp(&self) -> (r: String)
        ensures
            r@ == self.text(),
    {
        let mut out = String::new();
        proof {
            assert(out@ + decimal_padded(self.year as nat, 4) == decimal_padded(
                self.year as nat,
                4,
            ));
        }
        push_decimal_padded(&mut out, self.year, 4);
        push_decimal_padded(&mut out, self.month, 2);
        push_decimal_padded(&mut out, self.day, 2);
        out.push('T');
        push_decimal_padded(&mut out, self.hour, 2);
        push_decimal_padded(&mut out, self.minute, 2);
        push_decimal_padded(&mut out, self.second, 2);
        out.push('Z');
        out
    }
}

fn year_length(y: u64) -> (n: u64)
    ensures
        n == days_in_year(y as int),
{
    if y % 4 == 0 && (y % 100 != 0 || y % 400 == 0) {
        366
    } else {
        365
    }
}

fn month_length(y: u64, m: u64) -> (n: u64)
    ensures
        n == days_in_month(y as int, m as int),
{
    if m == 2 {
        if y % 4 == 0 && (y % 100 != 0 || y % 400 == 0) {
            29
        } else {
            28
        }
    } else if m == 4 || m == 6 || m == 9 || m == 11 {
        30
    } else {
        31
    }
}

/// A year has as many days as its twelve months together.
pub proof fn lemma_year_is_twelve_months(y: int)
    ensures
        days_before_month(y, 13) == days_in_year(y),
{
    reveal_with_fuel(days_before_month, 14);
}

/// Converts seconds since the Unix epoch to calendar fields: the one valid
/// date and time that lies that many seconds after the epoch.
pub fn civil_from_unix(secs: u64) -> (t: CivilTime)
    ensures
        t.valid(),
        t.unix_seconds() == secs,
{
    let total_days: u64 = secs / 86400;
    let day_secs: u64 = secs % 86400;
    let hour = day_secs / 3600;
    let minute = (day_secs % 3600) / 60;
    let second = day_secs % 60;
    let mut days: u64 = total_days;
    let mut year: u64 = 1970;
    loop
        invariant
            1970 <= year,
            total_days <= 213503982334601,
            total_days == days_before_year(year as int) + days,
            year - 1970 <= total_days - days,
        ensures
            days < days_in_year(year as int),
        decreases days,
    {
        let len = year_length(year);
        if days < len {
            break;
        }
        days -= len;
        year += 1;
    }
    let mut month: u64 = 1;
    proof {
        lemma_year_is_twelve_months(year as int);
        reveal_with_fuel(days_before_month, 14);
    }
    while month < 12 && days >= month_length(year, month)
        invariant
            1 <= month <= 12,
            total_days == days_before_year(year as int) + days_before_month(
                year as int,
                month as int,
            ) + days,
            days_before_month(year as int, month as int) + days < days_in_year(year as int),
            days_before_month(year as int, 13) == days_in_year(year as int),
        decreases 12 - month,
    {
        proof {
            reveal_with_fuel(days_before_month, 14);
        }
        days -= month_length(year, month);
        month += 1;
    }
    proof {
        reveal_with_fuel(days_before_month, 14);
    }
    CivilTime { year, month, day: days + 1, hour, minute, second }
}

/// Lexicographic order on texts by character code, from index `i` on.
pub open spec fn lex_le_from(a: Seq<char>, b: Seq<char>, i: int) -> bool
    decreases a.len() - i,
{
    if i < 0 || i >= a.len() {
        true
    } else if i >= b.len() {
        false
    } else if a[i] != b[i] {
        (a[i] as u32) < (b[i] as u32)
    } else {
        lex_le_from(a, b, i + 1)
    }
}

/// Lexicographic order on texts by character code: `a` sorts before `b`, or
/// equals it.
pub open spec fn lex_le(a: Seq<char>, b: Seq<char>) -> bool {
    lex_le_from(a, b, 0)
}

/// `sorted` with `token` put behind the last token that does not sort after
/// it.
pub open spec fn insert_token(sorted: Seq<Seq<char>>, token: Seq<char>) -> Seq<Seq<char>>
    decreases sorted.len(),
{
    if sorted.len() == 0 {
        seq![token]
    } else if lex_le(sorted.last(), token) {
        sorted.push(token)
    } else {
        insert_token(sorted.drop_last(), token).push(sorted.last())
    }
}

/// The tokens in ascending lexicographic order, each as it is.
pub open spec fn sort_tokens(tokens: Seq<Seq<char>>) -> Seq<Seq<char>>
    decreases tokens.len(),
{
    if tokens.len() == 0 {
        Seq::empty()
    } else {
        insert_token(sort_tokens(tokens.drop_last()), tokens.last())
    }
}

/// The tokens written one after another, with `&` between them.
pub open spec fn join_tokens(tokens: Seq<Seq<char>>) -> Seq<char>
    decreases tokens.len(),
{
    if tokens.len() == 0 {
        Seq::empty()
    } else if tokens.len() == 1 {
        tokens[0]
    } else {
        join_tokens(tokens.drop_last()) + seq!['&'] + tokens.last()
    }
}

/// The canonical form of a query string: its tokens, which are the pieces
/// between the `&`, sorted in lexicographic order of the whole token and
/// joined with `&` again. Each token stays as it is given, with its `=` and
/// its encoding. The empty string stays empty.
pub open spec fn canonical_query(query: Seq<char>) -> Seq<char> {
    if query.len() == 0 {
        Seq::empty()
    } else {
        join_tokens(sort_tokens(split_from(query, '&', 0)))
    }
}

/// Whether the tokens stand in ascending lexicographic order.
pub open spec fn ascending(tokens: Seq<Seq<char>>) -> bool {
    forall|i: int, j: int| 0 <= i < j < tokens.len() ==> lex_le(tokens[i], tokens[j])
}

/// Different characters have different codes.
proof fn lemma_codes_differ(x: char, y: char)
    requires
        x != y,
    ensures
        (x as u32) < (y as u32) || (y as u32) < (x as u32),
{
}

/// Of two texts, one sorts before the other or equals it.
proof fn lemma_lex_le_total(a: Seq<char>, b: Seq<char>, i: int)
    ensures
        lex_le_from(a, b, i) || lex_le_from(b, a, i),
    decreases a.len() - i,
{
    if 0 <= i < a.len() && i < b.len() {
        if a[i] == b[i] {
            lemma_lex_le_total(a, b, i + 1);
        } else {
            lemma_codes_differ(a[i], b[i]);
        }
    }
}

/// The lexicographic order is transitive.
proof fn lemma_lex_le_transitive(a: Seq<char>, b: Seq<char>, c: Seq<char>, i: int)
    requires
        lex_le_from(a, b, i),
        lex_le_from(b, c, i),
    ensures
        lex_le_from(a, c, i),
    decreases a.len() - i,
{
    if 0 <= i < a.len() && a[i] == b[i] && b[i] == c[i] {
        lemma_lex_le_transitive(a, b, c, i + 1);
    }
}

/// Where `insert_token` puts a token: behind the last token that does not
/// sort after it.
spec fn insert_place(sorted: Seq<Seq<char>>, token: Seq<char>) -> int
    decreases sorted.len(),
{
    if sorted.len() == 0 {
        0
    } else if lex_le(sorted.last(), token) {
        sorted.len() as int
    } else {
        insert_place(sorted.drop_last(), token)
    }
}

/// `insert_token` inserts the token at `insert_place`, behind a token that
/// does not sort after it and before tokens that do.
proof fn lemma_insert_place(sorted: Seq<Seq<char>>, token: Seq<char>)
    ensures
        0 <= insert_place(sorted, token) <= sorted.len(),
        forall|k: int|
            insert_place(sorted, token) <= k < sorted.len() ==> !lex_le(sorted[k], token),
        insert_place(sorted, token) > 0 ==> lex_le(
            sorted[insert_place(sorted, token) - 1],
            token,
        ),
        insert_token(sorted, token) == sorted.insert(insert_place(sorted, token), token),
    decreases sorted.len(),
{
    let at = insert_place(sorted, token);
    if sorted.len() > 0 && !lex_le(sorted.last(), token) {
        let front = sorted.drop_last();
        lemma_insert_place(front, token);
        assert forall|k: int| at <= k < sorted.len() implies !lex_le(sorted[k], token) by {
            if k < front.len() {
                assert(sorted[k] == front[k]);
            }
        }
        if at > 0 {
            assert(sorted[at - 1] == front[at - 1]);
        }
    }
    lemma_insert_at(sorted, token, at);
}

/// A token inserted into tokens in ascending order leaves them in ascending
/// order.
proof fn lemma_insert_keeps_order(sorted: Seq<Seq<char>>, token: Seq<char>)
    requires
        ascending(sorted),
    ensures
        ascending(insert_token(sorted, token)),
{
    lemma_insert_place(sorted, token);
    let at = insert_place(sorted, token);
    let after = sorted.insert(at, token);
    assert forall|i: int, j: int| 0 <= i < j < after.len() implies lex_le(after[i], after[j]) by {
        if j < at {
            assert(lex_le(sorted[i], sorted[j]));
        } else if j == at {
            assert(lex_le(sorted[at - 1], token));
            if i < at - 1 {
                assert(lex_le(sorted[i], sorted[at - 1]));
                lemma_lex_le_transitive(sorted[i], sorted[at - 1], token, 0);
            }
        } else if i == at {
            assert(!lex_le(sorted[j - 1], token));
            lemma_lex_le_total(sorted[j - 1], token, 0);
        } else if i < at {
            assert(lex_le(sorted[i], sorted[j - 1]));
        } else {
            assert(lex_le(sorted[i - 1], sorted[j - 1]));
        }
    }
}

/// Sorting orders the tokens and changes none: the result holds the tokens
/// given, each as often as it was given, in ascending order.
pub proof fn lemma_sort_tokens(tokens: Seq<Seq<char>>)
    ensures
        sort_tokens(tokens).len() == tokens.len(),
        sort_tokens(tokens).to_multiset() == tokens.to_multiset(),
        ascending(sort_tokens(tokens)),
    decreases tokens.len(),
{
    if tokens.len() > 0 {
        let rest = tokens.drop_last();
        lemma_sort_tokens(rest);
        lemma_insert_place(sort_tokens(rest), tokens.last());
        lemma_insert_keeps_order(sort_tokens(rest), tokens.last());
        vstd::seq_lib::to_multiset_insert(
            sort_tokens(rest),
            insert_place(sort_tokens(rest), tokens.last()),
            tokens.last(),
        );
        vstd::seq_lib::to_multiset_build(rest, tokens.last());
        assert(rest.push(tokens.last()) =~= tokens);
        let sorted = sort_tokens(rest);
        let at = insert_place(sorted, tokens.last());
        assert(sort_tokens(tokens) == sorted.insert(at, tokens.last()));
        assert(sorted.insert(at, tokens.last()).to_multiset() == sorted.to_multiset().insert(
            tokens.last(),
        ));
        assert(rest.push(tokens.last()).to_multiset() == rest.to_multiset().insert(
            tokens.last(),
        ));
    } else {
        assert(tokens =~= Seq::<Seq<char>>::empty());
    }
}

/// Compares two texts in lexicographic order by character code.
fn lex_le_exec(a: &[char], b: &[char]) -> (r: bool)
    ensures
        r == lex_le(a@, b@),
{
    let mut i: usize = 0;
    while i < a.len()
        invariant
            i <= a@.len(),
            lex_le(a@, b@) == lex_le_from(a@, b@, i as int),
        decreases a@.len() - i,
    {
        if i >= b.len() {
            return false;
        }
        if a[i] != b[i] {
            return (a[i] as u32) < (b[i] as u32);
        }
        i += 1;
    }
    true
}

/// Whether the spans lie within a text of length `len`.
spec fn spans_within(spans: Seq<Span>, len: int) -> bool {
    forall|i: int| 0 <= i < spans.len() ==> (#[trigger] spans[i]).start <= spans[i].end <= len
}

/// Compares the tokens that two spans cut out of the query.
fn span_le(q: &[char], a: Span, b: Span) -> (r: bool)
    requires
        a.start <= a.end <= q@.len(),
        b.start <= b.end <= q@.len(),
    ensures
        r == lex_le(
            q@.subrange(a.start as int, a.end as int),
            q@.subrange(b.start as int, b.end as int),
        ),
{
    let at = vstd::slice::slice_subrange(q, a.start, a.end);
    let bt = vstd::slice::slice_subrange(q, b.start, b.end);
    lex_le_exec(at, bt)
}

/// Inserting at the place found by scanning from the end is `insert_token`.
proof fn lemma_insert_at(sorted: Seq<Seq<char>>, token: Seq<char>, j: int)
    requires
        0 <= j <= sorted.len(),
        forall|k: int| j <= k < sorted.len() ==> !lex_le(sorted[k], token),
        j > 0 ==> lex_le(sorted[j - 1], token),
    ensures
        insert_token(sorted, token) == sorted.insert(j, token),
    decreases sorted.len(),
{
    if sorted.len() == 0 {
        assert(sorted.insert(0, token) =~= seq![token]);
    } else if j == sorted.len() {
        assert(sorted.insert(j, token) =~= sorted.push(token));
    } else {
        lemma_insert_at(sorted.drop_last(), token, j);
        assert(sorted.insert(j, token) =~= sorted.drop_last().insert(j, token).push(
            sorted.last(),
        ));
    }
}

/// Sorts the spans by the tokens they cut out of the query.
fn sort_spans(q: &[char], spans: &Vec<Span>) -> (sorted: Vec<Span>)
    requires
        spans_within(spans@, q@.len() as int),
    ensures
        span_pieces(q@, sorted@) == sort_tokens(span_pieces(q@, spans@)),
        spans_within(sorted@, q@.len() as int),
{
    let mut sorted: Vec<Span> = Vec::new();
    let mut i: usize = 0;
    proof {
        assert(span_pieces(q@, spans@.take(0)) =~= Seq::<Seq<char>>::empty());
        assert(span_pieces(q@, sorted@) =~= Seq::<Seq<char>>::empty());
    }
    while i < spans.len()
        invariant
            i <= spans@.len(),
            spans_within(spans@, q@.len() as int),
            spans_within(sorted@, q@.len() as int),
            span_pieces(q@, sorted@) == sort_tokens(span_pieces(q@, spans@.take(i as int))),
        decreases spans@.len() - i,
    {
        let p = spans[i];
        let ghost token = q@.subrange(p.start as int, p.end as int);
        let mut j: usize = sorted.len();
        while j > 0 && !span_le(q, sorted[j - 1], p)
            invariant
                j <= sorted@.len(),
                p.start <= p.end <= q@.len(),
                token == q@.subrange(p.start as int, p.end as int),
                spans_within(sorted@, q@.len() as int),
                forall|k: int|
                    j <= k < sorted@.len() ==> !lex_le(
                        #[trigger] span_pieces(q@, sorted@)[k],
                        token,
                    ),
            decreases j,
        {
            j -= 1;
        }
        proof {
            let before = span_pieces(q@, sorted@);
            if j > 0 {
                assert(lex_le(before[j - 1], token));
            }
            lemma_insert_at(before, token, j as int);
            assert(span_pieces(q@, sorted@.insert(j as int, p)) =~= before.insert(
                j as int,
                token,
            ));
            let done = span_pieces(q@, spans@.take(i + 1));
            assert(done.drop_last() =~= span_pieces(q@, spans@.take(i as int)));
            assert(done.last() == token);
        }
        sorted.insert(j, p);
        i += 1;
    }
    proof {
        assert(spans@.take(i as int) == spans@);
    }
    sorted
}

/// Puts a query string into canonical form: splits it at `&`, sorts the
/// tokens in lexicographic order of the whole token, and joins them with
/// `&` again. No token is changed.
pub fn sort_query_string(query: &str) -> (r: String)
    ensures
        r@ == canonical_query(query@),
{
    let q = chars_of(query);
    if q.len() == 0 {
        return String::new();
    }
    let spans = split_spans(q.as_slice(), '&');
    let sorted = sort_spans(q.as_slice(), &spans);
    let mut out = String::new();
    let mut i: usize = 0;
    proof {
        assert(span_pieces(q@, sorted@).take(0) =~= Seq::<Seq<char>>::empty());
    }
    while i < sorted.len()
        invariant
            i <= sorted@.len(),
            spans_within(sorted@, q@.len() as int),
            out@ == join_tokens(span_pieces(q@, sorted@).take(i as int)),
        decreases sorted@.len() - i,
    {
        let sp = sorted[i];
        proof {
            let all = span_pieces(q@, sorted@);
            assert(all.take(i + 1).drop_last() =~= all.take(i as int));
            assert(all.take(i + 1).last() == q@.subrange(sp.start as int, sp.end as int));
            assert(all.take(i + 1).len() == i + 1);
            if i == 0 {
                assert(join_tokens(all.take(0)) =~= Seq::<char>::empty());
            }
        }
        let ghost prev = out@;
        if i > 0 {
            out.push('&');
        }
        push_chars(&mut out, q.as_slice(), sp.start, sp.end);
        proof {
            let token = q@.subrange(sp.start as int, sp.end as int);
            if i > 0 {
                assert(out@ =~= prev + seq!['&'] + token);
            } else {
                assert(out@ =~= token);
                assert(span_pieces(q@, sorted@).take(1)[0] == token);
            }
        }
        i += 1;
    }
    proof {
        assert(span_pieces(q@, sorted@).take(i as int) == span_pieces(q@, sorted@));
    }
    out
}

/// A signed request: the URL to fetch, and the headers to send with it, in
/// the order of their names.
#[derive(Debug)]
pub struct AWSSignedRequest {
    pub url: String,
    pub headers: Vec<(String, String)>,
}

/// The mathematical value of an [`AWSSignedRequest`].
pub ghost struct AWSSignedRequestView {
    pub url: Seq<char>,
    pub headers: Seq<(Seq<char>, Seq<char>)>,
}

impl View for AWSSignedRequest {
    type V = AWSSignedRequestView;

    open spec fn view(&self) -> AWSSignedRequestView {
        AWSSignedRequestView { url: self.url@, headers: self.headers.deep_view() }
    }
}

impl DeepView for AWSSignedRequest {
    type V = AWSSignedRequestView;

    open spec fn deep_view(&self) -> AWSSignedRequestView {
        self@
    }
}

/// What a request is signed from.
pub ghost struct SigningInputs {
    pub method: Seq<char>,
    pub host: Seq<char>,
    pub path: Seq<char>,
    pub query: Seq<char>,
    pub region: Seq<char>,
    pub service: Seq<char>,
    pub access_key: Seq<char>,
    pub secret_key: Seq<char>,
    pub payload: Seq<u8>,
    pub session_token: Seq<char>,
}

/// The date scope of a timestamp: its first eight characters.
pub open spec fn date_of(timestamp: Seq<char>) -> Seq<char> {
    timestamp.take(8)
}

/// The canonical URI of a path: percent-encoded with slashes kept; `/` for
/// the empty path.
pub open spec fn canonical_uri(path: Seq<char>) -> Seq<char> {
    if path.len() == 0 {
        seq!['/']
    } else {
        uri_encoded(encode_utf8(path), false)
    }
}

/// The canonical headers: `host`, `x-amz-content-sha256`, `x-amz-date`, and
/// `x-amz-security-token` where there is a session token; one line each.
pub open spec fn canonical_headers(
    host: Seq<char>,
    payload_hash: Seq<char>,
    timestamp: Seq<char>,
    session_token: Seq<char>,
) -> Seq<char> {
    let base = "host:"@ + host + seq!['\n'] + "x-amz-content-sha256:"@ + payload_hash + seq!['\n']
        + "x-amz-date:"@ + timestamp + seq!['\n'];
    if session_token.len() == 0 {
        base
    } else {
        base + "x-amz-security-token:"@ + session_token + seq!['\n']
    }
}

/// The names of the signed headers, separated by semicolons.
pub open spec fn signed_header_names(session_token: Seq<char>) -> Seq<char> {
    if session_token.len() == 0 {
        "host;x-amz-content-sha256;x-amz-date"@
    } else {
        "host;x-amz-content-sha256;x-amz-date"@ + ";x-amz-security-token"@
    }
}

/// The lines of a canonical request: method, URI, query, headers, header
/// names and payload hash.
pub open spec fn canonical_request_text(
    method: Seq<char>,
    uri: Seq<char>,
    query: Seq<char>,
    headers: Seq<char>,
    names: Seq<char>,
    payload_hash: Seq<char>,
) -> Seq<char> {
    method + seq!['\n'] + uri + seq!['\n'] + query + seq!['\n'] + headers + seq!['\n'] + names
        + seq!['\n'] + payload_hash
}

/// The canonical request of the inputs.
pub open spec fn canonical_request(timestamp: Seq<char>, i: SigningInputs) -> Seq<char> {
    let payload_hash = hex(sha256_digest(i.payload));
    canonical_request_text(
        i.method,
        canonical_uri(i.path),
        canonical_query(i.query),
        canonical_headers(i.host, payload_hash, timestamp, i.session_token),
        signed_header_names(i.session_token),
        payload_hash,
    )
}

/// The credential scope: date, region, service and the fixed terminator.
pub open spec fn credential_scope(date: Seq<char>, region: Seq<char>, service: Seq<char>) -> Seq<
    char,
> {
    date + seq!['/'] + region + seq!['/'] + service + "/aws4_request"@
}

/// The lines of a string to sign: algorithm, timestamp, scope and the hash of
/// the canonical request in hexadecimal.
pub open spec fn string_to_sign_text(
    timestamp: Seq<char>,
    scope: Seq<char>,
    request_hash: Seq<char>,
) -> Seq<char> {
    "AWS4-HMAC-SHA256"@ + seq!['\n'] + timestamp + seq!['\n'] + scope + seq!['\n'] + request_hash
}

/// The string to sign for a canonical request.
pub open spec fn string_to_sign(timestamp: Seq<char>, scope: Seq<char>, request: Seq<char>) -> Seq<
    char,
> {
    string_to_sign_text(timestamp, scope, hex(sha256_digest(encode_utf8(request))))
}

/// The signing key: the secret, prefixed with `AWS4`, chained through HMAC
/// with the date, the region, the service and `aws4_request`.
pub open spec fn signing_key(
    secret_key: Seq<char>,
    date: Seq<char>,
    region: Seq<char>,
    service: Seq<char>,
) -> Seq<u8> {
    let k_date = hmac_sha256(encode_utf8("AWS4"@ + secret_key), encode_utf8(date));
    let k_region = hmac_sha256(k_date, encode_utf8(region));
    let k_service = hmac_sha256(k_region, encode_utf8(service));
    hmac_sha256(k_service, encode_utf8("aws4_request"@))
}

/// The signature of a string to sign under the key of the given scope.
pub open spec fn text_signature(
    secret_key: Seq<char>,
    date: Seq<char>,
    region: Seq<char>,
    service: Seq<char>,
    to_sign: Seq<char>,
) -> Seq<char> {
    hex(hmac_sha256(signing_key(secret_key, date, region, service), encode_utf8(to_sign)))
}

/// The signature of a request, in hexadecimal.
pub open spec fn request_signature(timestamp: Seq<char>, i: SigningInputs) -> Seq<char> {
    let date = date_of(timestamp);
    let scope = credential_scope(date, i.region, i.service);
    text_signature(
        i.secret_key,
        date,
        i.region,
        i.service,
        string_to_sign(timestamp, scope, canonical_request(timestamp, i)),
    )
}

/// The text of an `Authorization` header.
pub open spec fn authorization_text(
    access_key: Seq<char>,
    scope: Seq<char>,
    names: Seq<char>,
    signature: Seq<char>,
) -> Seq<char> {
    "AWS4-HMAC-SHA256"@ + " Credential="@ + access_key + seq!['/'] + scope + ", SignedHeaders="@
        + names + ", Signature="@ + signature
}

/// The value of the `Authorization` header of a request.
pub open spec fn authorization(timestamp: Seq<char>, i: SigningInputs) -> Seq<char> {
    authorization_text(
        i.access_key,
        credential_scope(date_of(timestamp), i.region, i.service),
        signed_header_names(i.session_token),
        request_signature(timestamp, i),
    )
}

/// A URL from its parts: scheme, host, URI, and the query behind `?` where it
/// is not empty.
pub open spec fn url_text(host: Seq<char>, uri: Seq<char>, query: Seq<char>) -> Seq<char> {
    let base = "https://"@ + host + uri;
    if query.len() == 0 {
        base
    } else {
        base + seq!['?'] + query
    }
}

/// The URL of the request.
pub open spec fn request_url(i: SigningInputs) -> Seq<char> {
    url_text(i.host, canonical_uri(i.path), canonical_query(i.query))
}

/// The headers of a signed request, in the order of their names.
pub open spec fn header_list(
    authorization: Seq<char>,
    host: Seq<char>,
    payload_hash: Seq<char>,
    timestamp: Seq<char>,
    session_token: Seq<char>,
) -> Seq<(Seq<char>, Seq<char>)> {
    let base = seq![
        ("Authorization"@, authorization),
        ("Host"@, host),
        ("x-amz-content-sha256"@, payload_hash),
        ("x-amz-date"@, timestamp),
    ];
    if session_token.len() == 0 {
        base
    } else {
        base.push(("x-amz-security-token"@, session_token))
    }
}

/// The headers of the signed request.
pub open spec fn signed_headers(timestamp: Seq<char>, i: SigningInputs) -> Seq<
    (Seq<char>, Seq<char>),
> {
    header_list(
        authorization(timestamp, i),
        i.host,
        hex(sha256_digest(i.payload)),
        timestamp,
        i.session_token,
    )
}

/// A byte string short enough to be hashed.
pub open spec fn hashable(bytes: Seq<u8>) -> bool {
    bytes.len() < HASH_INPUT_LIMIT
}

/// The texts of a signing key and a string to sign are short enough to be
/// hashed.
pub open spec fn text_signable(
    secret_key: Seq<char>,
    date: Seq<char>,
    region: Seq<char>,
    service: Seq<char>,
    to_sign: Seq<char>,
) -> bool {
    &&& hashable(encode_utf8("AWS4"@ + secret_key))
    &&& hashable(encode_utf8(date))
    &&& hashable(encode_utf8(region))
    &&& hashable(encode_utf8(service))
    &&& hashable(encode_utf8("aws4_request"@))
    &&& hashable(encode_utf8(to_sign))
}

/// Every text that signing hashes is short enough to be hashed.
pub open spec fn signable(timestamp: Seq<char>, i: SigningInputs) -> bool {
    let date = date_of(timestamp);
    let scope = credential_scope(date, i.region, i.service);
    &&& hashable(i.payload)
    &&& hashable(encode_utf8(canonical_request(timestamp, i)))
    &&& text_signable(
        i.secret_key,
        date,
        i.region,
        i.service,
        string_to_sign(timestamp, scope, canonical_request(timestamp, i)),
    )
}

/// The signed request for the given timestamp and inputs; `None` where a
/// text to hash is too long.
pub open spec fn signed_request(timestamp: Seq<char>, i: SigningInputs) -> Option<
    AWSSignedRequestView,
> {
    if signable(timestamp, i) {
        Some(
            AWSSignedRequestView { url: request_url(i), headers: signed_headers(timestamp, i) },
        )
    } else {
        None
    }
}

fn fits(bytes: &[u8]) -> (r: bool)
    ensures
        r == hashable(bytes@),
{
    (bytes.len() as u64) < HASH_INPUT_LIMIT
}

/// Computes the signature for a string to sign, or `None` where a text is
/// too long to hash.
fn sign_text(secret_key: &str, date: &str, region: &str, service: &str, to_sign: &str) -> (r:
    Option<String>)
    ensures
        r is Some <==> text_signable(secret_key@, date@, region@, service@, to_sign@),
        r matches Some(sig) ==> sig@ == text_signature(
            secret_key@,
            date@,
            region@,
            service@,
            to_sign@,
        ) && is_hex_digest(sig@),
{
    let mut k_secret = String::new();
    push_text(&mut k_secret, "AWS4");
    push_text(&mut k_secret, secret_key);
    assert(k_secret@ == "AWS4"@ + secret_key@);
    let terminator = "aws4_request";
    if !fits(k_secret.as_str().as_bytes()) || !fits(date.as_bytes()) || !fits(region.as_bytes())
        || !fits(service.as_bytes()) || !fits(terminator.as_bytes()) || !fits(to_sign.as_bytes()) {
        return None;
    }
    let k_date = hmac_sha256_raw(k_secret.as_str().as_bytes(), date.as_bytes());
    let k_region = hmac_sha256_raw(k_date.as_slice(), region.as_bytes());
    let k_service = hmac_sha256_raw(k_region.as_slice(), service.as_bytes());
    let k_signing = hmac_sha256_raw(k_service.as_slice(), terminator.as_bytes());
    let tag = hmac_sha256_raw(k_signing.as_slice(), to_sign.as_bytes());
    proof {
        lemma_hex_text(tag@);
    }
    Some(to_hex(tag.as_slice()))
}

fn build_canonical_uri(path: &str) -> (r: String)
    ensures
        r@ == canonical_uri(path@),
{
    if path.is_empty() {
        let mut u = String::new();
        u.push('/');
        assert(u@ =~= seq!['/']);
        u
    } else {
        uri_encode(path, false)
    }
}

fn build_canonical_headers(host: &str, payload_hash: &str, timestamp: &str, session_token: &str)
    -> (r: String)
    ensures
        r@ == canonical_headers(host@, payload_hash@, timestamp@, session_token@),
{
    let mut out = String::new();
    push_text(&mut out, "host:");
    push_text(&mut out, host);
    out.push('\n');
    push_text(&mut out, "x-amz-content-sha256:");
    push_text(&mut out, payload_hash);
    out.push('\n');
    push_text(&mut out, "x-amz-date:");
    push_text(&mut out, timestamp);
    out.push('\n');
    if !session_token.is_empty() {
        push_text(&mut out, "x-amz-security-token:");
        push_text(&mut out, session_token);
        out.push('\n');
    }
    assert(out@ =~= canonical_headers(host@, payload_hash@, timestamp@, session_token@));
    out
}

fn build_signed_header_names(session_token: &str) -> (r: String)
    ensures
        r@ == signed_header_names(session_token@),
{
    let mut names = String::new();
    push_text(&mut names, "host;x-amz-content-sha256;x-amz-date");
    if !session_token.is_empty() {
        push_text(&mut names, ";x-amz-security-token");
    }
    assert(names@ =~= signed_header_names(session_token@));
    names
}

fn build_canonical_request(
    method: &str,
    uri: &str,
    query: &str,
    headers: &str,
    names: &str,
    payload_hash: &str,
) -> (r: String)
    ensures
        r@ == canonical_request_text(method@, uri@, query@, headers@, names@, payload_hash@),
{
    let mut request = String::new();
    push_text(&mut request, method);
    request.push('\n');
    push_text(&mut request, uri);
    request.push('\n');
    push_text(&mut request, query);
    request.push('\n');
    push_text(&mut request, headers);
    request.push('\n');
    push_text(&mut request, names);
    request.push('\n');
    push_text(&mut request, payload_hash);
    assert(request@ =~= canonical_request_text(
        method@,
        uri@,
        query@,
        headers@,
        names@,
        payload_hash@,
    ));
    request
}

fn build_scope(date: &str, region: &str, service: &str) -> (r: String)
    ensures
        r@ == credential_scope(date@, region@, service@),
{
    let mut scope = String::new();
    push_text(&mut scope, date);
    scope.push('/');
    push_text(&mut scope, region);
    scope.push('/');
    push_text(&mut scope, service);
    push_text(&mut scope, "/aws4_request");
    assert(scope@ =~= credential_scope(date@, region@, service@));
    scope
}

fn build_string_to_sign(timestamp: &str, scope: &str, request_hash: &str) -> (r: String)
    ensures
        r@ == string_to_sign_text(timestamp@, scope@, request_hash@),
{
    let mut to_sign = String::new();
    push_text(&mut to_sign, "AWS4-HMAC-SHA256");
    to_sign.push('\n');
    push_text(&mut to_sign, timestamp);
    to_sign.push('\n');
    push_text(&mut to_sign, scope);
    to_sign.push('\n');
    push_text(&mut to_sign, request_hash);
    assert(to_sign@ =~= string_to_sign_text(timestamp@, scope@, request_hash@));
    to_sign
}

fn build_authorization(access_key: &str, scope: &str, names: &str, signature: &str) -> (r: String)
    ensures
        r@ == authorization_text(access_key@, scope@, names@, signature@),
{
    let mut auth = String::new();
    push_text(&mut auth, "AWS4-HMAC-SHA256");
    push_text(&mut auth, " Credential=");
    push_text(&mut auth, access_key);
    auth.push('/');
    push_text(&mut auth, scope);
    push_text(&mut auth, ", SignedHeaders=");
    push_text(&mut auth, names);
    push_text(&mut auth, ", Signature=");
    push_text(&mut auth, signature);
    assert(auth@ =~= authorization_text(access_key@, scope@, names@, signature@));
    auth
}

fn build_url(host: &str, uri: &str, query: &str) -> (r: String)
    ensures
        r@ == url_text(host@, uri@, query@),
{
    let mut url = String::new();
    push_text(&mut url, "https://");
    push_text(&mut url, host);
    push_text(&mut url, uri);
    if !query.is_empty() {
        url.push('?');
        push_text(&mut url, query);
    }
    assert(url@ =~= url_text(host@, uri@, query@));
    url
}

fn build_header_list(
    authorization: String,
    host: &str,
    payload_hash: String,
    timestamp: String,
    session_token: &str,
) -> (r: Vec<(String, String)>)
    ensures
        r.deep_view() == header_list(
            authorization@,
            host@,
            payload_hash@,
            timestamp@,
            session_token@,
        ),
{
    let mut headers: Vec<(String, String)> = Vec::new();
    headers.push((text_of("Authorization"), authorization));
    headers.push((text_of("Host"), text_of(host)));
    headers.push((text_of("x-amz-content-sha256"), payload_hash));
    headers.push((text_of("x-amz-date"), timestamp));
    if !session_token.is_empty() {
        headers.push((text_of("x-amz-security-token"), text_of(session_token)));
    }
    assert(headers.deep_view() =~= header_list(
        authorization@,
        host@,
        payload_hash@,
        timestamp@,
        session_token@,
    ));
    headers
}

/// Returns the date scope of a time: the first eight characters of its
/// timestamp.
fn date_scope(time: &CivilTime, timestamp: &str) -> (r: String)
    requires
        timestamp@ == time.text(),
    ensures
        r@ == date_of(timestamp@),
{
    let stamp = chars_of(timestamp);
    proof {
        crate::text::lemma_decimal_padded_len(time.year as nat, 4);
        crate::text::lemma_decimal_padded_len(time.month as nat, 2);
        crate::text::lemma_decimal_padded_len(time.day as nat, 2);
    }
    crate::text::string_of(stamp.as_slice(), 0, 8)
}

/// Signs a request for the given time with AWS Signature Version 4.
///
/// Returns the URL and the headers to send, or `None` where one of the texts
/// that signing hashes is too long to hash.
pub fn aws_sign_request_at(
    time: &CivilTime,
    method: &str,
    host: &str,
    path: &str,
    query: &str,
    region: &str,
    service: &str,
    access_key: &str,
    secret_key: &str,
    payload: &[u8],
    session_token: &str,
) -> (r: Option<AWSSignedRequest>)
    ensures
        r.deep_view() == signed_request(
            time.text(),
            (SigningInputs {
                method: method@,
                host: host@,
                path: path@,
                query: query@,
                region: region@,
                service: service@,
                access_key: access_key@,
                secret_key: secret_key@,
                payload: payload@,
                session_token: session_token@,
            }),
        ),
        r is Some ==> is_hex_digest(hex(sha256_digest(payload@))) && is_hex_digest(
            request_signature(
                time.text(),
                (SigningInputs {
                    method: method@,
                    host: host@,
                    path: path@,
                    query: query@,
                    region: region@,
                    service: service@,
                    access_key: access_key@,
                    secret_key: secret_key@,
                    payload: payload@,
                    session_token: session_token@,
                }),
            ),
        ),
{
    let timestamp = time.timestamp();
    let date = date_scope(time, timestamp.as_str());
    if !fits(payload) {
        return None;
    }
    let digest = sha256_raw(payload);
    proof {
        lemma_hex_text(digest@);
    }
    let payload_hash = to_hex(digest.as_slice());
    let uri = build_canonical_uri(path);
    let cquery = sort_query_string(query);
    let headers_text = build_canonical_headers(
        host,
        payload_hash.as_str(),
        timestamp.as_str(),
        session_token,
    );
    let names = build_signed_header_names(session_token);
    let request = build_canonical_request(
        method,
        uri.as_str(),
        cquery.as_str(),
        headers_text.as_str(),
        names.as_str(),
        payload_hash.as_str(),
    );
    if !fits(request.as_str().as_bytes()) {
        return None;
    }
    let request_hash = to_hex(sha256_raw(request.as_str().as_bytes()).as_slice());
    let scope = build_scope(date.as_str(), region, service);
    let to_sign = build_string_to_sign(timestamp.as_str(), scope.as_str(), request_hash.as_str());
    let signature = match sign_text(
        secret_key,
        date.as_str(),
        region,
        service,
        to_sign.as_str(),
    ) {
        Some(s) => s,
        None => {
            return None;
        },
    };
    let auth = build_authorization(access_key, scope.as_str(), names.as_str(), signature.as_str());
    let url = build_url(host, uri.as_str(), cquery.as_str());
    let headers = build_header_list(auth, host, payload_hash, timestamp, session_token);
    Some(AWSSignedRequest { url, headers })
}

/// Signs a request for the current time with AWS Signature Version 4.
///
/// The result is the one that [`aws_sign_request_at`] gives for some valid
/// time: which one depends on the clock.
pub fn aws_sign_request(
    method: &str,
    host: &str,
    path: &str,
    query: &str,
    region: &str,
    service: &str,
    access_key: &str,
    secret_key: &str,
    payload: &[u8],
    session_token: &str,
) -> (r: Option<AWSSignedRequest>)
    ensures
        exists|t: CivilTime|
            #[trigger] t.valid() && r.deep_view() == signed_request(
                t.text(),
                (SigningInputs {
                    method: method@,
                    host: host@,
                    path: path@,
                    query: query@,
                    region: region@,
                    service: service@,
                    access_key: access_key@,
                    secret_key: secret_key@,
                    payload: payload@,
                    session_token: session_token@,
                }),
            ) && (r is Some ==> is_hex_digest(
                request_signature(
                    t.text(),
                    (SigningInputs {
                        method: method@,
                        host: host@,
                        path: path@,
                        query: query@,
                        region: region@,
                        service: service@,
                        access_key: access_key@,
                        secret_key: secret_key@,
                        payload: payload@,
                        session_token: session_token@,
                    }),
                ),
            )),
        r is Some ==> is_hex_digest(hex(sha256_digest(payload@))),
{
    let t = civil_from_unix(unix_now());
    let r = aws_sign_request_at(
        &t,
        method,
        host,
        path,
        query,
        region,
        service,
        access_key,
        secret_key,
        payload,
        session_token,
    );
    assert(t.valid());
    r
}

/// Formats the current time as `YYYYMMDDTHHMMSSZ` in UTC.
pub fn get_timestamp() -> (r: String)
    ensures
        exists|t: CivilTime| #[trigger] t.valid() && r@ == t.text(),
{
    let t = civil_from_unix(unix_now());
    assert(t.valid());
    t.timestamp()
}

/// What a presigned download URL is made from.
pub ghost struct PresignInputs {
    pub bucket: Seq<char>,
    pub key: Seq<char>,
    pub region: Seq<char>,
    pub access_key: Seq<char>,
    pub secret_key: Seq<char>,
    pub session_token: Seq<char>,
    pub expires_seconds: int,
}

/// The virtual-hosted host name of a bucket in a region.
pub open spec fn bucket_host(bucket: Seq<char>, region: Seq<char>) -> Seq<char> {
    bucket + ".s3."@ + region + ".amazonaws.com"@
}

/// The path of an object in its bucket's URL space.
pub open spec fn object_uri(key: Seq<char>) -> Seq<char> {
    seq!['/'] + uri_encoded(encode_utf8(key), false)
}

/// The query of a presigned URL, before the signature: algorithm,
/// credential, date, lifetime, session token where there is one, and the
/// signed header names.
pub open spec fn presign_query_text(
    credential: Seq<char>,
    timestamp: Seq<char>,
    expires_seconds: int,
    session_token: Seq<char>,
) -> Seq<char> {
    let head = "X-Amz-Algorithm=AWS4-HMAC-SHA256"@ + "&X-Amz-Credential="@ + uri_encoded(
        encode_utf8(credential),
        true,
    ) + "&X-Amz-Date="@ + timestamp + "&X-Amz-Expires="@ + decimal_signed(expires_seconds);
    let token = if session_token.len() == 0 {
        Seq::<char>::empty()
    } else {
        "&X-Amz-Security-Token="@ + uri_encoded(encode_utf8(session_token), true)
    };
    head + token + "&X-Amz-SignedHeaders=host"@
}

/// The query of the presigned URL of the inputs.
pub open spec fn presign_query(timestamp: Seq<char>, i: PresignInputs) -> Seq<char> {
    let scope = credential_scope(date_of(timestamp), i.region, "s3"@);
    presign_query_text(
        i.access_key + seq!['/'] + scope,
        timestamp,
        i.expires_seconds,
        i.session_token,
    )
}

/// The lines of the canonical request of a presigned download: a `GET` with
/// the host as its only signed header and an unsigned payload.
pub open spec fn presign_request_text(uri: Seq<char>, query: Seq<char>, host: Seq<char>) -> Seq<
    char,
> {
    "GET"@ + seq!['\n'] + uri + seq!['\n'] + query + seq!['\n'] + "host:"@ + host + seq!['\n']
        + seq!['\n'] + "host"@ + seq!['\n'] + "UNSIGNED-PAYLOAD"@
}

/// The canonical request of a presigned download.
pub open spec fn presign_request(timestamp: Seq<char>, i: PresignInputs) -> Seq<char> {
    presign_request_text(
        object_uri(i.key),
        presign_query(timestamp, i),
        bucket_host(i.bucket, i.region),
    )
}

/// The string to sign of a presigned download.
pub open spec fn presign_string_to_sign(timestamp: Seq<char>, i: PresignInputs) -> Seq<char> {
    string_to_sign(
        timestamp,
        credential_scope(date_of(timestamp), i.region, "s3"@),
        presign_request(timestamp, i),
    )
}

/// Every text that presigning hashes is short enough to be hashed.
pub open spec fn presignable(timestamp: Seq<char>, i: PresignInputs) -> bool {
    &&& hashable(encode_utf8(presign_request(timestamp, i)))
    &&& text_signable(
        i.secret_key,
        date_of(timestamp),
        i.region,
        "s3"@,
        presign_string_to_sign(timestamp, i),
    )
}

/// A presigned URL from its parts.
pub open spec fn presigned_url_text(
    host: Seq<char>,
    uri: Seq<char>,
    query: Seq<char>,
    signature: Seq<char>,
) -> Seq<char> {
    "https://"@ + host + uri + seq!['?'] + query + "&X-Amz-Signature="@ + signature
}

/// The signature of a presigned URL, in hexadecimal.
pub open spec fn presign_signature(timestamp: Seq<char>, i: PresignInputs) -> Seq<char> {
    text_signature(
        i.secret_key,
        date_of(timestamp),
        i.region,
        "s3"@,
        presign_string_to_sign(timestamp, i),
    )
}

/// The presigned URL for the given timestamp and inputs; `None` where a text
/// to hash is too long.
pub open spec fn presigned_url(timestamp: Seq<char>, i: PresignInputs) -> Option<Seq<char>> {
    if presignable(timestamp, i) {
        Some(
            presigned_url_text(
                bucket_host(i.bucket, i.region),
                object_uri(i.key),
                presign_query(timestamp, i),
                presign_signature(timestamp, i),
            ),
        )
    } else {
        None
    }
}

fn build_bucket_host(bucket: &str, region: &str) -> (r: String)
    ensures
        r@ == bucket_host(bucket@, region@),
{
    let mut host = String::new();
    push_text(&mut host, bucket);
    push_text(&mut host, ".s3.");
    push_text(&mut host, region);
    push_text(&mut host, ".amazonaws.com");
    assert(host@ =~= bucket_host(bucket@, region@));
    host
}

fn build_object_uri(key: &str) -> (r: String)
    ensures
        r@ == object_uri(key@),
{
    let mut uri = String::new();
    uri.push('/');
    push_text(&mut uri, uri_encode(key, false).as_str());
    assert(uri@ =~= object_uri(key@));
    uri
}

fn build_presign_query(
    credential: &str,
    timestamp: &str,
    expires_seconds: i32,
    session_token: &str,
) -> (r: String)
    ensures
        r@ == presign_query_text(
            credential@,
            timestamp@,
            expires_seconds as int,
            session_token@,
        ),
{
    let mut query = String::new();
    push_text(&mut query, "X-Amz-Algorithm=AWS4-HMAC-SHA256");
    push_text(&mut query, "&X-Amz-Credential=");
    push_text(&mut query, url_encode(credential).as_str());
    push_text(&mut query, "&X-Amz-Date=");
    push_text(&mut query, timestamp);
    push_text(&mut query, "&X-Amz-Expires=");
    push_decimal_signed(&mut query, expires_seconds as i64);
    if !session_token.is_empty() {
        push_text(&mut query, "&X-Amz-Security-Token=");
        push_text(&mut query, url_encode(session_token).as_str());
    }
    push_text(&mut query, "&X-Amz-SignedHeaders=host");
    assert(query@ =~= presign_query_text(
        credential@,
        timestamp@,
        expires_seconds as int,
        session_token@,
    ));
    query
}

fn build_presign_request(uri: &str, query: &str, host: &str) -> (r: String)
    ensures
        r@ == presign_request_text(uri@, query@, host@),
{
    let mut request = String::new();
    push_text(&mut request, "GET");
    request.push('\n');
    push_text(&mut request, uri);
    request.push('\n');
    push_text(&mut request, query);
    request.push('\n');
    push_text(&mut request, "host:");
    push_text(&mut request, host);
    request.push('\n');
    request.push('\n');
    push_text(&mut request, "host");
    request.push('\n');
    push_text(&mut request, "UNSIGNED-PAYLOAD");
    assert(request@ =~= presign_request_text(uri@, query@, host@));
    request
}

fn build_presigned_url(host: &str, uri: &str, query: &str, signature: &str) -> (r: String)
    ensures
        r@ == presigned_url_text(host@, uri@, query@, signature@),
{
    let mut url = String::new();
    push_text(&mut url, "https://");
    push_text(&mut url, host);
    push_text(&mut url, uri);
    url.push('?');
    push_text(&mut url, query);
    push_text(&mut url, "&X-Amz-Signature=");
    push_text(&mut url, signature);
    assert(url@ =~= presigned_url_text(host@, uri@, query@, signature@));
    url
}

/// Generates a presigned URL for downloading an object, valid from the given
/// time for `expires_seconds`.
///
/// Returns `None` where one of the texts that signing hashes is too long to
/// hash.
pub fn aws_generate_presigned_url_at(
    time: &CivilTime,
    bucket: &str,
    key: &str,
    region: &str,
    access_key: &str,
    secret_key: &str,
    session_token: &str,
    expires_seconds: i32,
) -> (r: Option<String>)
    ensures
        r.deep_view() == presigned_url(
            time.text(),
            (PresignInputs {
                bucket: bucket@,
                key: key@,
                region: region@,
                access_key: access_key@,
                secret_key: secret_key@,
                session_token: session_token@,
                expires_seconds: expires_seconds as int,
            }),
        ),
        r is Some ==> is_hex_digest(
            presign_signature(
                time.text(),
                (PresignInputs {
                    bucket: bucket@,
                    key: key@,
                    region: region@,
                    access_key: access_key@,
                    secret_key: secret_key@,
                    session_token: session_token@,
                    expires_seconds: expires_seconds as int,
                }),
            ),
        ),
{
    let timestamp = time.timestamp();
    let date = date_scope(time, timestamp.as_str());
    let host = build_bucket_host(bucket, region);
    let uri = build_object_uri(key);
    let scope = build_scope(date.as_str(), region, "s3");
    let mut credential = String::new();
    push_text(&mut credential, access_key);
    credential.push('/');
    push_text(&mut credential, scope.as_str());
    assert(credential@ =~= access_key@ + seq!['/'] + scope@);
    let query = build_presign_query(
        credential.as_str(),
        timestamp.as_str(),
        expires_seconds,
        session_token,
    );
    let request = build_presign_request(uri.as_str(), query.as_str(), host.as_str());
    if !fits(request.as_str().as_bytes()) {
        return None;
    }
    let request_hash = to_hex(sha256_raw(request.as_str().as_bytes()).as_slice());
    let to_sign = build_string_to_sign(timestamp.as_str(), scope.as_str(), request_hash.as_str());
    let signature = match sign_text(secret_key, date.as_str(), region, "s3", to_sign.as_str()) {
        Some(s) => s,
        None => {
            return None;
        },
    };
    Some(build_presigned_url(host.as_str(), uri.as_str(), query.as_str(), signature.as_str()))
}

/// Generates a presigned URL for downloading an object, valid from now for
/// `expires_seconds`.
///
/// The result is the one that [`aws_generate_presigned_url_at`] gives for
/// some valid time: which one depends on the clock.
pub fn aws_generate_presigned_url(
    bucket: &str,
    key: &str,
    region: &str,
    access_key: &str,
    secret_key: &str,
    session_token: &str,
    expires_seconds: i32,
) -> (r: Option<String>)
    ensures
        exists|t: CivilTime|
            #[trigger] t.valid() && r.deep_view() == presigned_url(
                t.text(),
                (PresignInputs {
                    bucket: bucket@,
                    key: key@,
                    region: region@,
                    access_key: access_key@,
                    secret_key: secret_key@,
                    session_token: session_token@,
                    expires_seconds: expires_seconds as int,
                }),
            ) && (r is Some ==> is_hex_digest(
                presign_signature(
                    t.text(),
                    (PresignInputs {
                        bucket: bucket@,
                        key: key@,
                        region: region@,
                        access_key: access_key@,
                        secret_key: secret_key@,
                        session_token: session_token@,
                        expires_seconds: expires_seconds as int,
                    }),
                ),
            )),
{
    let t = civil_from_unix(unix_now());
    let r = aws_generate_presigned_url_at(
        &t,
        bucket,
        key,
        region,
        access_key,
        secret_key,
        session_token,
        expires_seconds,
    );
    assert(t.valid());
    r
}

/// Signing is a function of the timestamp and the inputs: two results for
/// the same timestamp and inputs have the same URL and the same headers.
pub proof fn lemma_signing_is_deterministic(
    timestamp: Seq<char>,
    inputs: SigningInputs,
    first: Option<AWSSignedRequestView>,
    second: Option<AWSSignedRequestView>,
)
    requires
        first == signed_request(timestamp, inputs),
        second == signed_request(timestamp, inputs),
    ensures
        first == second,
        first matches Some(a) ==> second matches Some(b) && a.url == b.url && a.headers
            == b.headers,
{
}

} // verus!
