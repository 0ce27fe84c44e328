//! Character-level helpers shared by the parsers, the signer and the model.
//!
//! Text is modelled as `Seq<char>`. Executable code converts a `&str` to a
//! `Vec<char>` once, searches in that vector, and builds result strings
//! character by character.

use vstd::prelude::*;
use vstd::string::StringExecFns;

verus! {

/// `String::push` appends exactly one character to the end of the string.
pub assume_specification[ String::push ](s: &mut String, ch: char)
    ensures
        final(s)@ == old(s)@.push(ch),
;

/// What `str::to_lowercase` returns for a string with the given characters:
/// the Unicode lowercase mapping, which is a function of the characters alone.
pub uninterp spec fn unicode_lowercase(s: Seq<char>) -> Seq<char>;

/// Calls `str::to_lowercase`. The result is named, not described: the Unicode
/// tables that define it are not restated here.
#[verifier::external_body]
pub(crate) fn to_lowercase(s: &str) -> (r: String)
    ensures
        r@ == unicode_lowercase(s@),
{
    s.to_lowercase()
}

/// What `String::from_utf8_lossy` yields for the given bytes: the decoded
/// characters, with each invalid sequence replaced by U+FFFD.
pub uninterp spec fn utf8_lossy(bytes: Seq<u8>) -> Seq<char>;

/// Calls `String::from_utf8_lossy` and takes ownership of the result.
#[verifier::external_body]
pub(crate) fn decode_utf8_lossy(bytes: &[u8]) -> (r: String)
    ensures
        r@ == utf8_lossy(bytes@),
{
    String::from_utf8_lossy(bytes).into_owned()
}

/// Copies the characters of `s` into a vector, one element per character.
pub fn chars_of(s: &str) -> (v: Vec<char>)
    ensures
        v@ == s@,
{
    broadcast use vstd::string::group_string_axioms;

    let mut v: Vec<char> = Vec::new();
    for c in it: s.chars()
        invariant
            it.seq() == s@,
            v@ == it.seq().take(it.index()),
    {
        v.push(c);
    }
    v
}

/// Builds a string from `chars[start..end]`.
pub fn string_of(chars: &[char], start: usize, end: usize) -> (s: String)
    requires
        start <= end <= chars@.len(),
    ensures
        s@ == chars@.subrange(start as int, end as int),
{
    let mut s = String::new();
    let mut i: usize = start;
    while i < end
        invariant
            start <= i <= end <= chars@.len(),
            s@ == chars@.subrange(start as int, i as int),
        decreases end - i,
    {
        s.push(chars[i]);
        i += 1;
    }
    s
}

/// Appends `chars[start..end]` to `out`.
pub fn push_chars(out: &mut String, chars: &[char], start: usize, end: usize)
    requires
        start <= end <= chars@.len(),
    ensures
        final(out)@ == old(out)@ + chars@.subrange(start as int, end as int),
{
    let mut i: usize = start;
    while i < end
        invariant
            start <= i <= end <= chars@.len(),
            out@ == old(out)@ + chars@.subrange(start as int, i as int),
        decreases end - i,
    {
        out.push(chars[i]);
        i += 1;
    }
}

/// `needle` stands in `hay` at index `i`.
pub open spec fn occurs_at(hay: Seq<char>, needle: Seq<char>, i: int) -> bool {
    &&& 0 <= i
    &&& i + needle.len() <= hay.len()
    &&& hay.subrange(i, i + needle.len()) == needle
}

/// The least index at or after `from` at which `needle` occurs in `hay`.
pub open spec fn find_from(hay: Seq<char>, needle: Seq<char>, from: int) -> Option<int>
    decreases hay.len() - from + 1,
{
    if from < 0 || from + needle.len() > hay.len() {
        None
    } else if occurs_at(hay, needle, from) {
        Some(from)
    } else {
        find_from(hay, needle, from + 1)
    }
}

/// `find_from` returns the first occurrence at or after `from`, and `None`
/// exactly when there is none.
pub proof fn lemma_find_from(hay: Seq<char>, needle: Seq<char>, from: int)
    requires
        0 <= from,
    ensures
        match find_from(hay, needle, from) {
            Some(i) => {
                &&& from <= i
                &&& occurs_at(hay, needle, i)
                &&& forall|j: int| from <= j < i ==> !occurs_at(hay, needle, j)
            },
            None => forall|j: int| from <= j ==> !occurs_at(hay, needle, j),
        },
    decreases hay.len() - from + 1,
{
    if from + needle.len() > hay.len() {
    } else if occurs_at(hay, needle, from) {
    } else {
        lemma_find_from(hay, needle, from + 1);
    }
}

/// Tests whether `needle` stands in `hay` at index `i`.
pub fn occurs_at_index(hay: &[char], needle: &[char], i: usize) -> (r: bool)
    ensures
        r == occurs_at(hay@, needle@, i as int),
{
    let n = needle.len();
    if i > hay.len() || n > hay.len() - i {
        return false;
    }
    let mut k: usize = 0;
    while k < n
        invariant
            n == needle@.len(),
            i + n <= hay@.len() <= usize::MAX,
            k <= n,
            hay@.subrange(i as int, i + k) == needle@.take(k as int),
        decreases n - k,
    {
        if hay[i + k] != needle[k] {
            proof {
                let w = hay@.subrange(i as int, i + n);
                assert(w[k as int] != needle@[k as int]);
            }
            return false;
        }
        proof {
            assert(hay@.subrange(i as int, i + k + 1) == hay@.subrange(i as int, i + k).push(
                hay@[i + k],
            ));
            assert(needle@.take(k + 1) == needle@.take(k as int).push(needle@[k as int]));
        }
        k += 1;
    }
    proof {
        assert(needle@.take(n as int) == needle@);
    }
    true
}

/// Finds the first occurrence of `needle` in `hay` at or after `from`.
pub fn find(hay: &[char], needle: &[char], from: usize) -> (r: Option<usize>)
    ensures
        match r {
            Some(i) => find_from(hay@, needle@, from as int) == Some(i as int),
            None => find_from(hay@, needle@, from as int) is None,
        },
{
    let n = needle.len();
    if n > hay.len() || from > hay.len() - n {
        return None;
    }
    if n == 0 {
        proof {
            assert(hay@.subrange(from as int, from as int) == needle@);
        }
        return Some(from);
    }
    let last = hay.len() - n;
    let mut i: usize = from;
    while i <= last
        invariant
            n == needle@.len(),
            0 < n,
            last == hay@.len() - n,
            hay@.len() <= usize::MAX,
            from <= i <= last + 1,
            find_from(hay@, needle@, from as int) == find_from(hay@, needle@, i as int),
        decreases last + 1 - i,
    {
        if occurs_at_index(hay, needle, i) {
            return Some(i);
        }
        i += 1;
    }
    None
}

/// The greatest index below `end` at which `c` stands in `s`.
pub open spec fn rfind_char_before(s: Seq<char>, c: char, end: int) -> Option<int>
    decreases end,
{
    if end <= 0 || end > s.len() {
        None
    } else if s[end - 1] == c {
        Some(end - 1)
    } else {
        rfind_char_before(s, c, end - 1)
    }
}

/// The last index at which `c` stands in `s`.
pub open spec fn rfind_char(s: Seq<char>, c: char) -> Option<int> {
    rfind_char_before(s, c, s.len() as int)
}

/// `rfind_char_before` returns the last occurrence below `end`, and `None`
/// exactly when `c` does not occur there.
pub proof fn lemma_rfind_char_before(s: Seq<char>, c: char, end: int)
    requires
        0 <= end <= s.len(),
    ensures
        match rfind_char_before(s, c, end) {
            Some(i) => {
                &&& 0 <= i < end
                &&& s[i] == c
                &&& forall|j: int| i < j < end ==> s[j] != c
            },
            None => forall|j: int| 0 <= j < end ==> s[j] != c,
        },
    decreases end,
{
    if end > 0 && s[end - 1] != c {
        lemma_rfind_char_before(s, c, end - 1);
    }
}

/// Searching below `end` looks only at the first `end` characters.
pub proof fn lemma_rfind_char_prefix(s: Seq<char>, c: char, end: int)
    requires
        0 <= end <= s.len(),
    ensures
        rfind_char(s.take(end), c) == rfind_char_before(s, c, end),
{
    lemma_rfind_char_take(s, c, end, end);
}

/// The last occurrence before `end` is the same in a prefix that reaches to
/// `end` or beyond.
proof fn lemma_rfind_char_take(s: Seq<char>, c: char, n: int, end: int)
    requires
        0 <= end <= n <= s.len(),
    ensures
        rfind_char_before(s.take(n), c, end) == rfind_char_before(s, c, end),
    decreases end,
{
    if end > 0 && s[end - 1] != c {
        lemma_rfind_char_take(s, c, n, end - 1);
    }
}

/// Finds the last occurrence of `c` in `s[..end]`.
pub fn rfind_char_in(s: &[char], c: char, end: usize) -> (r: Option<usize>)
    requires
        end <= s@.len(),
    ensures
        match r {
            Some(i) => rfind_char_before(s@, c, end as int) == Some(i as int) && i < end,
            None => rfind_char_before(s@, c, end as int) is None,
        },
{
    let mut e: usize = end;
    while e > 0
        invariant
            e <= end <= s@.len(),
            rfind_char_before(s@, c, end as int) == rfind_char_before(s@, c, e as int),
        decreases e,
    {
        if s[e - 1] == c {
            return Some(e - 1);
        }
        e -= 1;
    }
    None
}

/// The least index at or after `from` at which `c` stands in `s`.
pub open spec fn find_char_from(s: Seq<char>, c: char, from: int) -> Option<int>
    decreases s.len() - from,
{
    if from < 0 || from >= s.len() {
        None
    } else if s[from] == c {
        Some(from)
    } else {
        find_char_from(s, c, from + 1)
    }
}

/// `find_char_from` returns the first occurrence at or after `from`.
pub proof fn lemma_find_char_from(s: Seq<char>, c: char, from: int)
    requires
        0 <= from,
    ensures
        match find_char_from(s, c, from) {
            Some(i) => {
                &&& from <= i < s.len()
                &&& s[i] == c
                &&& forall|j: int| from <= j < i ==> s[j] != c
            },
            None => forall|j: int| from <= j < s.len() ==> s[j] != c,
        },
    decreases s.len() - from,
{
    if from < s.len() && s[from] != c {
        lemma_find_char_from(s, c, from + 1);
    }
}

/// Finds the first occurrence of `c` in `s` at or after `from`.
pub fn find_char(s: &[char], c: char, from: usize) -> (r: Option<usize>)
    ensures
        match r {
            Some(i) => find_char_from(s@, c, from as int) == Some(i as int) && from <= i < s@.len(),
            None => find_char_from(s@, c, from as int) is None,
        },
{
    let mut i: usize = from;
    while i < s.len()
        invariant
            from <= i,
            find_char_from(s@, c, from as int) == find_char_from(s@, c, i as int),
        decreases s@.len() - i,
    {
        if s[i] == c {
            return Some(i);
        }
        i += 1;
    }
    None
}

/// Tests whether the text of `a[start..end]` equals that of `lit`.
pub fn range_equals(a: &[char], start: usize, end: usize, lit: &str) -> (r: bool)
    requires
        start <= end <= a@.len(),
    ensures
        r == (a@.subrange(start as int, end as int) == lit@),
{
    let b = chars_of(lit);
    if b.len() != end - start {
        return false;
    }
    let r = occurs_at_index(a, b.as_slice(), start);
    r
}

/// Tests whether two strings hold the same characters.
pub fn str_equals(a: &str, b: &str) -> (r: bool)
    ensures
        r == (a@ == b@),
{
    let x = chars_of(a);
    let n = x.len();
    let r = range_equals(x.as_slice(), 0, n, b);
    proof {
        assert(x@.subrange(0, n as int) == x@);
    }
    r
}

/// Tests whether `s` ends with the text of `suffix`.
pub fn ends_with(s: &[char], suffix: &str) -> (r: bool)
    ensures
        r == suffix@.is_suffix_of(s@),
{
    let b = chars_of(suffix);
    if b.len() > s.len() {
        return false;
    }
    let at = s.len() - b.len();
    let r = occurs_at_index(s, b.as_slice(), at);
    proof {
        assert(s@.subrange(at as int, at + b@.len()) == s@.skip(at as int));
    }
    r
}

/// Tests whether `s[from..]` begins with the text of `prefix`.
pub fn starts_with_at(s: &[char], from: usize, prefix: &str) -> (r: bool)
    ensures
        r == occurs_at(s@, prefix@, from as int),
{
    let b = chars_of(prefix);
    occurs_at_index(s, b.as_slice(), from)
}

/// The decimal digit for `d`.
pub open spec fn digit_char(d: int) -> char
    recommends
        0 <= d <= 9,
{
    (('0' as u8) + d) as u8 as char
}

/// The decimal representation of `n`, without leading zeros (`"0"` for zero).
pub open spec fn decimal(n: nat) -> Seq<char>
    decreases n,
{
    if n < 10 {
        seq![digit_char(n as int)]
    } else {
        decimal(n / 10).push(digit_char((n % 10) as int))
    }
}

/// The decimal representation of `n`, padded with zeros on the left to at
/// least `width` characters.
pub open spec fn decimal_padded(n: nat, width: nat) -> Seq<char> {
    let d = decimal(n);
    if d.len() >= width {
        d
    } else {
        Seq::new((width - d.len()) as nat, |i: int| '0') + d
    }
}

/// The decimal representation of a signed integer: a minus sign before the
/// digits of a negative number.
pub open spec fn decimal_signed(n: int) -> Seq<char> {
    if n < 0 {
        seq!['-'] + decimal((-n) as nat)
    } else {
        decimal(n as nat)
    }
}

/// A decimal representation has at most twenty digits for a 64-bit number.
pub proof fn lemma_decimal_len(n: nat)
    ensures
        1 <= decimal(n).len(),
        n <= u64::MAX ==> decimal(n).len() <= 20,
{
    reveal_with_fuel(decimal, 21);
}

/// A padded representation is at least as long as its width.
pub proof fn lemma_decimal_padded_len(n: nat, width: nat)
    ensures
        decimal_padded(n, width).len() >= width,
        decimal_padded(n, width).len() >= 1,
{
    lemma_decimal_len(n);
}

/// Returns the digits of `n`, most significant first.
pub fn decimal_digits(n: u64) -> (v: Vec<char>)
    ensures
        v@ == decimal(n as nat),
{
    let mut rev: Vec<char> = Vec::new();
    let mut m: u64 = n;
    while m >= 10
        invariant
            decimal(n as nat) == decimal(m as nat) + rev@.reverse(),
        decreases m,
    {
        let d: u8 = (m % 10) as u8;
        let c: char = (48u8 + d) as char;
        proof {
            let r2 = rev@.push(c);
            assert(r2.reverse() == seq![c] + rev@.reverse());
            assert(decimal(m as nat) == decimal((m / 10) as nat).push(c));
            assert(decimal((m / 10) as nat).push(c) + rev@.reverse() == decimal((m / 10) as nat)
                + r2.reverse());
        }
        rev.push(c);
        m = m / 10;
    }
    let d: u8 = m as u8;
    let c: char = (48u8 + d) as char;
    let mut v: Vec<char> = Vec::new();
    v.push(c);
    let mut i: usize = rev.len();
    while i > 0
        invariant
            i <= rev@.len(),
            v@ == seq![c] + rev@.reverse().take(rev@.len() - i),
        decreases i,
    {
        i -= 1;
        proof {
            let k = rev@.len() - i - 1;
            assert(rev@.reverse().take(k + 1) == rev@.reverse().take(k).push(rev@[i as int]));
        }
        v.push(rev[i]);
    }
    proof {
        assert(rev@.reverse().take(rev@.len() as int) == rev@.reverse());
    }
    v
}

/// Appends the decimal representation of `n` to `out`.
pub fn push_decimal(out: &mut String, n: u64)
    ensures
        final(out)@ == old(out)@ + decimal(n as nat),
{
    let d = decimal_digits(n);
    let len = d.len();
    push_chars(out, d.as_slice(), 0, len);
    proof {
        assert(d@.subrange(0, len as int) == d@);
    }
}

/// Appends the decimal representation of `n` to `out`, padded with zeros on
/// the left to at least `width` characters.
pub fn push_decimal_padded(out: &mut String, n: u64, width: usize)
    ensures
        final(out)@ == old(out)@ + decimal_padded(n as nat, width as nat),
{
    let d = decimal_digits(n);
    let len = d.len();
    let mut k: usize = len;
    while k < width
        invariant
            len <= k,
            len < width ==> k <= width,
            len >= width ==> k == len,
            len == d@.len(),
            out@ == old(out)@ + Seq::new((k - len) as nat, |i: int| '0'),
        decreases width - k,
    {
        proof {
            assert(Seq::new((k + 1 - len) as nat, |i: int| '0') == Seq::new(
                (k - len) as nat,
                |i: int| '0',
            ).push('0'));
        }
        out.push('0');
        k += 1;
    }
    push_chars(out, d.as_slice(), 0, len);
    proof {
        let zeros = Seq::new((k - len) as nat, |i: int| '0');
        assert(d@.subrange(0, len as int) == d@);
        assert((old(out)@ + zeros) + d@ == old(out)@ + (zeros + d@));
        if len >= width {
            assert(zeros + d@ == d@);
        }
    }
}

/// Appends the decimal representation of a signed integer to `out`.
pub fn push_decimal_signed(out: &mut String, n: i64)
    ensures
        final(out)@ == old(out)@ + decimal_signed(n as int),
{
    if n < 0 {
        out.push('-');
        let m: u64 = if n == i64::MIN {
            9223372036854775808u64
        } else {
            (-n) as u64
        };
        push_decimal(out, m);
        proof {
            assert((old(out)@.push('-')) + decimal(m as nat) == old(out)@ + (seq!['-'] + decimal(
                m as nat,
            )));
        }
    } else {
        push_decimal(out, n as u64);
    }
}

/// Whether `c` is one of the ten ASCII digits.
pub open spec fn is_digit(c: char) -> bool {
    48 <= c as u32 <= 57
}

/// Whether every character of `s` is an ASCII digit.
pub open spec fn all_digits(s: Seq<char>) -> bool {
    forall|i: int| 0 <= i < s.len() ==> is_digit(#[trigger] s[i])
}

/// The number that a string of digits denotes in base ten.
pub open spec fn digits_value(s: Seq<char>) -> nat
    decreases s.len(),
{
    if s.len() == 0 {
        0
    } else {
        (digits_value(s.drop_last()) * 10 + (s.last() as u32 - 48)) as nat
    }
}

/// The value of a prefix of a digit string is at most the value of the whole.
pub proof fn lemma_digits_value_prefix(s: Seq<char>, k: int)
    requires
        all_digits(s),
        0 <= k <= s.len(),
    ensures
        digits_value(s.take(k)) <= digits_value(s),
    decreases s.len() - k,
{
    if k == s.len() {
        assert(s.take(k) == s);
    } else {
        lemma_digits_value_prefix(s, k + 1);
        assert(s.take(k + 1).drop_last() == s.take(k));
        assert(is_digit(s[k]));
    }
}

/// The number that `s` denotes as an unsigned decimal: an optional `+`, then
/// one or more digits; `None` for any other text, and for a value above `max`.
pub open spec fn parsed_unsigned(s: Seq<char>, max: nat) -> Option<nat> {
    let d = if s.len() > 0 && s[0] == '+' {
        s.skip(1)
    } else {
        s
    };
    if d.len() > 0 && all_digits(d) && digits_value(d) <= max {
        Some(digits_value(d))
    } else {
        None
    }
}

/// The number that `s` denotes as a signed 64-bit decimal: an optional sign,
/// then one or more digits; `None` for any other text, and for a value out of
/// range.
pub open spec fn parsed_i64(s: Seq<char>) -> Option<int> {
    if s.len() > 0 && s[0] == '-' {
        let d = s.skip(1);
        if d.len() > 0 && all_digits(d) && digits_value(d) <= 0x8000_0000_0000_0000 {
            Some(-(digits_value(d) as int))
        } else {
            None
        }
    } else {
        match parsed_unsigned(s, 0x7fff_ffff_ffff_ffff) {
            Some(n) => Some(n as int),
            None => None,
        }
    }
}

/// Reads `s[start..]` as a string of digits with a value of at most `max`.
pub fn parse_digits(s: &[char], start: usize, max: u64) -> (r: Option<u64>)
    requires
        start <= s@.len(),
    ensures
        r matches Some(n) ==> all_digits(s@.skip(start as int)) && s@.len() > start && n
            == digits_value(s@.skip(start as int)) && n <= max,
        r is None ==> !(s@.len() > start && all_digits(s@.skip(start as int)) && digits_value(
            s@.skip(start as int),
        ) <= max),
{
    let n = s.len();
    if start >= n {
        return None;
    }
    let ghost d = s@.skip(start as int);
    let mut acc: u64 = 0;
    let mut i: usize = start;
    while i < n
        invariant
            start <= i <= n,
            n == s@.len(),
            d == s@.skip(start as int),
            all_digits(d.take(i - start)),
            acc == digits_value(d.take(i - start)),
            acc <= max,
        decreases n - i,
    {
        let c = s[i];
        let code = c as u32;
        if code < 48 || code > 57 {
            proof {
                assert(d[i - start] == c);
                assert(!is_digit(d[i - start]));
            }
            return None;
        }
        let digit: u128 = (code - 48) as u128;
        let next: u128 = (acc as u128) * 10 + digit;
        proof {
            let p = d.take(i - start + 1);
            assert(p.drop_last() == d.take(i - start));
            assert(p.last() == c);
            assert(digits_value(p) == next);
            assert forall|j: int| 0 <= j < p.len() implies is_digit(#[trigger] p[j]) by {
                if j < p.len() - 1 {
                    assert(d.take(i - start)[j] == p[j]);
                }
            }
        }
        if next > max as u128 {
            proof {
                if all_digits(d) {
                    lemma_digits_value_prefix(d, i - start + 1);
                }
            }
            return None;
        }
        acc = next as u64;
        i += 1;
    }
    proof {
        assert(d.take(n - start) == d);
    }
    Some(acc)
}

/// Parses a signed 64-bit decimal number.
pub fn parse_i64(s: &[char]) -> (r: Option<i64>)
    ensures
        match r {
            Some(n) => parsed_i64(s@) == Some(n as int),
            None => parsed_i64(s@) is None,
        },
{
    if s.len() > 0 && s[0] == '-' {
        match parse_digits(s, 1, 0x8000_0000_0000_0000) {
            Some(n) => {
                if n == 0x8000_0000_0000_0000 {
                    Some(i64::MIN)
                } else {
                    Some(-(n as i64))
                }
            },
            None => None,
        }
    } else {
        let start: usize = if s.len() > 0 && s[0] == '+' {
            1
        } else {
            0
        };
        proof {
            assert(s@.skip(0) == s@);
        }
        match parse_digits(s, start, 0x7fff_ffff_ffff_ffff) {
            Some(n) => Some(n as i64),
            None => None,
        }
    }
}

/// Parses an unsigned decimal number that fits in `usize`.
pub fn parse_usize(s: &[char]) -> (r: Option<usize>)
    ensures
        match r {
            Some(n) => parsed_unsigned(s@, usize::MAX as nat) == Some(n as nat),
            None => parsed_unsigned(s@, usize::MAX as nat) is None,
        },
{
    let start: usize = if s.len() > 0 && s[0] == '+' {
        1
    } else {
        0
    };
    proof {
        assert(s@.skip(0) == s@);
    }
    match parse_digits(s, start, usize::MAX as u64) {
        Some(n) => Some(n as usize),
        None => None,
    }
}

/// Whether `c` has the Unicode property `White_Space`.
pub open spec fn is_white_space(c: char) -> bool {
    let u = c as u32;
    ||| 0x09 <= u <= 0x0d
    ||| u == 0x20
    ||| u == 0x85
    ||| u == 0xa0
    ||| u == 0x1680
    ||| 0x2000 <= u <= 0x200a
    ||| u == 0x2028
    ||| u == 0x2029
    ||| u == 0x202f
    ||| u == 0x205f
    ||| u == 0x3000
}

/// The index of the first character at or after `from` that is not white
/// space, or the length of `s`.
pub open spec fn skip_white_space(s: Seq<char>, from: int) -> int
    decreases s.len() - from,
{
    if 0 <= from < s.len() && is_white_space(s[from]) {
        skip_white_space(s, from + 1)
    } else {
        from
    }
}

/// The end of `s[..end]` without its trailing white space.
pub open spec fn trim_end_index(s: Seq<char>, end: int) -> int
    decreases end,
{
    if 0 < end <= s.len() && is_white_space(s[end - 1]) {
        trim_end_index(s, end - 1)
    } else {
        end
    }
}

/// `s` without leading and trailing white space.
pub open spec fn trimmed(s: Seq<char>) -> Seq<char> {
    let start = skip_white_space(s, 0);
    let end = trim_end_index(s, s.len() as int);
    if start <= end {
        s.subrange(start, end)
    } else {
        Seq::empty()
    }
}

fn white_space(c: char) -> (r: bool)
    ensures
        r == is_white_space(c),
{
    let u = c as u32;
    (0x09 <= u && u <= 0x0d) || u == 0x20 || u == 0x85 || u == 0xa0 || u == 0x1680 || (0x2000 <= u
        && u <= 0x200a) || u == 0x2028 || u == 0x2029 || u == 0x202f || u == 0x205f || u == 0x3000
}

/// Returns the bounds of `s[from..]` without leading and trailing white space.
pub fn trim_bounds(s: &[char], from: usize) -> (r: (usize, usize))
    requires
        from <= s@.len(),
    ensures
        from <= r.0 <= r.1 <= s@.len(),
        s@.subrange(r.0 as int, r.1 as int) == trimmed(s@.skip(from as int)),
{
    let n = s.len();
    let ghost t = s@.skip(from as int);
    let mut a: usize = from;
    while a < n && white_space(s[a])
        invariant
            from <= a <= n,
            n == s@.len(),
            t == s@.skip(from as int),
            skip_white_space(t, 0) == skip_white_space(t, a - from),
        decreases n - a,
    {
        proof {
            assert(t[a - from] == s@[a as int]);
        }
        a += 1;
    }
    proof {
        if a < n {
            assert(t[a - from] == s@[a as int]);
        }
    }
    let mut b: usize = n;
    while b > a && white_space(s[b - 1])
        invariant
            a <= b <= n,
            from <= a,
            n == s@.len(),
            t == s@.skip(from as int),
            trim_end_index(t, t.len() as int) == trim_end_index(t, b - from) || (b == a
                && trim_end_index(t, t.len() as int) <= a - from),
        decreases b,
    {
        proof {
            assert(t[b - 1 - from] == s@[b - 1]);
            lemma_trim_end_le(t, b - 1 - from);
        }
        b -= 1;
    }
    proof {
        if b > a {
            assert(t[b - 1 - from] == s@[b - 1]);
            assert(s@.subrange(a as int, b as int) == t.subrange(a - from, b - from));
        } else {
            lemma_trim_end_le(t, b - from);
            assert(s@.subrange(a as int, a as int) == Seq::<char>::empty());
            if trim_end_index(t, t.len() as int) == a - from {
                assert(t.subrange(a - from, a - from) == Seq::<char>::empty());
            }
        }
    }
    (a, b)
}

/// Trimming never moves the end to the right.
pub proof fn lemma_trim_end_le(s: Seq<char>, end: int)
    ensures
        trim_end_index(s, end) <= end || end < 0,
    decreases end,
{
    if 0 < end <= s.len() && is_white_space(s[end - 1]) {
        lemma_trim_end_le(s, end - 1);
    }
}

/// Finds the first string of `keys` that holds the characters of `key`.
pub fn position_of(keys: &Vec<String>, key: &str) -> (r: Option<usize>)
    ensures
        match r {
            Some(i) => i < keys@.len() && keys@[i as int]@ == key@ && forall|j: int|
                0 <= j < i ==> keys@[j]@ != key@,
            None => forall|j: int| 0 <= j < keys@.len() ==> keys@[j]@ != key@,
        },
{
    let k = chars_of(key);
    let n = k.len();
    let mut i: usize = 0;
    while i < keys.len()
        invariant
            i <= keys@.len(),
            n == k@.len(),
            k@ == key@,
            forall|j: int| 0 <= j < i ==> keys@[j]@ != key@,
        decreases keys@.len() - i,
    {
        let same = range_equals(k.as_slice(), 0, n, keys[i].as_str());
        proof {
            assert(k@.subrange(0, n as int) == k@);
        }
        if same {
            return Some(i);
        }
        i += 1;
    }
    None
}

/// The pieces of `s` between occurrences of `sep`, from index `from` on: one
/// piece more than there are separators.
pub open spec fn split_from(s: Seq<char>, sep: char, from: int) -> Seq<Seq<char>>
    decreases s.len() - from,
{
    match find_char_from(s, sep, from) {
        Some(i) if from <= i < s.len() => seq![s.subrange(from, i)] + split_from(s, sep, i + 1),
        _ => seq![s.subrange(from, s.len() as int)],
    }
}

/// The bounds of a piece of a text: the piece is `[start, end)`.
#[derive(Clone, Copy, Debug)]
pub struct Span {
    pub start: usize,
    pub end: usize,
}

/// The pieces that the spans cut out of `s`.
pub open spec fn span_pieces(s: Seq<char>, spans: Seq<Span>) -> Seq<Seq<char>> {
    Seq::new(spans.len(), |i: int| s.subrange(spans[i].start as int, spans[i].end as int))
}

/// Splits `s` at each occurrence of `sep`.
pub fn split_spans(s: &[char], sep: char) -> (spans: Vec<Span>)
    ensures
        span_pieces(s@, spans@) == split_from(s@, sep, 0),
        spans@.len() >= 1,
        forall|i: int|
            0 <= i < spans@.len() ==> (#[trigger] spans@[i]).start <= spans@[i].end <= s@.len(),
{
    let n = s.len();
    let mut spans: Vec<Span> = Vec::new();
    let mut pos: usize = 0;
    let ghost mut done: Seq<Seq<char>> = Seq::empty();
    proof {
        assert(done + split_from(s@, sep, 0) =~= split_from(s@, sep, 0));
    }
    loop
        invariant_except_break
            split_from(s@, sep, 0) == done + split_from(s@, sep, pos as int),
            span_pieces(s@, spans@) == done,
        invariant
            n == s@.len(),
            pos <= n,
            forall|i: int|
                0 <= i < spans@.len() ==> (#[trigger] spans@[i]).start <= spans@[i].end <= n,
        ensures
            span_pieces(s@, spans@) == split_from(s@, sep, 0),
            spans@.len() >= 1,
            forall|i: int|
                0 <= i < spans@.len() ==> (#[trigger] spans@[i]).start <= spans@[i].end <= n,
        decreases n - pos,
    {
        proof {
            lemma_find_char_from(s@, sep, pos as int);
        }
        match find_char(s, sep, pos) {
            Some(i) => {
                let ghost piece = s@.subrange(pos as int, i as int);
                proof {
                    assert(done + (seq![piece] + split_from(s@, sep, i + 1)) =~= done.push(piece)
                        + split_from(s@, sep, i + 1));
                    assert(span_pieces(s@, spans@.push(Span { start: pos, end: i })) =~= done.push(
                        piece,
                    ));
                    done = done.push(piece);
                }
                spans.push(Span { start: pos, end: i });
                pos = i + 1;
            },
            None => {
                let ghost piece = s@.subrange(pos as int, n as int);
                proof {
                    assert(done + seq![piece] =~= done.push(piece));
                    assert(span_pieces(s@, spans@.push(Span { start: pos, end: n })) =~= done.push(
                        piece,
                    ));
                }
                spans.push(Span { start: pos, end: n });
                break;
            },
        }
    }
    spans
}

/// Appends the bytes of `more` to `out`.
pub fn append_bytes(out: &mut Vec<u8>, more: &[u8])
    ensures
        final(out)@ == old(out)@ + more@,
{
    out.extend_from_slice(more);
    assert(out@ =~= old(out)@ + more@);
}

/// Copies a byte slice into a vector.
pub fn bytes_of(bytes: &[u8]) -> (r: Vec<u8>)
    ensures
        r@ == bytes@,
{
    let mut r: Vec<u8> = Vec::new();
    append_bytes(&mut r, bytes);
    assert(r@ =~= bytes@);
    r
}

/// Appends a string literal or slice to `out`.
pub fn push_text(out: &mut String, s: &str)
    ensures
        final(out)@ == old(out)@ + s@,
{
    out.append(s);
}

/// Copies a string slice into an owned string.
pub fn text_of(s: &str) -> (r: String)
    ensures
        r@ == s@,
{
    let mut r = String::new();
    push_text(&mut r, s);
    assert(r@ =~= s@);
    r
}

} // verus!
