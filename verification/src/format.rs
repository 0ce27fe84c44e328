//! How numbers, sizes and locations are shown.

use vstd::prelude::*;
use crate::text::{chars_of, decimal, push_decimal, push_text};

verus! {

/// The first `upto` characters of a number's digits with a comma before each
/// group of three that is counted from the end; a comma never comes first.
pub open spec fn grouped(digits: Seq<char>, upto: int) -> Seq<char>
    decreases upto,
{
    if upto <= 0 {
        Seq::empty()
    } else if upto - 1 > 0 && (digits.len() - (upto - 1)) % 3 == 0 {
        grouped(digits, upto - 1).push(',').push(digits[upto - 1])
    } else {
        grouped(digits, upto - 1).push(digits[upto - 1])
    }
}

/// A number with thousands separators: the digits of its magnitude in
/// groups of three, counted from the end, behind a minus sign for a negative
/// number.
pub open spec fn number_text(n: int) -> Seq<char> {
    if n < 0 {
        seq!['-'] + grouped(decimal((-n) as nat), decimal((-n) as nat).len() as int)
    } else {
        grouped(decimal(n as nat), decimal(n as nat).len() as int)
    }
}

/// Formats a number with thousands separators.
pub fn format_number(number: i64) -> (r: String)
    ensures
        r@ == number_text(number as int),
{
    let mut out = String::new();
    let magnitude: u64 = if number >= 0 {
        number as u64
    } else if number == i64::MIN {
        9223372036854775808u64
    } else {
        (-number) as u64
    };
    if number < 0 {
        out.push('-');
    }
    let ghost sign = out@;
    let mut plain = String::new();
    push_decimal(&mut plain, magnitude);
    let digits = chars_of(plain.as_str());
    proof {
        assert(plain@ =~= decimal(magnitude as nat));
        assert(sign + grouped(digits@, 0) =~= sign);
    }
    let len = digits.len();
    let mut i: usize = 0;
    while i < len
        invariant
            i <= len,
            len == digits@.len(),
            out@ == sign + grouped(digits@, i as int),
        decreases len - i,
    {
        if i > 0 && (len - i) % 3 == 0 {
            out.push(',');
        }
        out.push(digits[i]);
        proof {
            assert(out@ =~= sign + grouped(digits@, i + 1));
        }
        i += 1;
    }
    proof {
        if number >= 0 {
            assert(sign + grouped(digits@, len as int) =~= grouped(digits@, len as int));
        }
    }
    out
}

/// A size in the largest binary unit that it fills, rounded down.
pub open spec fn size_text(bytes: int) -> Seq<char> {
    if bytes < 1024 {
        number_text(bytes) + " B"@
    } else if bytes < 1048576 {
        number_text(bytes / 1024) + " KB"@
    } else if bytes < 1073741824 {
        number_text(bytes / 1048576int) + " MB"@
    } else {
        number_text(bytes / 1073741824int) + " GB"@
    }
}

/// Formats a size in bytes for display.
pub fn format_size(bytes: i64) -> (r: String)
    ensures
        r@ == size_text(bytes as int),
{
    let (number, unit) = if bytes < 1024 {
        (bytes, " B")
    } else if bytes < 1024 * 1024 {
        (bytes / 1024, " KB")
    } else if bytes < 1024 * 1024 * 1024 {
        (bytes / (1024 * 1024), " MB")
    } else {
        (bytes / (1024 * 1024 * 1024), " GB")
    };
    let mut out = format_number(number);
    push_text(&mut out, unit);
    out
}

/// The URL of a location: `s3://` for the root, the bucket with a slash for
/// the top of a bucket, and bucket and prefix for a folder.
pub open spec fn s3_path(bucket: Seq<char>, prefix: Seq<char>) -> Seq<char> {
    if bucket.len() == 0 {
        "s3://"@
    } else {
        "s3://"@ + bucket + seq!['/'] + prefix
    }
}

/// Builds the URL of a location.
pub fn build_s3_path(bucket: &str, prefix: &str) -> (r: String)
    ensures
        r@ == s3_path(bucket@, prefix@),
{
    let mut out = String::new();
    push_text(&mut out, "s3://");
    if !bucket.is_empty() {
        push_text(&mut out, bucket);
        out.push('/');
        push_text(&mut out, prefix);
    }
    proof {
        assert(out@ =~= s3_path(bucket@, prefix@));
    }
    out
}

} // verus!
