//! The dotted text form of IPv4 addresses.

use crate::address::digits::{
    all_digits, digit_char, digit_str, field_views, number, parse_number, split, split_fields,
};
use vstd::prelude::*;
use vstd::string::StringExecFns;

verus! {

/// A field of a dotted IPv4 address: one to three decimal digits, without a
/// leading zero before another digit, that write a number up to 255.
pub open spec fn octet(field: Seq<char>) -> Option<int> {
    if 1 <= field.len() <= 3 && all_digits(field, 10) && (field.len() == 1 || field[0] != '0')
        && number(field, 10) <= 255 {
        Some(number(field, 10))
    } else {
        None
    }
}

/// The number of the dotted IPv4 address that `text` writes: four octets
/// separated by dots, the first the most significant.
pub open spec fn ipv4_number(text: Seq<char>) -> Option<int> {
    let fields = split(text, '.');
    if fields.len() == 4 && octet(fields[0]) is Some && octet(fields[1]) is Some && octet(
        fields[2],
    ) is Some && octet(fields[3]) is Some {
        Some(
            ((octet(fields[0])->0 * 256 + octet(fields[1])->0) * 256 + octet(fields[2])->0) * 256
                + octet(fields[3])->0,
        )
    } else {
        None
    }
}

/// A number up to 255 in decimal digits, without leading zeros.
pub open spec fn decimal_text(n: int) -> Seq<char> {
    if n < 10 {
        seq![digit_char(n)]
    } else if n < 100 {
        seq![digit_char(n / 10), digit_char(n % 10)]
    } else {
        seq![digit_char(n / 100), digit_char(n / 10 % 10), digit_char(n % 10)]
    }
}

/// The dotted form of the IPv4 address with number `v`.
pub open spec fn ipv4_text(v: int) -> Seq<char> {
    decimal_text(v / 16777216) + seq!['.'] + decimal_text(v / 65536 % 256) + seq!['.']
        + decimal_text(v / 256 % 256) + seq!['.'] + decimal_text(v % 256)
}

/// Reads `field` as an octet of a dotted IPv4 address.
fn parse_octet(field: &Vec<char>) -> (value: Option<u8>)
    ensures
        value is Some <==> octet(field@) is Some,
        value matches Some(v) ==> octet(field@) == Some(v as int),
{
    match parse_number(field, 10, 3) {
        None => None,
        Some(v) => {
            if (field.len() > 1 && field[0] == '0') || v > 255 {
                None
            } else {
                Some(v as u8)
            }
        },
    }
}

/// Reads the characters of `text` from `lo` up to `hi` as a dotted IPv4
/// address.
pub(crate) fn parse_v4_range(text: &Vec<char>, lo: usize, hi: usize) -> (value: Option<u32>)
    requires
        lo <= hi <= text.len(),
    ensures
        value is Some <==> ipv4_number(text@.subrange(lo as int, hi as int)) is Some,
        value matches Some(v) ==> ipv4_number(text@.subrange(lo as int, hi as int)) == Some(
            v as int,
        ),
{
    let fields = split_fields(text, lo, hi, '.');
    if fields.len() != 4 {
        return None;
    }
    proof {
        assert(field_views(fields@)[0] == fields@[0]@);
        assert(field_views(fields@)[1] == fields@[1]@);
        assert(field_views(fields@)[2] == fields@[2]@);
        assert(field_views(fields@)[3] == fields@[3]@);
    }
    let a = parse_octet(&fields[0]);
    let b = parse_octet(&fields[1]);
    let c = parse_octet(&fields[2]);
    let d = parse_octet(&fields[3]);
    match (a, b, c, d) {
        (Some(a), Some(b), Some(c), Some(d)) => {
            let a: u32 = a as u32;
            let b: u32 = b as u32;
            let c: u32 = c as u32;
            let d: u32 = d as u32;
            Some(((a * 256 + b) * 256 + c) * 256 + d)
        },
        _ => None,
    }
}

/// Appends `n` in decimal digits.
fn push_decimal(out: &mut String, n: u8)
    ensures
        final(out)@ == old(out)@ + decimal_text(n as int),
{
    if n >= 100 {
        out.append(digit_str(n / 100));
    }
    if n >= 10 {
        out.append(digit_str(n / 10 % 10));
    }
    out.append(digit_str(n % 10));
    proof {
        assert(out@ =~= old(out)@ + decimal_text(n as int));
    }
}

/// Appends the dotted form of the IPv4 address with number `v`.
pub(crate) fn push_v4(out: &mut String, v: u32)
    ensures
        final(out)@ == old(out)@ + ipv4_text(v as int),
{
    proof {
        reveal_strlit(".");
    }
    push_decimal(out, (v / 16777216) as u8);
    out.append(".");
    push_decimal(out, (v / 65536 % 256) as u8);
    out.append(".");
    push_decimal(out, (v / 256 % 256) as u8);
    out.append(".");
    push_decimal(out, (v % 256) as u8);
    proof {
        assert("."@ =~= seq!['.']);
        assert(out@ =~= old(out)@ + ipv4_text(v as int));
    }
}

} // verus!
