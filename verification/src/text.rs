//! Byte-level text helpers: ASCII constants out of string literals,
//! case folding for command and option names, and bounded decimal
//! parsing for ports, lifetimes and offsets.

use crate::codec::digit_val;
use crate::codec::digits_value_acc;
use crate::codec::is_digit;
use crate::codec::lemma_dva_concat;
use crate::codec::lemma_dva_lower;
use crate::codec::lemma_dva_single;
use crate::codec::ZERO;
use vstd::prelude::*;
use vstd::slice::slice_to_vec;

verus! {

/// The bytes of an ASCII character sequence, one byte per character.
pub open spec fn ascii_of(s: Seq<char>) -> Seq<u8> {
    Seq::new(s.len(), |i: int| s[i] as u8)
}

/// Bytes of an ASCII string, usually a literal.
pub fn ascii_bytes(s: &str) -> (r: Vec<u8>)
    requires
        s.is_ascii(),
    ensures
        r@ == ascii_of(s@),
{
    let b = s.as_bytes();
    proof {
        broadcast use vstd::string::is_ascii_spec_bytes;

        assert(b@ =~= ascii_of(s@));
    }
    slice_to_vec(b)
}

/// Whether a byte is an ASCII hexadecimal digit.
pub open spec fn is_hex_digit(b: u8) -> bool {
    (ZERO <= b && b <= 57) || (97 <= b && b <= 102) || (65 <= b && b <= 70)
}

/// Value of one hexadecimal digit; any other byte reads as nothing
/// here.
pub open spec fn hex_val(b: u8) -> nat {
    if ZERO <= b && b <= 57 {
        (b - ZERO) as nat
    } else if 97 <= b && b <= 102 {
        (b - 97 + 10) as nat
    } else if 65 <= b && b <= 70 {
        (b - 65 + 10) as nat
    } else {
        0
    }
}

/// Whether `s` is a well-formed hexadecimal writing: an even count of
/// hexadecimal digits.
pub open spec fn valid_hex(s: Seq<u8>) -> bool {
    s.len() % 2 == 0 && forall|i: int| 0 <= i < s.len() ==> is_hex_digit(#[trigger] s[i])
}

/// The bytes a hexadecimal writing stands for: one byte per digit
/// pair, high digit first.
pub open spec fn hex_decode_spec(s: Seq<u8>) -> Seq<u8>
    decreases s.len(),
{
    if s.len() < 2 {
        Seq::empty()
    } else {
        seq![(hex_val(s[0]) * 16 + hex_val(s[1])) as u8] + hex_decode_spec(s.skip(2))
    }
}

/// An ASCII upper-case letter folded to lower case; any other byte kept
/// as it is.
pub open spec fn lower_byte(b: u8) -> u8 {
    if 65 <= b && b <= 90 {
        (b + 32) as u8
    } else {
        b
    }
}

/// A byte sequence folded to lower case, byte by byte.
pub open spec fn lower_bytes(s: Seq<u8>) -> Seq<u8> {
    s.map_values(|b: u8| lower_byte(b))
}

/// Folds a byte slice to ASCII lower case.
pub fn to_lower(s: &[u8]) -> (r: Vec<u8>)
    ensures
        r@ == lower_bytes(s@),
{
    let mut out: Vec<u8> = Vec::new();
    let mut i: usize = 0;
    while i < s.len()
        invariant
            i <= s@.len(),
            out@.len() == i,
            forall|j: int| 0 <= j < i ==> out@[j] == lower_byte(s@[j]),
        decreases s@.len() - i,
    {
        let b = s[i];
        if 65 <= b && b <= 90 {
            out.push(b + 32);
        } else {
            out.push(b);
        }
        i = i + 1;
    }
    proof {
        assert(out@ =~= lower_bytes(s@));
    }
    out
}

/// Whether two byte slices hold the same bytes.
pub fn bytes_eq(a: &[u8], b: &[u8]) -> (r: bool)
    ensures
        r == (a@ == b@),
{
    if a.len() != b.len() {
        return false;
    }
    let mut i: usize = 0;
    while i < a.len()
        invariant
            a@.len() == b@.len(),
            i <= a@.len(),
            forall|j: int| 0 <= j < i ==> a@[j] == b@[j],
        decreases a@.len() - i,
    {
        if a[i] != b[i] {
            return false;
        }
        i = i + 1;
    }
    proof {
        assert(a@ =~= b@);
    }
    true
}

/// Whether every byte of `s` is a decimal digit.
pub open spec fn all_digits(s: Seq<u8>) -> bool {
    forall|i: int| 0 <= i < s.len() ==> is_digit(#[trigger] s[i])
}

/// Whether `s` is the decimal writing of a number no greater than
/// `max`: at least one digit, nothing else, value in range.
pub open spec fn is_decimal_upto(s: Seq<u8>, max: u64) -> bool {
    s.len() >= 1 && all_digits(s) && digits_value_acc(s, 0) <= max as nat
}

/// Reads a non-negative decimal number from `s`, whole: the parse
/// succeeds exactly where `s` is one or more digits and nothing else,
/// and the value fits under `max`.
pub fn parse_decimal(s: &[u8], max: u64) -> (r: Option<u64>)
    ensures
        (r matches Some(v) ==> is_decimal_upto(s@, max) && v as nat == digits_value_acc(s@, 0)),
        (r is None ==> !is_decimal_upto(s@, max)),
{
    if s.len() == 0 {
        return None;
    }
    let mut i: usize = 0;
    let mut acc: u64 = 0;
    while i < s.len()
        invariant
            i <= s@.len(),
            forall|j: int| 0 <= j < i ==> is_digit(#[trigger] s@[j]),
            acc as nat == digits_value_acc(s@.subrange(0, i as int), 0),
            acc <= max,
        decreases s@.len() - i,
    {
        let b = s[i];
        if !(ZERO <= b && b <= 57) {
            return None;
        }
        let d = (b - ZERO) as u64;
        proof {
            assert(s@.subrange(0, i + 1) =~= s@.subrange(0, i as int) + seq![s@[i as int]]);
            lemma_dva_concat(s@.subrange(0, i as int), seq![s@[i as int]], 0);
            lemma_dva_single(s@[i as int], acc as nat);
            assert(digits_value_acc(s@.subrange(0, i + 1), 0) == acc * 10 + digit_val(
                s@[i as int],
            ));
        }
        if d > max || acc > (max - d) / 10 {
            proof {
                assert((acc as nat) * 10 + (d as nat) > max as nat) by (nonlinear_arith)
                    requires
                        d <= 9,
                        d > max || acc > (max - d) / 10,
                        acc >= 0,
                ;
                assert(s@ =~= s@.subrange(0, i + 1) + s@.subrange(i + 1, s@.len() as int));
                lemma_dva_concat(s@.subrange(0, i + 1), s@.subrange(i + 1, s@.len() as int), 0);
                lemma_dva_lower(
                    s@.subrange(i + 1, s@.len() as int),
                    digits_value_acc(s@.subrange(0, i + 1), 0),
                );
                assert(digits_value_acc(s@, 0) > max as nat);
            }
            return None;
        }
        proof {
            assert((acc as nat) * 10 + (d as nat) <= max as nat) by (nonlinear_arith)
                requires
                    d <= 9,
                    d <= max,
                    acc <= (max - d) / 10,
                    acc >= 0,
            ;
        }
        acc = acc * 10 + d;
        i = i + 1;
    }
    proof {
        assert(s@.subrange(0, s@.len() as int) =~= s@);
    }
    Some(acc)
}

} // verus!
