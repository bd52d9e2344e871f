//! Decimal and hexadecimal renderings of machine integers, and the inverse
//! parse used on inbound encoding suffixes.
//!
//! The adapter renders a payload's format as the decimal text carried in the
//! substrate encoding suffix, renders request identifiers as decimal
//! `msb:lsb` pairs, and renders the random part of a listener token as
//! uppercase hexadecimal. Inbound samples carry the suffix back as text that
//! must parse as a signed 32-bit integer.

use vstd::prelude::*;

verus! {

/// ASCII decimal digits of `n`, most significant first, no leading zeros
/// (`0` renders as `"0"`).
pub open spec fn dec_of(n: nat) -> Seq<u8>
    decreases n,
{
    if n < 10 {
        seq![(n + 48) as u8]
    } else {
        dec_of(n / 10) + seq![(n % 10 + 48) as u8]
    }
}

/// The uppercase ASCII digit for a hexadecimal value below 16.
pub open spec fn hex_digit(d: nat) -> u8 {
    if d < 10 {
        (d + 48) as u8
    } else {
        (d + 55) as u8
    }
}

/// Uppercase ASCII hexadecimal digits of `n`, most significant first, no
/// leading zeros; this is the shape Rust's `{:X}` formatting produces.
pub open spec fn hex_of(n: nat) -> Seq<u8>
    decreases n,
{
    if n < 16 {
        seq![hex_digit(n)]
    } else {
        hex_of(n / 16) + seq![hex_digit(n % 16)]
    }
}

/// ASCII decimal rendering of a signed value: a minus sign before the digits
/// of the magnitude when negative.
pub open spec fn dec_i32_of(n: int) -> Seq<u8> {
    if n < 0 {
        seq![45u8] + dec_of((-n) as nat)
    } else {
        dec_of(n as nat)
    }
}

/// `b` is an ASCII decimal digit.
pub open spec fn is_digit(b: u8) -> bool {
    48 <= b <= 57
}

/// Every byte of `s` is an ASCII decimal digit.
pub open spec fn all_digits(s: Seq<u8>) -> bool {
    forall|i: int| 0 <= i < s.len() ==> is_digit(#[trigger] s[i])
}

/// The numeric value of a string of decimal digits (most significant first).
pub open spec fn dec_val(s: Seq<u8>) -> nat
    decreases s.len(),
{
    if s.len() == 0 {
        0
    } else {
        dec_val(s.drop_last()) * 10 + (s.last() - 48) as nat
    }
}

/// What `str::parse::<i32>` yields on `s`: an optional single sign, then at
/// least one digit and nothing else, with the value in range; anything else
/// fails.
pub open spec fn parse_i32_spec(s: Seq<u8>) -> Option<i32> {
    let negative = s.len() > 0 && s[0] == 45;
    let digits = if s.len() > 0 && (s[0] == 45 || s[0] == 43) {
        s.skip(1)
    } else {
        s
    };
    if digits.len() == 0 || !all_digits(digits) {
        None
    } else if negative {
        if dec_val(digits) <= 0x8000_0000 {
            Some((0 - dec_val(digits)) as i32)
        } else {
            None
        }
    } else {
        if dec_val(digits) <= 0x7fff_ffff {
            Some(dec_val(digits) as i32)
        } else {
            None
        }
    }
}

/// A decimal rendering is never empty and consists of digits alone.
pub proof fn lemma_dec_of_digits(n: nat)
    ensures
        dec_of(n).len() >= 1,
        all_digits(dec_of(n)),
    decreases n,
{
    if n >= 10 {
        lemma_dec_of_digits(n / 10);
        assert forall|i: int| 0 <= i < dec_of(n).len() implies is_digit(#[trigger] dec_of(n)[i]) by {
            if i < dec_of(n / 10).len() {
                assert(dec_of(n)[i] == dec_of(n / 10)[i]);
            }
        }
    }
}

/// Reading a decimal rendering back as a number returns the value rendered.
pub proof fn lemma_dec_val_of(n: nat)
    ensures
        dec_val(dec_of(n)) == n,
    decreases n,
{
    if n < 10 {
        let s = dec_of(n);
        assert(s == seq![(n + 48) as u8]);
        assert(s.drop_last() =~= Seq::<u8>::empty());
        assert(s.last() == (n + 48) as u8);
        assert(dec_val(s) == dec_val(s.drop_last()) * 10 + (s.last() - 48) as nat);
    } else {
        let s = dec_of(n);
        lemma_dec_val_of(n / 10);
        vstd::arithmetic::div_mod::lemma_fundamental_div_mod(n as int, 10);
        assert(s == dec_of(n / 10) + seq![(n % 10 + 48) as u8]);
        assert(s.drop_last() =~= dec_of(n / 10));
        assert(s.last() == (n % 10 + 48) as u8);
        assert(dec_val(s) == dec_val(s.drop_last()) * 10 + (s.last() - 48) as nat);
    }
}

/// Distinct numbers have distinct decimal renderings.
pub proof fn lemma_dec_of_injective(a: nat, b: nat)
    requires
        dec_of(a) == dec_of(b),
    ensures
        a == b,
{
    lemma_dec_val_of(a);
    lemma_dec_val_of(b);
}

/// A hexadecimal rendering is never empty and stays within ASCII.
pub proof fn lemma_hex_of_ascii(n: nat)
    ensures
        hex_of(n).len() >= 1,
        forall|i: int| 0 <= i < hex_of(n).len() ==> #[trigger] hex_of(n)[i] < 128,
    decreases n,
{
    if n >= 16 {
        lemma_hex_of_ascii(n / 16);
        assert forall|i: int| 0 <= i < hex_of(n).len() implies #[trigger] hex_of(n)[i] < 128 by {
            if i < hex_of(n / 16).len() {
                assert(hex_of(n)[i] == hex_of(n / 16)[i]);
            }
        }
    }
}

/// Parsing the decimal rendering of an in-range signed value returns that
/// value: the format suffix survives its trip through the substrate encoding.
pub proof fn lemma_parse_dec_i32(n: i32)
    ensures
        parse_i32_spec(dec_i32_of(n as int)) == Some(n),
{
    let s = dec_i32_of(n as int);
    if n < 0 {
        let magnitude = (-(n as int)) as nat;
        lemma_dec_of_digits(magnitude);
        lemma_dec_val_of(magnitude);
        assert(s.skip(1) =~= dec_of(magnitude));
    } else {
        lemma_dec_of_digits(n as nat);
        lemma_dec_val_of(n as nat);
        assert(is_digit(s[0]));
    }
}

/// The decimal digits of `n`, as executable bytes.
pub fn u64_to_dec(n: u64) -> (r: Vec<u8>)
    ensures
        r@ == dec_of(n as nat),
    decreases n,
{
    if n < 10 {
        let mut v: Vec<u8> = Vec::new();
        v.push((n as u8) + 48);
        v
    } else {
        let mut v: Vec<u8> = u64_to_dec(n / 10);
        v.push(((n % 10) as u8) + 48);
        v
    }
}

/// The uppercase hexadecimal digits of `n`, as executable bytes.
pub fn u64_to_hex_upper(n: u64) -> (r: Vec<u8>)
    ensures
        r@ == hex_of(n as nat),
    decreases n,
{
    if n < 16 {
        let d: u8 = n as u8;
        let mut v: Vec<u8> = Vec::new();
        if d < 10 {
            v.push(d + 48);
        } else {
            v.push(d + 55);
        }
        v
    } else {
        let mut v: Vec<u8> = u64_to_hex_upper(n / 16);
        let d: u8 = (n % 16) as u8;
        if d < 10 {
            v.push(d + 48);
        } else {
            v.push(d + 55);
        }
        v
    }
}

/// The decimal rendering of a signed 32-bit value, as executable bytes; this
/// is what `i32::to_string` produces.
pub fn i32_to_dec(n: i32) -> (r: Vec<u8>)
    ensures
        r@ == dec_i32_of(n as int),
{
    if n < 0 {
        let magnitude: u64 = (-(n as i64)) as u64;
        let mut v: Vec<u8> = Vec::new();
        v.push(45);
        let digits: Vec<u8> = u64_to_dec(magnitude);
        let mut i: usize = 0;
        while i < digits.len()
            invariant
                0 <= i <= digits@.len(),
                digits@ == dec_of((-(n as int)) as nat),
                v@ == seq![45u8] + digits@.take(i as int),
            decreases digits@.len() - i,
        {
            v.push(digits[i]);
            i = i + 1;
        }
        assert(digits@.take(digits@.len() as int) =~= digits@);
        v
    } else {
        u64_to_dec(n as u64)
    }
}

/// Parses `s` exactly as `str::parse::<i32>` does on its byte content.
pub fn parse_i32(s: &[u8]) -> (r: Option<i32>)
    ensures
        r == parse_i32_spec(s@),
{
    let ghost whole: Seq<u8> = s@;
    let negative: bool = s.len() > 0 && s[0] == 45;
    let start: usize = if s.len() > 0 && (s[0] == 45 || s[0] == 43) {
        1
    } else {
        0
    };
    let ghost digits: Seq<u8> = if whole.len() > 0 && (whole[0] == 45 || whole[0] == 43) {
        whole.skip(1)
    } else {
        whole
    };
    assert(digits =~= whole.subrange(start as int, whole.len() as int));
    if s.len() == start {
        return None;
    }
    // Accumulate the value, clamped above `u32::MAX` so that it can never
    // overflow while still recording that the true value is out of range.
    let mut acc: u64 = 0;
    let mut i: usize = start;
    while i < s.len()
        invariant
            start <= i <= whole.len(),
            whole == s@,
            start == if whole.len() > 0 && (whole[0] == 45 || whole[0] == 43) {
                1int
            } else {
                0int
            },
            digits == whole.subrange(start as int, whole.len() as int),
            all_digits(whole.subrange(start as int, i as int)),
            acc <= 0x1_0000_0000,
            dec_val(whole.subrange(start as int, i as int)) <= 0xffff_ffff ==> acc == dec_val(
                whole.subrange(start as int, i as int),
            ),
            dec_val(whole.subrange(start as int, i as int)) > 0xffff_ffff ==> acc
                == 0x1_0000_0000,
        decreases whole.len() - i,
    {
        let b: u8 = s[i];
        if b < 48 || b > 57 {
            assert(digits[i - start] == b);
            assert(!all_digits(digits));
            return None;
        }
        let ghost before: Seq<u8> = whole.subrange(start as int, i as int);
        let ghost after: Seq<u8> = whole.subrange(start as int, i + 1 as int);
        assert(after.drop_last() =~= before);
        assert(after.last() == b);
        acc = acc * 10 + ((b - 48) as u64);
        if acc > 0x1_0000_0000 {
            acc = 0x1_0000_0000;
        }
        proof {
            if dec_val(before) > 0xffff_ffff {
                assert(dec_val(after) == dec_val(before) * 10 + (b - 48) as nat);
                assert(dec_val(before) * 10 >= dec_val(before) * 1) by (nonlinear_arith)
                    requires dec_val(before) >= 0,
                ;
            }
        }
        i = i + 1;
    }
    assert(whole.subrange(start as int, whole.len() as int) =~= digits);
    if negative {
        if acc <= 0x8000_0000 {
            Some((-(acc as i64)) as i32)
        } else {
            None
        }
    } else {
        if acc <= 0x7fff_ffff {
            Some(acc as i32)
        } else {
            None
        }
    }
}

} // verus!
