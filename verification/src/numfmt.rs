//! Verified decimal rendering and parsing.
//!
//! Rendering turns unsigned and signed integers into their decimal text, with
//! optional zero padding; parsing reads decimal integers back, with the same
//! sign and range behaviour as the standard library's integer parsing.

use vstd::prelude::*;

verus! {

use vstd::string::StringSliceAdditionalSpecFns;

/// The decimal digit character for a value in `0 ..= 9`.
pub open spec fn digit_char(d: int) -> char {
    if d == 0 { '0' }
    else if d == 1 { '1' }
    else if d == 2 { '2' }
    else if d == 3 { '3' }
    else if d == 4 { '4' }
    else if d == 5 { '5' }
    else if d == 6 { '6' }
    else if d == 7 { '7' }
    else if d == 8 { '8' }
    else { '9' }
}

/// The decimal representation of a natural number, without padding.
pub open spec fn dec_rep(n: nat) -> Seq<char>
    decreases n,
{
    if n < 10 {
        seq![digit_char(n as int)]
    } else {
        dec_rep(n / 10) + seq![digit_char((n % 10) as int)]
    }
}

/// The decimal representation of an integer: a minus sign before the
/// magnitude for negative values.
pub open spec fn dec_rep_signed(n: int) -> Seq<char> {
    if n < 0 {
        seq!['-'] + dec_rep((-n) as nat)
    } else {
        dec_rep(n as nat)
    }
}

/// A run of `n` zero characters.
pub open spec fn zero_run(n: nat) -> Seq<char>
    decreases n,
{
    if n == 0 {
        Seq::empty()
    } else {
        seq!['0'] + zero_run((n - 1) as nat)
    }
}

/// The decimal representation of `n`, left-padded with zeros to at least
/// `width` characters.
pub open spec fn dec_rep_padded(n: nat, width: nat) -> Seq<char> {
    if dec_rep(n).len() >= width {
        dec_rep(n)
    } else {
        zero_run((width - dec_rep(n).len()) as nat) + dec_rep(n)
    }
}

/// The one-character string for a decimal digit.
fn digit_str(d: u64) -> (r: &'static str)
    requires
        d < 10,
    ensures
        r@ == seq![digit_char(d as int)],
{
    let r: &'static str = match d {
        0 => "0",
        1 => "1",
        2 => "2",
        3 => "3",
        4 => "4",
        5 => "5",
        6 => "6",
        7 => "7",
        8 => "8",
        _ => "9",
    };
    proof {
        reveal_strlit("0");
        reveal_strlit("1");
        reveal_strlit("2");
        reveal_strlit("3");
        reveal_strlit("4");
        reveal_strlit("5");
        reveal_strlit("6");
        reveal_strlit("7");
        reveal_strlit("8");
        reveal_strlit("9");
        assert(r@ =~= seq![digit_char(d as int)]);
    }
    r
}

/// Render an unsigned integer in decimal.
pub fn u64_to_string(n: u64) -> (s: String)
    ensures
        s@ == dec_rep(n as nat),
    decreases n,
{
    if n < 10 {
        digit_str(n).to_owned()
    } else {
        let mut s = u64_to_string(n / 10);
        s.append(digit_str(n % 10));
        s
    }
}

/// Render a signed integer in decimal, with a leading minus sign when
/// negative.
pub fn i64_to_string(n: i64) -> (s: String)
    ensures
        s@ == dec_rep_signed(n as int),
{
    if n >= 0 {
        u64_to_string(n as u64)
    } else {
        // Negate via an offset so that i64::MIN is representable.
        let mag: u64 = ((-(n + 1)) as u64) + 1;
        assert(mag as int == -(n as int));
        let mut s = "-".to_owned();
        proof {
            reveal_strlit("-");
            assert("-"@ =~= seq!['-']);
        }
        s.append(u64_to_string(mag).as_str());
        s
    }
}

/// The number of digits in the decimal representation of `n`.
pub proof fn lemma_dec_rep_len(n: nat)
    ensures
        n < 10 ==> dec_rep(n).len() == 1,
        10 <= n < 100 ==> dec_rep(n).len() == 2,
        100 <= n < 1000 ==> dec_rep(n).len() == 3,
        1000 <= n < 10000 ==> dec_rep(n).len() == 4,
        10000 <= n ==> dec_rep(n).len() >= 5,
    decreases n,
{
    if n >= 10 {
        lemma_dec_rep_len(n / 10);
    }
}

/// Render an unsigned integer in decimal, left-padded with zeros to at
/// least `width` characters. Supports widths up to 4.
pub fn u64_to_string_padded(n: u64, width: u64) -> (s: String)
    requires
        width <= 4,
    ensures
        s@ == dec_rep_padded(n as nat, width as nat),
{
    proof {
        lemma_dec_rep_len(n as nat);
        reveal_strlit("");
        reveal_strlit("0");
        reveal_strlit("00");
        reveal_strlit("000");
        assert(""@ =~= zero_run(0));
        assert("0"@ =~= zero_run(1));
        assert("00"@ =~= zero_run(2));
        assert("000"@ =~= zero_run(3));
    }
    let ndigits: u64 = if n < 10 { 1 } else if n < 100 { 2 } else if n < 1000 { 3 } else { 4 };
    let mut s: String = if ndigits >= width || n >= 10000 {
        "".to_owned()
    } else if width - ndigits == 1 {
        "0".to_owned()
    } else if width - ndigits == 2 {
        "00".to_owned()
    } else {
        "000".to_owned()
    };
    s.append(u64_to_string(n).as_str());
    s
}

/// An ASCII decimal digit.
pub open spec fn is_ascii_digit(b: u8) -> bool {
    48 <= b <= 57
}

/// Every byte of the sequence is a decimal digit.
pub open spec fn all_digits(s: Seq<u8>) -> bool {
    forall|i: int| 0 <= i < s.len() ==> is_ascii_digit(#[trigger] s[i])
}

/// The value of a sequence of decimal digit bytes.
pub open spec fn dec_val(s: Seq<u8>) -> nat
    decreases s.len(),
{
    if s.len() == 0 {
        0
    } else {
        (dec_val(s.drop_last()) * 10 + (s.last() - 48)) as nat
    }
}

/// The integer denoted by a decimal literal with an optional leading sign,
/// or `None` where the bytes are not such a literal.
pub open spec fn int_literal_value(s: Seq<u8>) -> Option<int> {
    if s.len() == 0 {
        None
    } else if s[0] == 43 {  // '+'
        if s.len() > 1 && all_digits(s.skip(1)) {
            Some(dec_val(s.skip(1)) as int)
        } else {
            None
        }
    } else if s[0] == 45 {  // '-'
        if s.len() > 1 && all_digits(s.skip(1)) {
            Some(-(dec_val(s.skip(1)) as int))
        } else {
            None
        }
    } else {
        if all_digits(s) {
            Some(dec_val(s) as int)
        } else {
            None
        }
    }
}

/// Accumulator ceiling: one more than any value that fits in 32 bits, so a
/// clamped accumulator still decides the range check exactly.
pub const DEC_CLAMP: u64 = 0x1_0000_0000;

/// Read the digits of `b` from `start` on, clamped at `DEC_CLAMP`.
/// Returns `None` where some byte from `start` on is not a digit.
fn scan_digits_clamped(b: &[u8], start: usize) -> (r: Option<u64>)
    requires
        start <= b@.len(),
    ensures
        r is Some <==> all_digits(b@.skip(start as int)),
        r is Some ==> r->0 == if dec_val(b@.skip(start as int)) >= DEC_CLAMP {
            DEC_CLAMP as nat
        } else {
            dec_val(b@.skip(start as int))
        },
{
    let mut acc: u64 = 0;
    let mut i: usize = start;
    while i < b.len()
        invariant
            start <= i <= b@.len(),
            all_digits(b@.subrange(start as int, i as int)),
            acc == if dec_val(b@.subrange(start as int, i as int)) >= DEC_CLAMP {
                DEC_CLAMP as nat
            } else {
                dec_val(b@.subrange(start as int, i as int))
            },
        decreases b@.len() - i,
    {
        let d = b[i];
        if d < 48 || d > 57 {
            proof {
                assert(b@.skip(start as int)[i - start] == b@[i as int]);
            }
            return None;
        }
        proof {
            assert(b@.subrange(start as int, i + 1).drop_last() =~= b@.subrange(
                start as int,
                i as int,
            ));
            assert(b@.subrange(start as int, i + 1).last() == b@[i as int]);
        }
        let ghost prev = b@.subrange(start as int, i as int);
        let ghost cur = b@.subrange(start as int, i + 1);
        proof {
            assert(dec_val(cur) == dec_val(prev) * 10 + (b@[i as int] - 48));
        }
        if acc >= DEC_CLAMP {
            acc = DEC_CLAMP;
            proof {
                assert(dec_val(prev) >= DEC_CLAMP);
                assert(dec_val(cur) >= dec_val(prev) * 10) by (nonlinear_arith)
                    requires dec_val(cur) == dec_val(prev) * 10 + (b@[i as int] - 48)
                        && is_ascii_digit(b@[i as int]);
                assert(dec_val(cur) >= DEC_CLAMP);
            }
        } else {
            acc = acc * 10 + ((d - 48) as u64);
            if acc >= DEC_CLAMP {
                acc = DEC_CLAMP;
                proof {
                    assert(dec_val(cur) >= DEC_CLAMP);
                }
            }
        }
        i = i + 1;
    }
    proof {
        assert(b@.subrange(start as int, b@.len() as int) =~= b@.skip(start as int));
    }
    Some(acc)
}

/// Parse a decimal integer with optional sign, as the standard library's
/// `i32` parsing does: `Some` exactly where the text is a sign followed by
/// one or more digits and the value fits in 32 bits.
pub fn parse_i32(s: &str) -> (r: Option<i32>)
    ensures
        r is Some <==> (int_literal_value(s.spec_bytes()) matches Some(v)
            && i32::MIN <= v <= i32::MAX),
        r is Some ==> int_literal_value(s.spec_bytes()) == Some(r->0 as int),
{
    let ghost bs = s.spec_bytes();
    let b = s.as_bytes();
    if b.len() == 0 {
        return None;
    }
    proof {
        assert(bs.skip(0) =~= bs);
    }
    let (neg, start): (bool, usize) = if b[0] == 43 {
        (false, 1)
    } else if b[0] == 45 {
        (true, 1)
    } else {
        (false, 0)
    };
    if start >= b.len() {
        return None;
    }
    let mag = match scan_digits_clamped(b, start) {
        Some(m) => m,
        None => { return None; },
    };
    proof {
        if dec_val(bs.skip(start as int)) < DEC_CLAMP {
            assert(mag == dec_val(bs.skip(start as int)));
        } else {
            assert(mag == DEC_CLAMP);
        }
    }
    if neg {
        if mag > 0x8000_0000 {
            return None;
        }
        proof {
            assert(dec_val(bs.skip(1)) <= 0x8000_0000);
        }
        Some((-(mag as i64)) as i32)
    } else {
        if mag > 0x7fff_ffff {
            return None;
        }
        Some(mag as i32)
    }
}

} // verus!
