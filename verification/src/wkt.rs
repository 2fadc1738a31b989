//! Parsing of well-known-text point geometries.
//!
//! A record's location arrives as a point in projected coordinates, written
//! as `POINT (easting northing)`. The parser reads the two decimal numbers
//! into centimeters of projected meters; a malformed string yields `None`,
//! which callers treat by skipping the record rather than failing the fetch.

use vstd::prelude::*;

verus! {

use vstd::string::StringSliceAdditionalSpecFns;
use crate::numfmt::{is_ascii_digit, dec_val};

/// ASCII whitespace accepted between the tokens of a point.
pub open spec fn is_ws(b: u8) -> bool {
    b == 32 || b == 9 || b == 10 || b == 13
}

/// The first index at or after `i` holding a non-whitespace byte, or the
/// end of the text.
pub open spec fn ws_end(s: Seq<u8>, i: int) -> int
    decreases s.len() - i,
{
    if i < 0 || i >= s.len() || !is_ws(s[i]) {
        i
    } else {
        ws_end(s, i + 1)
    }
}

/// The first index at or after `i` holding a non-digit byte, or the end of
/// the text.
pub open spec fn digits_end(s: Seq<u8>, i: int) -> int
    decreases s.len() - i,
{
    if i < 0 || i >= s.len() || !is_ascii_digit(s[i]) {
        i
    } else {
        digits_end(s, i + 1)
    }
}

/// Largest accepted integer part of a coordinate, in meters.
pub const WKT_MAX_WHOLE: u64 = 10_000_000_000_000;

/// The fractional digits of a number, truncated to centimeters.
pub open spec fn frac_cm(fs: Seq<u8>) -> int {
    if fs.len() == 0 {
        0
    } else if fs.len() == 1 {
        (fs[0] - 48) * 10
    } else {
        (fs[0] - 48) * 10 + (fs[1] - 48)
    }
}

/// Read one signed decimal number starting at `i`: an optional sign, one
/// or more digits, and an optional fraction. Yields the value truncated to
/// centimeters and the index just past the number, or `None` where no
/// digits follow or the whole part is out of range.
pub open spec fn scan_number(s: Seq<u8>, i: int) -> Option<(int, int)> {
    let sign: int = if 0 <= i < s.len() && s[i] == 45 {
        -1
    } else {
        1
    };
    let j0: int = if 0 <= i < s.len() && (s[i] == 43 || s[i] == 45) {
        i + 1
    } else {
        i
    };
    let j1 = digits_end(s, j0);
    if j1 == j0 {
        None
    } else if dec_val(s.subrange(j0, j1)) > WKT_MAX_WHOLE {
        None
    } else {
        let whole = dec_val(s.subrange(j0, j1)) as int;
        if j1 < s.len() && s[j1] == 46 {
            let j2 = digits_end(s, j1 + 1);
            Some((sign * (whole * 100 + frac_cm(s.subrange(j1 + 1, j2))), j2))
        } else {
            Some((sign * (whole * 100), j1))
        }
    }
}

/// The projected coordinates of a well-known-text point, in centimeters:
/// the word `POINT`, optional whitespace, a parenthesized pair of decimal
/// numbers separated by whitespace, and nothing but whitespace after the
/// closing parenthesis.
pub open spec fn wkt_point_value(s: Seq<u8>) -> Option<(int, int)> {
    if s.len() < 5 || s[0] != 80 || s[1] != 79 || s[2] != 73 || s[3] != 78 || s[4] != 84 {
        None
    } else {
        let i0 = ws_end(s, 5);
        if i0 >= s.len() || s[i0] != 40 {
            None
        } else {
            match scan_number(s, ws_end(s, i0 + 1)) {
                None => None,
                Some((e, i2)) => {
                    let i3 = ws_end(s, i2);
                    if i3 == i2 {
                        None
                    } else {
                        match scan_number(s, i3) {
                            None => None,
                            Some((n, i4)) => {
                                let i5 = ws_end(s, i4);
                                if i5 < s.len() && s[i5] == 41 && ws_end(s, i5 + 1) == s.len() {
                                    Some((e, n))
                                } else {
                                    None
                                }
                            },
                        }
                    }
                },
            }
        }
    }
}

/// Advance past whitespace.
fn skip_ws(b: &[u8], i: usize) -> (r: usize)
    requires
        i <= b@.len(),
    ensures
        r == ws_end(b@, i as int),
        i <= r <= b@.len(),
{
    let n = b.len();
    let mut k = i;
    while k < n && (b[k] == 32 || b[k] == 9 || b[k] == 10 || b[k] == 13)
        invariant
            i <= k <= n,
            n == b@.len(),
            ws_end(b@, i as int) == ws_end(b@, k as int),
        decreases n - k,
    {
        k = k + 1;
    }
    k
}

/// Read one signed decimal number starting at `i`.
fn scan_number_exec(b: &[u8], i: usize) -> (r: Option<(i64, usize)>)
    requires
        i <= b@.len(),
    ensures
        match r {
            Some(p) => scan_number(b@, i as int) == Some((p.0 as int, p.1 as int)) && i <= p.1
                <= b@.len(),
            None => scan_number(b@, i as int) is None,
        },
{
    let n = b.len();
    let (neg, start): (bool, usize) = if i < n && b[i] == 45 {
        (true, i + 1)
    } else if i < n && b[i] == 43 {
        (false, i + 1)
    } else {
        (false, i)
    };
    let mut j = start;
    let mut acc: u64 = 0;
    while j < n && 48 <= b[j] && b[j] <= 57
        invariant
            start <= j <= n,
            n == b@.len(),
            digits_end(b@, start as int) == digits_end(b@, j as int),
            forall|u: int| start <= u < j ==> is_ascii_digit(#[trigger] b@[u]),
            acc == if dec_val(b@.subrange(start as int, j as int)) > WKT_MAX_WHOLE + 1 {
                (WKT_MAX_WHOLE + 1) as nat
            } else {
                dec_val(b@.subrange(start as int, j as int))
            },
        decreases n - j,
    {
        let d = b[j];
        proof {
            assert(b@.subrange(start as int, j + 1).drop_last() =~= b@.subrange(
                start as int,
                j as int,
            ));
            assert(b@.subrange(start as int, j + 1).last() == b@[j as int]);
            let prev = b@.subrange(start as int, j as int);
            let cur = b@.subrange(start as int, j + 1);
            assert(dec_val(cur) == dec_val(prev) * 10 + (b@[j as int] - 48));
            if dec_val(prev) > WKT_MAX_WHOLE + 1 {
                assert(dec_val(cur) >= dec_val(prev) * 10) by (nonlinear_arith)
                    requires
                        dec_val(cur) == dec_val(prev) * 10 + (b@[j as int] - 48)
                            && is_ascii_digit(b@[j as int]),
                ;
            }
        }
        if acc > WKT_MAX_WHOLE {
            acc = WKT_MAX_WHOLE + 1;
        } else {
            acc = acc * 10 + ((d - 48) as u64);
            if acc > WKT_MAX_WHOLE + 1 {
                acc = WKT_MAX_WHOLE + 1;
            }
        }
        j = j + 1;
    }
    proof {
        assert(digits_end(b@, j as int) == j);
    }
    if j == start {
        return None;
    }
    if acc > WKT_MAX_WHOLE {
        return None;
    }
    let whole: i64 = acc as i64;
    let (frac, end): (i64, usize) = if j < n && b[j] == 46 {
        let f0 = j + 1;
        let mut k = f0;
        let mut d1: i64 = 0;
        let mut d2: i64 = 0;
        while k < n && 48 <= b[k] && b[k] <= 57
            invariant
                f0 <= k <= n,
                n == b@.len(),
                digits_end(b@, f0 as int) == digits_end(b@, k as int),
                forall|u: int| f0 <= u < k ==> is_ascii_digit(#[trigger] b@[u]),
                k > f0 ==> d1 == b@[f0 as int] - 48,
                k == f0 ==> d1 == 0,
                k > f0 + 1 ==> d2 == b@[f0 + 1] - 48,
                k <= f0 + 1 ==> d2 == 0,
            decreases n - k,
        {
            if k == f0 {
                d1 = (b[k] - 48) as i64;
            } else if k == f0 + 1 {
                d2 = (b[k] - 48) as i64;
            }
            k = k + 1;
        }
        proof {
            assert(digits_end(b@, k as int) == k);
            let fs = b@.subrange(f0 as int, k as int);
            if fs.len() == 0 {
            } else if fs.len() == 1 {
                assert(fs[0] == b@[f0 as int]);
            } else {
                assert(fs[0] == b@[f0 as int]);
                assert(fs[1] == b@[f0 + 1]);
            }
            assert(frac_cm(b@.subrange(f0 as int, k as int)) == d1 * 10 + d2);
        }
        (d1 * 10 + d2, k)
    } else {
        (0, j)
    };
    let mag: i64 = whole * 100 + frac;
    proof {
        let bs = b@;
        let sign: int = if neg {
            -1
        } else {
            1
        };
        assert(start as int == if 0 <= i < bs.len() && (bs[i as int] == 43 || bs[i as int] == 45) {
            i + 1
        } else {
            i as int
        });
        assert(digits_end(bs, start as int) == j);
        assert(dec_val(bs.subrange(start as int, j as int)) == whole);
        assert(sign * (whole * 100 + frac) == if neg {
            -(mag as int)
        } else {
            mag as int
        }) by (nonlinear_arith)
            requires
                sign == if neg {
                    -1int
                } else {
                    1int
                },
                mag == whole * 100 + frac,
        ;
        assert(scan_number(bs, i as int) == Some((sign * (whole * 100 + frac), end as int)));
    }
    if neg {
        Some((-mag, end))
    } else {
        Some((mag, end))
    }
}

/// Parse a well-known-text point such as `POINT (725000 6175000)` into its
/// projected coordinates in centimeters. `None` for malformed text.
pub fn parse_point_coordinate(s: &str) -> (r: Option<(i64, i64)>)
    ensures
        match r {
            Some(p) => wkt_point_value(s.spec_bytes()) == Some((p.0 as int, p.1 as int)),
            None => wkt_point_value(s.spec_bytes()) is None,
        },
{
    let b = s.as_bytes();
    let n = b.len();
    if n < 5 {
        return None;
    }
    if b[0] != 80 || b[1] != 79 || b[2] != 73 || b[3] != 78 || b[4] != 84 {
        return None;
    }
    let i0 = skip_ws(b, 5);
    if i0 >= n || b[i0] != 40 {
        return None;
    }
    let i1 = skip_ws(b, i0 + 1);
    let (e, i2) = match scan_number_exec(b, i1) {
        Some(p) => p,
        None => {
            return None;
        },
    };
    let i3 = skip_ws(b, i2);
    if i3 == i2 {
        return None;
    }
    let (nn, i4) = match scan_number_exec(b, i3) {
        Some(p) => p,
        None => {
            return None;
        },
    };
    let i5 = skip_ws(b, i4);
    if i5 >= n || b[i5] != 41 {
        return None;
    }
    if skip_ws(b, i5 + 1) != n {
        return None;
    }
    Some((e, nn))
}

} // verus!
