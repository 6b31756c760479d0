//! Decoding of inbound feed messages.
//!
//! A feed message is a JSON object carrying two arrays of
//! `["price", "amount"]` string pairs under the keys `bids` and `asks`.
//! One exchange wraps those arrays in an envelope object under a `data` key,
//! where each side may also be `null` or missing (both mean empty).  The
//! decoder is written directly against that format: the specification
//! functions below define exactly which byte sequences are accepted and what
//! they decode to, and the executable parser is proved to return precisely
//! the specified result.
//!
//! Price and amount strings are decimal numerals with at most ten integer
//! digits and at most eight fraction digits (the fixed-point precision of
//! [`crate::book::Level`]); anything else is a decode error.  Unknown object
//! members are tolerated and skipped whatever JSON value they hold.  Inside
//! strings a backslash escapes the byte after it; multi-character escapes
//! are not decoded.

use vstd::prelude::*;

use crate::book::{
    all_from, sort_by_price, spec_sort_levels, spread_of, summary_wf, Level, Summary, PRICE_UNIT,
};

verus! {

use vstd::string::StrSliceExecFns;

/// Why a feed message was rejected.
#[derive(Clone, Copy, Debug, PartialEq, Eq, Structural)]
pub enum DecodeError {
    /// The payload is not an object of the expected shape.
    Malformed,
    /// A price or amount string is not a decimal numeral in range.
    BadNumber,
}

/// JSON insignificant whitespace: space, tab, line feed, carriage return.
pub open spec fn is_ws(b: u8) -> bool {
    b == 32 || b == 9 || b == 10 || b == 13
}

/// An ASCII decimal digit.
pub open spec fn is_digit(b: u8) -> bool {
    48 <= b <= 57
}

/// A byte that may occur in a JSON number token.
pub open spec fn is_num_byte(b: u8) -> bool {
    is_digit(b) || b == 43 || b == 45 || b == 46 || b == 101 || b == 69
}

/// First index at or after `i` holding a non-whitespace byte (or the end).
pub open spec fn spec_skip_ws(s: Seq<u8>, i: int) -> int
    decreases s.len() - i,
{
    if 0 <= i < s.len() && is_ws(s[i]) {
        spec_skip_ws(s, i + 1)
    } else {
        i
    }
}

fn skip_ws(s: &[u8], i: usize) -> (r: usize)
    requires
        i <= s@.len(),
    ensures
        r == spec_skip_ws(s@, i as int),
        i <= r <= s@.len(),
    decreases s@.len() - i,
{
    if i < s.len() {
        let b = s[i];
        if b == 32 || b == 9 || b == 10 || b == 13 {
            return skip_ws(s, i + 1);
        }
    }
    i
}

/// Scans a string body from `i` (just past the opening quote) up to the
/// closing quote, appending its bytes to `acc`; yields the contents and the
/// index just past the closing quote.  A backslash escapes the byte after
/// it, which is taken as it stands (so `\"` is a quote and `\\` a
/// backslash); multi-character escapes such as `\uXXXX` are not decoded.
pub open spec fn spec_scan_string(s: Seq<u8>, i: int, acc: Seq<u8>) -> Option<(Seq<u8>, int)>
    decreases s.len() - i,
{
    if !(0 <= i < s.len()) {
        None
    } else if s[i] == 34 {
        Some((acc, i + 1))
    } else if s[i] == 92 {
        if i + 1 < s.len() {
            spec_scan_string(s, i + 2, acc.push(s[i + 1]))
        } else {
            None
        }
    } else {
        spec_scan_string(s, i + 1, acc.push(s[i]))
    }
}

fn scan_string(s: &[u8], i: usize, acc: Vec<u8>) -> (r: Option<(Vec<u8>, usize)>)
    requires
        i <= s@.len(),
    ensures
        (match r {
            Some((v, j)) => Some((v@, j as int)),
            None => None,
        }) == spec_scan_string(s@, i as int, acc@),
        r matches Some((v, j)) ==> i < j <= s@.len(),
    decreases s@.len() - i,
{
    if i >= s.len() {
        return None;
    }
    let b = s[i];
    if b == 34 {
        return Some((acc, i + 1));
    }
    if b == 92 {
        if s.len() - i >= 2 {
            let mut acc2 = acc;
            acc2.push(s[i + 1]);
            return scan_string(s, i + 2, acc2);
        } else {
            return None;
        }
    }
    let mut acc2 = acc;
    acc2.push(b);
    scan_string(s, i + 1, acc2)
}

/// Scans a maximal run of number-token bytes from `i`, appending them to
/// `acc`; yields the token so far and the first index past it.
pub open spec fn spec_scan_num(s: Seq<u8>, i: int, acc: Seq<u8>) -> (Seq<u8>, int)
    decreases s.len() - i,
{
    if 0 <= i < s.len() && is_num_byte(s[i]) {
        spec_scan_num(s, i + 1, acc.push(s[i]))
    } else {
        (acc, i)
    }
}

fn scan_num(s: &[u8], i: usize, acc: Vec<u8>) -> (r: (Vec<u8>, usize))
    requires
        i <= s@.len(),
    ensures
        (r.0@, r.1 as int) == spec_scan_num(s@, i as int, acc@),
        i <= r.1 <= s@.len(),
    decreases s@.len() - i,
{
    if i < s.len() {
        let b = s[i];
        if (48 <= b && b <= 57) || b == 43 || b == 45 || b == 46 || b == 101 || b == 69 {
            let mut acc2 = acc;
            acc2.push(b);
            return scan_num(s, i + 1, acc2);
        }
    }
    (acc, i)
}

/// Skips one primitive JSON value starting at `i`: a string, a number,
/// `true`, `false` or `null`; yields the index just past it.
pub open spec fn spec_skip_primitive(s: Seq<u8>, i: int) -> Option<int> {
    if !(0 <= i < s.len()) {
        None
    } else if s[i] == 34 {
        match spec_scan_string(s, i + 1, Seq::empty()) {
            Some((_t, j)) => Some(j),
            None => None,
        }
    } else if is_digit(s[i]) || s[i] == 45 {
        Some(spec_scan_num(s, i, Seq::empty()).1)
    } else if s[i] == 116 {
        if i + 4 <= s.len() && s[i + 1] == 114 && s[i + 2] == 117 && s[i + 3] == 101 {
            Some(i + 4)
        } else {
            None
        }
    } else if s[i] == 102 {
        if i + 5 <= s.len() && s[i + 1] == 97 && s[i + 2] == 108 && s[i + 3] == 115 && s[i + 4]
            == 101 {
            Some(i + 5)
        } else {
            None
        }
    } else if s[i] == 110 {
        if i + 4 <= s.len() && s[i + 1] == 117 && s[i + 2] == 108 && s[i + 3] == 108 {
            Some(i + 4)
        } else {
            None
        }
    } else {
        None
    }
}

fn skip_primitive(s: &[u8], i: usize) -> (r: Option<usize>)
    requires
        i <= s@.len(),
    ensures
        (match r {
            Some(j) => Some(j as int),
            None => None,
        }) == spec_skip_primitive(s@, i as int),
        r matches Some(j) ==> i <= j <= s@.len(),
{
    if i >= s.len() {
        return None;
    }
    let b = s[i];
    if b == 34 {
        match scan_string(s, i + 1, Vec::new()) {
            Some((_t, j)) => Some(j),
            None => None,
        }
    } else if (48 <= b && b <= 57) || b == 45 {
        let (_t, j) = scan_num(s, i, Vec::new());
        Some(j)
    } else if b == 116 {
        if s.len() - i >= 4 && s[i + 1] == 114 && s[i + 2] == 117 && s[i + 3] == 101 {
            Some(i + 4)
        } else {
            None
        }
    } else if b == 102 {
        if s.len() - i >= 5 && s[i + 1] == 97 && s[i + 2] == 108 && s[i + 3] == 115 && s[i + 4]
            == 101 {
            Some(i + 5)
        } else {
            None
        }
    } else if b == 110 {
        if s.len() - i >= 4 && s[i + 1] == 117 && s[i + 2] == 108 && s[i + 3] == 108 {
            Some(i + 4)
        } else {
            None
        }
    } else {
        None
    }
}

/// Skips one JSON value of any form starting at `i`: a primitive, or an
/// array or object with balanced brackets; yields the index just past it.
pub open spec fn spec_skip_value(s: Seq<u8>, i: int) -> Option<int>
    decreases s.len() - i, 0int,
{
    if !(0 <= i < s.len()) {
        None
    } else if s[i] == 91 {
        spec_skip_array_rest(s, i + 1)
    } else if s[i] == 123 {
        spec_skip_object_rest(s, i + 1)
    } else {
        spec_skip_primitive(s, i)
    }
}

/// Skips the remainder of an array from `i` (just past `[` or a comma):
/// either the closing bracket or one element and its separator.
pub open spec fn spec_skip_array_rest(s: Seq<u8>, i: int) -> Option<int>
    decreases s.len() - i, 1int,
{
    let j = spec_skip_ws(s, i);
    if !(i <= j < s.len()) {
        None
    } else if s[j] == 93 {
        Some(j + 1)
    } else {
        match spec_skip_value(s, j) {
            None => None,
            Some(w) => {
                if !(0 <= w <= s.len()) {
                    None
                } else {
                    let e = spec_skip_ws(s, w);
                    if !(0 <= e < s.len()) {
                        None
                    } else if s[e] == 93 {
                        Some(e + 1)
                    } else if s[e] == 44 && i < e + 1 {
                        spec_skip_array_rest(s, e + 1)
                    } else {
                        None
                    }
                }
            },
        }
    }
}

/// Skips the remainder of an object from `i` (just past `{` or a comma):
/// either the closing brace or one `"key": value` member and its separator.
pub open spec fn spec_skip_object_rest(s: Seq<u8>, i: int) -> Option<int>
    decreases s.len() - i, 1int,
{
    let j = spec_skip_ws(s, i);
    if !(i <= j < s.len()) {
        None
    } else if s[j] == 125 {
        Some(j + 1)
    } else if s[j] == 34 {
        match spec_scan_string(s, j + 1, Seq::empty()) {
            None => None,
            Some((_key, k)) => {
                let m = spec_skip_ws(s, k);
                if !(0 <= m < s.len() && s[m] == 58) {
                    None
                } else {
                    let v = spec_skip_ws(s, m + 1);
                    if !(i <= v <= s.len()) {
                        None
                    } else {
                        match spec_skip_value(s, v) {
                            None => None,
                            Some(w) => {
                                if !(0 <= w <= s.len()) {
                                    None
                                } else {
                                    let e = spec_skip_ws(s, w);
                                    if !(0 <= e < s.len()) {
                                        None
                                    } else if s[e] == 125 {
                                        Some(e + 1)
                                    } else if s[e] == 44 && i < e + 1 {
                                        spec_skip_object_rest(s, e + 1)
                                    } else {
                                        None
                                    }
                                }
                            },
                        }
                    }
                }
            },
        }
    } else {
        None
    }
}

fn skip_value(s: &[u8], i: usize) -> (r: Option<usize>)
    requires
        i <= s@.len(),
    ensures
        (match r {
            Some(j) => Some(j as int),
            None => None,
        }) == spec_skip_value(s@, i as int),
        r matches Some(j) ==> i <= j <= s@.len(),
    decreases s@.len() - i, 0int,
{
    if i >= s.len() {
        return None;
    }
    let b = s[i];
    if b == 91 {
        skip_array_rest(s, i + 1)
    } else if b == 123 {
        skip_object_rest(s, i + 1)
    } else {
        skip_primitive(s, i)
    }
}

fn skip_array_rest(s: &[u8], i: usize) -> (r: Option<usize>)
    requires
        i <= s@.len(),
    ensures
        (match r {
            Some(j) => Some(j as int),
            None => None,
        }) == spec_skip_array_rest(s@, i as int),
        r matches Some(j) ==> i <= j <= s@.len(),
    decreases s@.len() - i, 1int,
{
    let j = skip_ws(s, i);
    if !(j < s.len()) {
        return None;
    }
    if s[j] == 93 {
        return Some(j + 1);
    }
    let w = match skip_value(s, j) {
        Some(w) => w,
        None => return None,
    };
    let e = skip_ws(s, w);
    if !(e < s.len()) {
        return None;
    }
    if s[e] == 93 {
        Some(e + 1)
    } else if s[e] == 44 {
        skip_array_rest(s, e + 1)
    } else {
        None
    }
}

fn skip_object_rest(s: &[u8], i: usize) -> (r: Option<usize>)
    requires
        i <= s@.len(),
    ensures
        (match r {
            Some(j) => Some(j as int),
            None => None,
        }) == spec_skip_object_rest(s@, i as int),
        r matches Some(j) ==> i <= j <= s@.len(),
    decreases s@.len() - i, 1int,
{
    let j = skip_ws(s, i);
    if !(j < s.len()) {
        return None;
    }
    if s[j] == 125 {
        return Some(j + 1);
    }
    if s[j] != 34 {
        return None;
    }
    let (_key, k) = match scan_string(s, j + 1, Vec::new()) {
        Some(x) => x,
        None => return None,
    };
    let m = skip_ws(s, k);
    if !(m < s.len() && s[m] == 58) {
        return None;
    }
    let v = skip_ws(s, m + 1);
    let w = match skip_value(s, v) {
        Some(w) => w,
        None => return None,
    };
    let e = skip_ws(s, w);
    if !(e < s.len()) {
        return None;
    }
    if s[e] == 125 {
        Some(e + 1)
    } else if s[e] == 44 {
        skip_object_rest(s, e + 1)
    } else {
        None
    }
}

/// Ten to the power `n`.
pub open spec fn pow10(n: nat) -> int
    decreases n,
{
    if n == 0 {
        1
    } else {
        10 * pow10((n - 1) as nat)
    }
}

proof fn lemma_pow10_mono(a: nat, b: nat)
    requires
        a <= b,
    ensures
        1 <= pow10(a) <= pow10(b),
    decreases b,
{
    if b > 0 {
        if a == b {
            lemma_pow10_mono(0, (b - 1) as nat);
        } else {
            lemma_pow10_mono(a, (b - 1) as nat);
        }
    }
}

/// Scans at most `max` decimal digits from `i`, extending the already-read
/// value `acc` of `cnt` digits; yields the value, the digit count and the
/// first index past the run, or nothing when the run is longer than `max`.
pub open spec fn spec_scan_digits(t: Seq<u8>, i: int, acc: int, cnt: int, max: int) -> Option<
    (int, int, int),
>
    decreases t.len() - i,
{
    if 0 <= i < t.len() && is_digit(t[i]) {
        if cnt >= max {
            None
        } else {
            spec_scan_digits(t, i + 1, acc * 10 + (t[i] - 48), cnt + 1, max)
        }
    } else {
        Some((acc, cnt, i))
    }
}

fn scan_digits(t: &[u8], i: usize, acc: i64, cnt: u32, max: u32) -> (r: Option<(i64, u32, usize)>)
    requires
        i <= t@.len(),
        max <= 10,
        cnt <= max,
        0 <= acc < pow10(cnt as nat),
    ensures
        (match r {
            Some((v, c, p)) => Some((v as int, c as int, p as int)),
            None => None,
        }) == spec_scan_digits(t@, i as int, acc as int, cnt as int, max as int),
        r matches Some((v, c, p)) ==> i <= p <= t@.len() && cnt <= c <= max && 0 <= v < pow10(
            c as nat,
        ),
    decreases t@.len() - i,
{
    if i < t.len() {
        let b = t[i];
        if 48 <= b && b <= 57 {
            if cnt >= max {
                return None;
            }
            proof {
                lemma_pow10_mono(cnt as nat, 9);
                lemma_pow10_mono(0, 9);
                reveal_with_fuel(pow10, 11);
                assert(pow10(9) == 1_000_000_000);
                assert(pow10((cnt + 1) as nat) == 10 * pow10(cnt as nat));
            }
            let acc2 = acc * 10 + (b - 48) as i64;
            return scan_digits(t, i + 1, acc2, cnt + 1, max);
        }
    }
    Some((acc, cnt, i))
}

/// The fixed-point value of a decimal numeral, in `10^-8` units: an optional
/// minus sign, one to ten integer digits, and optionally a point followed by
/// one to eight fraction digits.  Any other form (too many digits, exponent
/// notation, a sign alone, trailing bytes) has no value.
pub open spec fn spec_fixed(t: Seq<u8>) -> Option<int> {
    if t.len() == 0 {
        None
    } else {
        let neg = t[0] == 45;
        let start: int = if neg {
            1
        } else {
            0
        };
        match spec_scan_digits(t, start, 0, 0, 10) {
            None => None,
            Some((v1, c1, p)) => {
                if c1 == 0 {
                    None
                } else if p == t.len() {
                    Some(
                        if neg {
                            -(v1 * pow10(8))
                        } else {
                            v1 * pow10(8)
                        },
                    )
                } else if t[p] == 46 {
                    match spec_scan_digits(t, p + 1, 0, 0, 8) {
                        None => None,
                        Some((v2, c2, q)) => {
                            if c2 == 0 || q != t.len() {
                                None
                            } else {
                                let mag = v1 * pow10(8) + v2 * pow10((8 - c2) as nat);
                                Some(
                                    if neg {
                                        -mag
                                    } else {
                                        mag
                                    },
                                )
                            }
                        },
                    }
                } else {
                    None
                }
            },
        }
    }
}

/// Computes ten to the power `e` for small `e`.
fn pow10_small(e: u32) -> (r: i64)
    requires
        e <= 10,
    ensures
        r == pow10(e as nat),
{
    let mut k: u32 = 0;
    let mut r: i64 = 1;
    while k < e
        invariant
            k <= e <= 10,
            r == pow10(k as nat),
        decreases e - k,
    {
        proof {
            lemma_pow10_mono(k as nat, 9);
            reveal_with_fuel(pow10, 11);
            assert(pow10((k + 1) as nat) == 10 * pow10(k as nat));
        }
        r = r * 10;
        k = k + 1;
    }
    r
}

/// Parses a price or amount numeral into fixed-point `10^-8` units.
pub fn fixed_of_bytes(t: &[u8]) -> (r: Option<i64>)
    ensures
        (match r {
            Some(v) => Some(v as int),
            None => None,
        }) == spec_fixed(t@),
{
    if t.len() == 0 {
        return None;
    }
    let neg = t[0] == 45;
    let start: usize = if neg {
        1
    } else {
        0
    };
    proof {
        reveal_with_fuel(pow10, 11);
    }
    let (v1, c1, p) = match scan_digits(t, start, 0, 0, 10) {
        Some(x) => x,
        None => return None,
    };
    if c1 == 0 {
        return None;
    }
    proof {
        lemma_pow10_mono(c1 as nat, 10);
        assert(pow10(10) == 10_000_000_000) by {
            reveal_with_fuel(pow10, 11);
        }
        assert(v1 * 100_000_000 <= (10_000_000_000 - 1) * 100_000_000) by (nonlinear_arith)
            requires
                0 <= v1 < 10_000_000_000,
        ;
        assert(v1 * 100_000_000 >= 0) by (nonlinear_arith)
            requires
                v1 >= 0,
        ;
        assert(pow10(8) == 100_000_000) by {
            reveal_with_fuel(pow10, 9);
        }
    }
    let scaled1: i64 = v1 * PRICE_UNIT;
    if p == t.len() {
        return Some(
            if neg {
                -scaled1
            } else {
                scaled1
            },
        );
    }
    if t[p] != 46 {
        return None;
    }
    let (v2, c2, q) = match scan_digits(t, p + 1, 0, 0, 8) {
        Some(x) => x,
        None => return None,
    };
    if c2 == 0 || q != t.len() {
        return None;
    }
    let unit = pow10_small(8 - c2);
    proof {
        lemma_pow10_mono(c2 as nat, 8);
        lemma_pow10_mono((8 - c2) as nat, 8);
        assert(pow10(8) == 100_000_000) by {
            reveal_with_fuel(pow10, 9);
        }
        assert(v2 * unit < 100_000_000 * 100_000_000) by (nonlinear_arith)
            requires
                0 <= v2 < 100_000_000,
                0 < unit <= 100_000_000,
        ;
        assert(v2 * unit >= 0) by (nonlinear_arith)
            requires
                v2 >= 0,
                unit >= 0,
        ;
    }
    let mag: i64 = scaled1 + v2 * unit;
    Some(
        if neg {
            -mag
        } else {
            mag
        },
    )
}

/// Parses one `["price", "amount"]` pair starting at `i` (which must hold
/// the opening bracket); yields the two raw strings and the index just past
/// the closing bracket.
pub open spec fn spec_parse_pair(s: Seq<u8>, i: int) -> Option<((Seq<u8>, Seq<u8>), int)> {
    if !(0 <= i < s.len() && s[i] == 91) {
        None
    } else {
        let j = spec_skip_ws(s, i + 1);
        if !(0 <= j < s.len() && s[j] == 34) {
            None
        } else {
            match spec_scan_string(s, j + 1, Seq::empty()) {
                None => None,
                Some((a, k)) => {
                    let m = spec_skip_ws(s, k);
                    if !(0 <= m < s.len() && s[m] == 44) {
                        None
                    } else {
                        let n = spec_skip_ws(s, m + 1);
                        if !(0 <= n < s.len() && s[n] == 34) {
                            None
                        } else {
                            match spec_scan_string(s, n + 1, Seq::empty()) {
                                None => None,
                                Some((b, p)) => {
                                    let q = spec_skip_ws(s, p);
                                    if 0 <= q < s.len() && s[q] == 93 {
                                        Some(((a, b), q + 1))
                                    } else {
                                        None
                                    }
                                },
                            }
                        }
                    }
                },
            }
        }
    }
}

fn parse_pair(s: &[u8], i: usize) -> (r: Option<((Vec<u8>, Vec<u8>), usize)>)
    requires
        i <= s@.len(),
    ensures
        (match r {
            Some(((a, b), p)) => Some(((a@, b@), p as int)),
            None => None,
        }) == spec_parse_pair(s@, i as int),
        r matches Some((_ab, p)) ==> i < p <= s@.len(),
{
    if !(i < s.len() && s[i] == 91) {
        return None;
    }
    let j = skip_ws(s, i + 1);
    if !(j < s.len() && s[j] == 34) {
        return None;
    }
    let (a, k) = match scan_string(s, j + 1, Vec::new()) {
        Some(x) => x,
        None => return None,
    };
    let m = skip_ws(s, k);
    if !(m < s.len() && s[m] == 44) {
        return None;
    }
    let n = skip_ws(s, m + 1);
    if !(n < s.len() && s[n] == 34) {
        return None;
    }
    let (b, p) = match scan_string(s, n + 1, Vec::new()) {
        Some(x) => x,
        None => return None,
    };
    let q = skip_ws(s, p);
    if q < s.len() && s[q] == 93 {
        Some(((a, b), q + 1))
    } else {
        None
    }
}

/// The remaining elements of a non-empty pair array: `i` must hold the next
/// pair; already-read pairs stand in `acc`.  Yields all pairs and the index
/// just past the closing bracket of the array.
pub open spec fn spec_parse_pairs_rest(
    s: Seq<u8>,
    i: int,
    acc: Seq<(Seq<u8>, Seq<u8>)>,
) -> Option<(Seq<(Seq<u8>, Seq<u8>)>, int)>
    decreases s.len() - i,
{
    match spec_parse_pair(s, i) {
        None => None,
        Some((p, k)) => {
            let m = spec_skip_ws(s, k);
            if 0 <= m < s.len() && s[m] == 93 {
                Some((acc.push(p), m + 1))
            } else if 0 <= m < s.len() && s[m] == 44 {
                let n = spec_skip_ws(s, m + 1);
                if i < n <= s.len() {
                    spec_parse_pairs_rest(s, n, acc.push(p))
                } else {
                    None
                }
            } else {
                None
            }
        },
    }
}

fn parse_pairs_rest(s: &[u8], i: usize, acc: Vec<(Vec<u8>, Vec<u8>)>) -> (r: Option<
    (Vec<(Vec<u8>, Vec<u8>)>, usize),
>)
    requires
        i <= s@.len(),
    ensures
        (match r {
            Some((ps, p)) => Some((pairs_view(ps@), p as int)),
            None => None,
        }) == spec_parse_pairs_rest(s@, i as int, pairs_view(acc@)),
        r matches Some((_ps, p)) ==> i < p <= s@.len(),
    decreases s@.len() - i,
{
    let ((a, b), k) = match parse_pair(s, i) {
        Some(x) => x,
        None => return None,
    };
    let m = skip_ws(s, k);
    let ghost acc_v = pairs_view(acc@);
    let mut acc2 = acc;
    acc2.push((a, b));
    proof {
        assert(pairs_view(acc2@) =~= acc_v.push((a@, b@)));
    }
    if m < s.len() && s[m] == 93 {
        Some((acc2, m + 1))
    } else if m < s.len() && s[m] == 44 {
        let n = skip_ws(s, m + 1);
        parse_pairs_rest(s, n, acc2)
    } else {
        None
    }
}

/// A sequence of raw pairs, as a view of the executable vector of them.
pub open spec fn pairs_view(s: Seq<(Vec<u8>, Vec<u8>)>) -> Seq<(Seq<u8>, Seq<u8>)> {
    s.map_values(|p: (Vec<u8>, Vec<u8>)| (p.0@, p.1@))
}

/// Parses a whole pair array starting at `i` (which must hold the opening
/// bracket); yields the pairs and the index just past the closing bracket.
pub open spec fn spec_parse_levels(s: Seq<u8>, i: int) -> Option<(Seq<(Seq<u8>, Seq<u8>)>, int)> {
    if !(0 <= i < s.len() && s[i] == 91) {
        None
    } else {
        let j = spec_skip_ws(s, i + 1);
        if 0 <= j < s.len() && s[j] == 93 {
            Some((Seq::empty(), j + 1))
        } else if 0 <= j <= s.len() {
            spec_parse_pairs_rest(s, j, Seq::empty())
        } else {
            None
        }
    }
}

fn parse_levels(s: &[u8], i: usize) -> (r: Option<(Vec<(Vec<u8>, Vec<u8>)>, usize)>)
    requires
        i <= s@.len(),
    ensures
        (match r {
            Some((ps, p)) => Some((pairs_view(ps@), p as int)),
            None => None,
        }) == spec_parse_levels(s@, i as int),
        r matches Some((_ps, p)) ==> i < p <= s@.len(),
{
    if !(i < s.len() && s[i] == 91) {
        return None;
    }
    let j = skip_ws(s, i + 1);
    proof {
        assert(pairs_view(Seq::<(Vec<u8>, Vec<u8>)>::empty()) =~= Seq::<
            (Seq<u8>, Seq<u8>),
        >::empty());
    }
    if j < s.len() && s[j] == 93 {
        Some((Vec::new(), j + 1))
    } else {
        parse_pairs_rest(s, j, Vec::new())
    }
}

/// Parses either the literal `null` (an empty side) or a pair array.
pub open spec fn spec_parse_levels_or_null(s: Seq<u8>, i: int) -> Option<
    (Seq<(Seq<u8>, Seq<u8>)>, int),
> {
    if 0 <= i && i + 4 <= s.len() && s[i] == 110 && s[i + 1] == 117 && s[i + 2] == 108 && s[i + 3]
        == 108 {
        Some((Seq::empty(), i + 4))
    } else {
        spec_parse_levels(s, i)
    }
}

fn parse_levels_or_null(s: &[u8], i: usize) -> (r: Option<(Vec<(Vec<u8>, Vec<u8>)>, usize)>)
    requires
        i <= s@.len(),
    ensures
        (match r {
            Some((ps, p)) => Some((pairs_view(ps@), p as int)),
            None => None,
        }) == spec_parse_levels_or_null(s@, i as int),
        r matches Some((_ps, p)) ==> i < p <= s@.len(),
{
    if i < s.len() && s.len() - i >= 4 && s[i] == 110 && s[i + 1] == 117 && s[i + 2] == 108 && s[i
        + 3] == 108 {
        proof {
            assert(pairs_view(Seq::<(Vec<u8>, Vec<u8>)>::empty()) =~= Seq::<
                (Seq<u8>, Seq<u8>),
            >::empty());
        }
        Some((Vec::new(), i + 4))
    } else {
        parse_levels(s, i)
    }
}

/// The two sides of a decoded feed message, as raw numeral strings.
pub struct MarketDataV {
    pub bids: Seq<(Seq<u8>, Seq<u8>)>,
    pub asks: Seq<(Seq<u8>, Seq<u8>)>,
}

struct MarketData {
    bids: Vec<(Vec<u8>, Vec<u8>)>,
    asks: Vec<(Vec<u8>, Vec<u8>)>,
}

spec fn md_view(m: MarketData) -> MarketDataV {
    MarketDataV { bids: pairs_view(m.bids@), asks: pairs_view(m.asks@) }
}

spec fn opt_pairs_view(o: Option<Vec<(Vec<u8>, Vec<u8>)>>) -> Option<Seq<(Seq<u8>, Seq<u8>)>> {
    match o {
        Some(v) => Some(pairs_view(v@)),
        None => None,
    }
}

/// The bytes of the member key `bids`.
pub open spec fn key_bids() -> Seq<u8> {
    seq![98u8, 105u8, 100u8, 115u8]
}

/// The bytes of the member key `asks`.
pub open spec fn key_asks() -> Seq<u8> {
    seq![97u8, 115u8, 107u8, 115u8]
}

/// The bytes of the member key `data`.
pub open spec fn key_data() -> Seq<u8> {
    seq![100u8, 97u8, 116u8, 97u8]
}

fn key_eq4(k: &Vec<u8>, b0: u8, b1: u8, b2: u8, b3: u8) -> (r: bool)
    ensures
        r == (k@ == seq![b0, b1, b2, b3]),
{
    let r = k.len() == 4 && k[0] == b0 && k[1] == b1 && k[2] == b2 && k[3] == b3;
    proof {
        if r {
            assert(k@ =~= seq![b0, b1, b2, b3]);
        }
    }
    r
}

/// The side that `null` or a missing member denotes: an empty one.
pub open spec fn or_empty(o: Option<Seq<(Seq<u8>, Seq<u8>)>>) -> Seq<(Seq<u8>, Seq<u8>)> {
    match o {
        Some(v) => v,
        None => Seq::empty(),
    }
}

/// Walks the members of a plain message object from `i` (just past `{` or a
/// separating comma).  `bids` and `asks` hold sides already read.  Both
/// members are required, must be pair arrays, and may appear once; unknown
/// members are skipped.
pub open spec fn spec_plain_members(
    s: Seq<u8>,
    i: int,
    bids: Option<Seq<(Seq<u8>, Seq<u8>)>>,
    asks: Option<Seq<(Seq<u8>, Seq<u8>)>>,
) -> Option<(MarketDataV, int)>
    decreases s.len() - i,
{
    let j = spec_skip_ws(s, i);
    if !(i <= j < s.len()) {
        None
    } else if s[j] == 125 {
        match (bids, asks) {
            (Some(b), Some(a)) => Some((MarketDataV { bids: b, asks: a }, j + 1)),
            _ => None,
        }
    } else if s[j] == 34 {
        match spec_scan_string(s, j + 1, Seq::empty()) {
            None => None,
            Some((key, k)) => {
                let m = spec_skip_ws(s, k);
                if !(0 <= m < s.len() && s[m] == 58) {
                    None
                } else {
                    let v = spec_skip_ws(s, m + 1);
                    let stepped: Option<
                        (Option<Seq<(Seq<u8>, Seq<u8>)>>, Option<Seq<(Seq<u8>, Seq<u8>)>>, int),
                    > = if key == key_bids() {
                        if bids is Some {
                            None
                        } else {
                            match spec_parse_levels(s, v) {
                                Some((ps, w)) => Some((Some(ps), asks, w)),
                                None => None,
                            }
                        }
                    } else if key == key_asks() {
                        if asks is Some {
                            None
                        } else {
                            match spec_parse_levels(s, v) {
                                Some((ps, w)) => Some((bids, Some(ps), w)),
                                None => None,
                            }
                        }
                    } else {
                        match spec_skip_value(s, v) {
                            Some(w) => Some((bids, asks, w)),
                            None => None,
                        }
                    };
                    match stepped {
                        None => None,
                        Some((b2, a2, w)) => {
                            if !(0 <= w <= s.len()) {
                                None
                            } else {
                                let e = spec_skip_ws(s, w);
                                if !(0 <= e < s.len()) {
                                    None
                                } else if s[e] == 125 {
                                    match (b2, a2) {
                                        (Some(b), Some(a)) => Some(
                                            (MarketDataV { bids: b, asks: a }, e + 1),
                                        ),
                                        _ => None,
                                    }
                                } else if s[e] == 44 && i < e + 1 {
                                    spec_plain_members(s, e + 1, b2, a2)
                                } else {
                                    None
                                }
                            }
                        },
                    }
                }
            },
        }
    } else {
        None
    }
}

fn plain_members(
    s: &[u8],
    i: usize,
    bids: Option<Vec<(Vec<u8>, Vec<u8>)>>,
    asks: Option<Vec<(Vec<u8>, Vec<u8>)>>,
) -> (r: Option<(MarketData, usize)>)
    requires
        i <= s@.len(),
    ensures
        (match r {
            Some((md, p)) => Some((md_view(md), p as int)),
            None => None,
        }) == spec_plain_members(s@, i as int, opt_pairs_view(bids), opt_pairs_view(asks)),
        r matches Some((_md, p)) ==> i < p <= s@.len(),
    decreases s@.len() - i,
{
    let j = skip_ws(s, i);
    if !(j < s.len()) {
        return None;
    }
    if s[j] == 125 {
        return match (bids, asks) {
            (Some(b), Some(a)) => Some((MarketData { bids: b, asks: a }, j + 1)),
            _ => None,
        };
    }
    if s[j] != 34 {
        return None;
    }
    let (key, k) = match scan_string(s, j + 1, Vec::new()) {
        Some(x) => x,
        None => return None,
    };
    let m = skip_ws(s, k);
    if !(m < s.len() && s[m] == 58) {
        return None;
    }
    let v = skip_ws(s, m + 1);
    let (b2, a2, w): (Option<Vec<(Vec<u8>, Vec<u8>)>>, Option<Vec<(Vec<u8>, Vec<u8>)>>, usize) =
        if key_eq4(&key, 98, 105, 100, 115) {
        if bids.is_some() {
            return None;
        }
        match parse_levels(s, v) {
            Some((ps, w)) => (Some(ps), asks, w),
            None => return None,
        }
    } else if key_eq4(&key, 97, 115, 107, 115) {
        if asks.is_some() {
            return None;
        }
        match parse_levels(s, v) {
            Some((ps, w)) => (bids, Some(ps), w),
            None => return None,
        }
    } else {
        match skip_value(s, v) {
            Some(w) => (bids, asks, w),
            None => return None,
        }
    };
    let e = skip_ws(s, w);
    if !(e < s.len()) {
        return None;
    }
    if s[e] == 125 {
        return match (b2, a2) {
            (Some(b), Some(a)) => Some((MarketData { bids: b, asks: a }, e + 1)),
            _ => None,
        };
    }
    if s[e] == 44 {
        return plain_members(s, e + 1, b2, a2);
    }
    None
}

/// Walks the members of an envelope's inner object.  Both sides are
/// optional here: a missing or `null` member is an empty side.
pub open spec fn spec_inner_members(
    s: Seq<u8>,
    i: int,
    bids: Option<Seq<(Seq<u8>, Seq<u8>)>>,
    asks: Option<Seq<(Seq<u8>, Seq<u8>)>>,
) -> Option<(MarketDataV, int)>
    decreases s.len() - i,
{
    let j = spec_skip_ws(s, i);
    if !(i <= j < s.len()) {
        None
    } else if s[j] == 125 {
        Some((MarketDataV { bids: or_empty(bids), asks: or_empty(asks) }, j + 1))
    } else if s[j] == 34 {
        match spec_scan_string(s, j + 1, Seq::empty()) {
            None => None,
            Some((key, k)) => {
                let m = spec_skip_ws(s, k);
                if !(0 <= m < s.len() && s[m] == 58) {
                    None
                } else {
                    let v = spec_skip_ws(s, m + 1);
                    let stepped: Option<
                        (Option<Seq<(Seq<u8>, Seq<u8>)>>, Option<Seq<(Seq<u8>, Seq<u8>)>>, int),
                    > = if key == key_bids() {
                        if bids is Some {
                            None
                        } else {
                            match spec_parse_levels_or_null(s, v) {
                                Some((ps, w)) => Some((Some(ps), asks, w)),
                                None => None,
                            }
                        }
                    } else if key == key_asks() {
                        if asks is Some {
                            None
                        } else {
                            match spec_parse_levels_or_null(s, v) {
                                Some((ps, w)) => Some((bids, Some(ps), w)),
                                None => None,
                            }
                        }
                    } else {
                        match spec_skip_value(s, v) {
                            Some(w) => Some((bids, asks, w)),
                            None => None,
                        }
                    };
                    match stepped {
                        None => None,
                        Some((b2, a2, w)) => {
                            if !(0 <= w <= s.len()) {
                                None
                            } else {
                                let e = spec_skip_ws(s, w);
                                if !(0 <= e < s.len()) {
                                    None
                                } else if s[e] == 125 {
                                    Some(
                                        (
                                            MarketDataV {
                                                bids: or_empty(b2),
                                                asks: or_empty(a2),
                                            },
                                            e + 1,
                                        ),
                                    )
                                } else if s[e] == 44 && i < e + 1 {
                                    spec_inner_members(s, e + 1, b2, a2)
                                } else {
                                    None
                                }
                            }
                        },
                    }
                }
            },
        }
    } else {
        None
    }
}

fn inner_members(
    s: &[u8],
    i: usize,
    bids: Option<Vec<(Vec<u8>, Vec<u8>)>>,
    asks: Option<Vec<(Vec<u8>, Vec<u8>)>>,
) -> (r: Option<(MarketData, usize)>)
    requires
        i <= s@.len(),
    ensures
        (match r {
            Some((md, p)) => Some((md_view(md), p as int)),
            None => None,
        }) == spec_inner_members(s@, i as int, opt_pairs_view(bids), opt_pairs_view(asks)),
        r matches Some((_md, p)) ==> i < p <= s@.len(),
    decreases s@.len() - i,
{
    proof {
        assert(pairs_view(Seq::<(Vec<u8>, Vec<u8>)>::empty()) =~= Seq::<
            (Seq<u8>, Seq<u8>),
        >::empty());
    }
    let j = skip_ws(s, i);
    if !(j < s.len()) {
        return None;
    }
    if s[j] == 125 {
        let b = match bids {
            Some(b) => b,
            None => Vec::new(),
        };
        let a = match asks {
            Some(a) => a,
            None => Vec::new(),
        };
        return Some((MarketData { bids: b, asks: a }, j + 1));
    }
    if s[j] != 34 {
        return None;
    }
    let (key, k) = match scan_string(s, j + 1, Vec::new()) {
        Some(x) => x,
        None => return None,
    };
    let m = skip_ws(s, k);
    if !(m < s.len() && s[m] == 58) {
        return None;
    }
    let v = skip_ws(s, m + 1);
    let (b2, a2, w): (Option<Vec<(Vec<u8>, Vec<u8>)>>, Option<Vec<(Vec<u8>, Vec<u8>)>>, usize) =
        if key_eq4(&key, 98, 105, 100, 115) {
        if bids.is_some() {
            return None;
        }
        match parse_levels_or_null(s, v) {
            Some((ps, w)) => (Some(ps), asks, w),
            None => return None,
        }
    } else if key_eq4(&key, 97, 115, 107, 115) {
        if asks.is_some() {
            return None;
        }
        match parse_levels_or_null(s, v) {
            Some((ps, w)) => (bids, Some(ps), w),
            None => return None,
        }
    } else {
        match skip_value(s, v) {
            Some(w) => (bids, asks, w),
            None => return None,
        }
    };
    let e = skip_ws(s, w);
    if !(e < s.len()) {
        return None;
    }
    if s[e] == 125 {
        let b = match b2 {
            Some(b) => b,
            None => Vec::new(),
        };
        let a = match a2 {
            Some(a) => a,
            None => Vec::new(),
        };
        return Some((MarketData { bids: b, asks: a }, e + 1));
    }
    if s[e] == 44 {
        return inner_members(s, e + 1, b2, a2);
    }
    None
}

/// Walks the members of an envelope object: a `data` member holding the
/// inner object is required and may appear once; unknown members are
/// skipped.
pub open spec fn spec_wrapped_members(s: Seq<u8>, i: int, data: Option<MarketDataV>) -> Option<
    (MarketDataV, int),
>
    decreases s.len() - i,
{
    let j = spec_skip_ws(s, i);
    if !(i <= j < s.len()) {
        None
    } else if s[j] == 125 {
        match data {
            Some(md) => Some((md, j + 1)),
            None => None,
        }
    } else if s[j] == 34 {
        match spec_scan_string(s, j + 1, Seq::empty()) {
            None => None,
            Some((key, k)) => {
                let m = spec_skip_ws(s, k);
                if !(0 <= m < s.len() && s[m] == 58) {
                    None
                } else {
                    let v = spec_skip_ws(s, m + 1);
                    let stepped: Option<(Option<MarketDataV>, int)> = if key == key_data() {
                        if data is Some {
                            None
                        } else if 0 <= v < s.len() && s[v] == 123 {
                            match spec_inner_members(s, v + 1, None, None) {
                                Some((md, w)) => Some((Some(md), w)),
                                None => None,
                            }
                        } else {
                            None
                        }
                    } else {
                        match spec_skip_value(s, v) {
                            Some(w) => Some((data, w)),
                            None => None,
                        }
                    };
                    match stepped {
                        None => None,
                        Some((d2, w)) => {
                            if !(0 <= w <= s.len()) {
                                None
                            } else {
                                let e = spec_skip_ws(s, w);
                                if !(0 <= e < s.len()) {
                                    None
                                } else if s[e] == 125 {
                                    match d2 {
                                        Some(md) => Some((md, e + 1)),
                                        None => None,
                                    }
                                } else if s[e] == 44 && i < e + 1 {
                                    spec_wrapped_members(s, e + 1, d2)
                                } else {
                                    None
                                }
                            }
                        },
                    }
                }
            },
        }
    } else {
        None
    }
}

spec fn opt_md_view(o: Option<MarketData>) -> Option<MarketDataV> {
    match o {
        Some(md) => Some(md_view(md)),
        None => None,
    }
}

fn wrapped_members(s: &[u8], i: usize, data: Option<MarketData>) -> (r: Option<
    (MarketData, usize),
>)
    requires
        i <= s@.len(),
    ensures
        (match r {
            Some((md, p)) => Some((md_view(md), p as int)),
            None => None,
        }) == spec_wrapped_members(s@, i as int, opt_md_view(data)),
        r matches Some((_md, p)) ==> i < p <= s@.len(),
    decreases s@.len() - i,
{
    let j = skip_ws(s, i);
    if !(j < s.len()) {
        return None;
    }
    if s[j] == 125 {
        return match data {
            Some(md) => Some((md, j + 1)),
            None => None,
        };
    }
    if s[j] != 34 {
        return None;
    }
    let (key, k) = match scan_string(s, j + 1, Vec::new()) {
        Some(x) => x,
        None => return None,
    };
    let m = skip_ws(s, k);
    if !(m < s.len() && s[m] == 58) {
        return None;
    }
    let v = skip_ws(s, m + 1);
    let (d2, w): (Option<MarketData>, usize) = if key_eq4(&key, 100, 97, 116, 97) {
        if data.is_some() {
            return None;
        }
        if v < s.len() && s[v] == 123 {
            match inner_members(s, v + 1, None, None) {
                Some((md, w)) => (Some(md), w),
                None => return None,
            }
        } else {
            return None;
        }
    } else {
        match skip_value(s, v) {
            Some(w) => (data, w),
            None => return None,
        }
    };
    let e = skip_ws(s, w);
    if !(e < s.len()) {
        return None;
    }
    if s[e] == 125 {
        return match d2 {
            Some(md) => Some((md, e + 1)),
            None => None,
        };
    }
    if s[e] == 44 {
        return wrapped_members(s, e + 1, d2);
    }
    None
}

/// The decoded shape of a whole feed message: leading whitespace, one
/// object in the plain or the wrapped form, trailing whitespace, nothing
/// else.
pub open spec fn spec_market_data(s: Seq<u8>, wrapped: bool) -> Option<MarketDataV> {
    let i = spec_skip_ws(s, 0);
    if !(0 <= i < s.len() && s[i] == 123) {
        None
    } else {
        let r = if wrapped {
            spec_wrapped_members(s, i + 1, None)
        } else {
            spec_plain_members(s, i + 1, None, None)
        };
        match r {
            None => None,
            Some((md, p)) => {
                if 0 <= p <= s.len() && spec_skip_ws(s, p) == s.len() {
                    Some(md)
                } else {
                    None
                }
            },
        }
    }
}

fn parse_market_data(s: &[u8], wrapped: bool) -> (r: Option<MarketData>)
    ensures
        (match r {
            Some(md) => Some(md_view(md)),
            None => None,
        }) == spec_market_data(s@, wrapped),
{
    let i = skip_ws(s, 0);
    if !(i < s.len()) {
        return None;
    }
    if s[i] != 123 {
        return None;
    }
    let (md, p) = if wrapped {
        match wrapped_members(s, i + 1, None) {
            Some(x) => x,
            None => return None,
        }
    } else {
        match plain_members(s, i + 1, None, None) {
            Some(x) => x,
            None => return None,
        }
    };
    let e = skip_ws(s, p);
    if e == s.len() {
        Some(md)
    } else {
        None
    }
}

/// The fixed-point values of a side's raw pairs, from index `i` on: the
/// value of each numeral, or nothing when any numeral is malformed.
pub open spec fn spec_level_vals_from(pairs: Seq<(Seq<u8>, Seq<u8>)>, i: int) -> Option<
    Seq<(int, int)>,
>
    decreases pairs.len() - i,
{
    if !(0 <= i) {
        None
    } else if i >= pairs.len() {
        Some(Seq::empty())
    } else {
        match (spec_fixed(pairs[i].0), spec_fixed(pairs[i].1)) {
            (Some(p), Some(a)) => match spec_level_vals_from(pairs, i + 1) {
                Some(rest) => Some(seq![(p, a)] + rest),
                None => None,
            },
            _ => None,
        }
    }
}

/// The fixed-point values of all of a side's raw pairs.
pub open spec fn spec_level_vals(pairs: Seq<(Seq<u8>, Seq<u8>)>) -> Option<Seq<(int, int)>> {
    spec_level_vals_from(pairs, 0)
}

/// `ls` carries exactly the values `vals`, in order, each stamped with the
/// exchange name `name`.
pub open spec fn levels_match(ls: Seq<Level>, vals: Seq<(int, int)>, name: Seq<char>) -> bool {
    &&& ls.len() == vals.len()
    &&& forall|t: int|
        0 <= t < ls.len() ==> (#[trigger] ls[t]).exchange@ == name && ls[t].price == vals[t].0
            && ls[t].amount == vals[t].1
}

fn levels_from(pairs: &Vec<(Vec<u8>, Vec<u8>)>, i: usize, name: &str) -> (r: Option<Vec<Level>>)
    requires
        i <= pairs@.len(),
    ensures
        match (r, spec_level_vals_from(pairs_view(pairs@), i as int)) {
            (Some(v), Some(vals)) => levels_match(v@, vals, name@),
            (None, None) => true,
            _ => false,
        },
    decreases pairs@.len() - i,
{
    if i >= pairs.len() {
        let out: Vec<Level> = Vec::new();
        return Some(out);
    }
    let pr = &pairs[i];
    let price = match fixed_of_bytes(pr.0.as_slice()) {
        Some(p) => p,
        None => return None,
    };
    let amount = match fixed_of_bytes(pr.1.as_slice()) {
        Some(a) => a,
        None => return None,
    };
    let rest = match levels_from(pairs, i + 1, name) {
        Some(v) => v,
        None => return None,
    };
    let mut out: Vec<Level> = Vec::new();
    out.push(Level { exchange: name.to_owned(), price, amount });
    let mut rest2 = rest;
    out.append(&mut rest2);
    proof {
        let vals = spec_level_vals_from(pairs_view(pairs@), i as int);
        assert(vals matches Some(vs) ==> levels_match(out@, vs, name@)) by {
            if vals is Some {
                let vs = match vals {
                    Some(vs) => vs,
                    None => Seq::empty(),
                };
                assert(forall|t: int| 0 <= t < out@.len() ==> out@[t] == (#[trigger] (seq![
                    out@[0],
                ] + rest@)[t]));
                assert(out@.len() == vs.len());
            }
        }
    }
    Some(out)
}

/// Whether a feed uses the wrapped envelope form: the one exchange that
/// does is named `bts`.
pub open spec fn is_wrapped(name: Seq<char>) -> bool {
    name == "bts"@
}

pub(crate) fn str_eq(a: &str, b: &str) -> (r: bool)
    ensures
        r == (a@ == b@),
{
    let n = a.unicode_len();
    let m = b.unicode_len();
    if n != m {
        return false;
    }
    let mut i: usize = 0;
    while i < n
        invariant
            i <= n,
            n == a@.len(),
            n == b@.len(),
            forall|t: int| 0 <= t < i ==> a@[t] == b@[t],
        decreases n - i,
    {
        if a.get_char(i) != b.get_char(i) {
            return false;
        }
        i = i + 1;
    }
    proof {
        assert(a@ =~= b@);
    }
    true
}

/// Levels that are a reordering of levels all stamped with one name are all
/// stamped with that name themselves.
proof fn lemma_all_from_multiset(raw: Seq<Level>, out: Seq<Level>, name: Seq<char>)
    requires
        forall|t: int| 0 <= t < raw.len() ==> (#[trigger] raw[t]).exchange@ == name,
        out.to_multiset() == raw.to_multiset(),
    ensures
        all_from(out, name),
{
    broadcast use vstd::seq_lib::group_to_multiset_ensures;

    assert forall|t: int| 0 <= t < out.len() implies (#[trigger] out[t]).exchange@ == name by {
        assert(out.contains(out[t]));
        assert(out.to_multiset().count(out[t]) > 0);
        assert(raw.to_multiset().count(out[t]) > 0);
        assert(raw.contains(out[t]));
        let w = choose|w: int| 0 <= w < raw.len() && raw[w] == out[t];
        assert(raw[w].exchange@ == name);
    }
}

/// What a feed message decodes to: the fixed-point values of both sides,
/// or nothing when the payload is malformed or a numeral is out of range.
pub open spec fn spec_decoded(data: Seq<u8>, name: Seq<char>) -> Option<
    (Seq<(int, int)>, Seq<(int, int)>),
> {
    match spec_market_data(data, is_wrapped(name)) {
        None => None,
        Some(md) => match (spec_level_vals(md.bids), spec_level_vals(md.asks)) {
            (Some(b), Some(a)) => Some((b, a)),
            _ => None,
        },
    }
}

/// The summary `s` is a correct decoding of the payload `data` from the
/// exchange `name`: the payload decodes to two sides of values, `s` carries
/// exactly those values as levels stamped with `name`, each side the stable
/// sort of its message order (so equal prices keep that order), and the
/// spread is the one the best levels owe.
pub open spec fn decodes_to(data: Seq<u8>, name: Seq<char>, s: Summary) -> bool {
    match spec_decoded(data, name) {
        Some((bvals, avals)) => {
            &&& summary_wf(s)
            &&& all_from(s.bids@, name)
            &&& all_from(s.asks@, name)
            &&& s.bids@.len() == bvals.len()
            &&& s.asks@.len() == avals.len()
            &&& exists|raw: Seq<Level>|
                levels_match(raw, bvals, name) && s.bids@ == spec_sort_levels(raw, true)
                    && s.bids@.to_multiset() == raw.to_multiset()
            &&& exists|raw: Seq<Level>|
                levels_match(raw, avals, name) && s.asks@ == spec_sort_levels(raw, false)
                    && s.asks@.to_multiset() == raw.to_multiset()
        },
        None => false,
    }
}

/// Decodes one raw feed payload into this exchange's summary: the values
/// the message carries under `bids` and `asks` (through the `data` envelope
/// for the exchange that wraps them), each stamped with `exchange_name`,
/// sorted descending respectively ascending by price, with the spread of
/// the best levels.  A payload outside the expected shape is `Malformed`;
/// one whose price or amount numerals cannot be read is `BadNumber`.
pub fn summary_of_string(data: &[u8], exchange_name: &str) -> (r: Result<Summary, DecodeError>)
    ensures
        match r {
            Ok(s) => decodes_to(data@, exchange_name@, s),
            Err(e) => match e {
                DecodeError::Malformed => spec_market_data(data@, is_wrapped(exchange_name@))
                    is None,
                DecodeError::BadNumber => spec_market_data(data@, is_wrapped(exchange_name@))
                    is Some && spec_decoded(data@, exchange_name@) is None,
            },
        },
{
    broadcast use vstd::seq_lib::group_to_multiset_ensures;

    let wrapped = str_eq(exchange_name, "bts");
    let md = match parse_market_data(data, wrapped) {
        Some(m) => m,
        None => return Err(DecodeError::Malformed),
    };
    let bids_raw = match levels_from(&md.bids, 0, exchange_name) {
        Some(v) => v,
        None => return Err(DecodeError::BadNumber),
    };
    let asks_raw = match levels_from(&md.asks, 0, exchange_name) {
        Some(v) => v,
        None => return Err(DecodeError::BadNumber),
    };
    let ghost braw = bids_raw@;
    let ghost araw = asks_raw@;
    let bids = sort_by_price(bids_raw, true);
    let asks = sort_by_price(asks_raw, false);
    let spread = spread_of(&bids, &asks);
    proof {
        lemma_all_from_multiset(braw, bids@, exchange_name@);
        lemma_all_from_multiset(araw, asks@, exchange_name@);
        assert(spec_market_data(data@, is_wrapped(exchange_name@)) == Some(md_view(md)));
        assert(match spec_decoded(data@, exchange_name@) {
            Some((bvals, avals)) => levels_match(braw, bvals, exchange_name@) && levels_match(
                araw,
                avals,
                exchange_name@,
            ),
            None => false,
        });
    }
    Ok(Summary { spread, bids, asks })
}

} // verus!
