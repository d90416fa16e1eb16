//! Parsing of coordinate pairs and fixed-point decimal numbers from text.
//!
//! The grammar is specified exactly over the UTF-8 bytes of the input:
//! integers are an optional sign followed by decimal digits, and plane
//! coordinates additionally allow a fractional part of at most nine
//! digits.  A number outside the renderer's coordinate range is rejected
//! rather than rounded into range.

use vstd::prelude::*;
use vstd::string::StringSliceAdditionalSpecFns;
use crate::mandel::{complex_ok, Complex, COORD_LIMIT, SCALE};

verus! {

/// An ASCII decimal digit.
pub open spec fn is_digit(b: u8) -> bool {
    48 <= b <= 57
}

/// Every byte of `s` is a decimal digit.
pub open spec fn all_digits(s: Seq<u8>) -> bool {
    forall|i: int| 0 <= i < s.len() ==> is_digit(#[trigger] s[i])
}

/// Numeric value of a digit string, most significant digit first.
pub open spec fn dec_value(s: Seq<u8>) -> int
    decreases s.len(),
{
    if s.len() == 0 {
        0
    } else {
        dec_value(s.drop_last()) * 10 + (s.last() - 48)
    }
}

/// The value of a digit string is nonnegative and no prefix exceeds it.
proof fn lemma_dec_value_prefix(s: Seq<u8>, n: int)
    requires
        all_digits(s),
        0 <= n <= s.len(),
    ensures
        0 <= dec_value(s.subrange(0, n)) <= dec_value(s),
    decreases s.len(),
{
    if s.len() == 0 {
        assert(s.subrange(0, n) =~= s);
    } else if n == s.len() {
        assert(s.subrange(0, n) =~= s);
        lemma_dec_value_prefix(s.drop_last(), s.len() - 1);
        assert(s.drop_last().subrange(0, s.len() - 1) =~= s.drop_last());
    } else {
        assert(s.drop_last().subrange(0, n) =~= s.subrange(0, n));
        lemma_dec_value_prefix(s.drop_last(), n);
        lemma_dec_value_prefix(s.drop_last(), s.len() - 1);
        assert(s.drop_last().subrange(0, s.len() - 1) =~= s.drop_last());
    }
}

/// Index of the first occurrence of `sep` in `s` at or after `i`, if any.
pub open spec fn find_from(s: Seq<u8>, sep: u8, i: nat) -> Option<nat>
    decreases s.len() - i,
{
    if i >= s.len() {
        None
    } else if s[i as int] == sep {
        Some(i)
    } else {
        find_from(s, sep, i + 1)
    }
}

/// What parsing `s` as a signed 64-bit integer yields: an optional `+`
/// or `-` sign, then one or more decimal digits whose value fits the
/// type; anything else is rejected.
pub open spec fn parse_i64_spec(s: Seq<u8>) -> Option<i64> {
    if s.len() == 0 {
        None
    } else {
        let neg = s[0] == 45;
        let mag = if s[0] == 45 || s[0] == 43 {
            s.subrange(1, s.len() as int)
        } else {
            s
        };
        if mag.len() == 0 || !all_digits(mag) {
            None
        } else {
            let v = dec_value(mag);
            if neg {
                if -v >= i64::MIN {
                    Some((-v) as i64)
                } else {
                    None
                }
            } else {
                if v <= i64::MAX {
                    Some(v as i64)
                } else {
                    None
                }
            }
        }
    }
}

/// What parsing `s` as an unsigned 64-bit integer yields: an optional
/// `+` sign, then one or more decimal digits whose value fits the type.
pub open spec fn parse_u64_spec(s: Seq<u8>) -> Option<u64> {
    if s.len() == 0 {
        None
    } else {
        let mag = if s[0] == 43 {
            s.subrange(1, s.len() as int)
        } else {
            s
        };
        if mag.len() == 0 || !all_digits(mag) {
            None
        } else if dec_value(mag) <= u64::MAX {
            Some(dec_value(mag) as u64)
        } else {
            None
        }
    }
}

/// Powers of ten.
pub open spec fn pow10(k: nat) -> int
    decreases k,
{
    if k == 0 {
        1
    } else {
        10 * pow10((k - 1) as nat)
    }
}

/// What parsing `s` as a fixed-point plane coordinate yields: an
/// optional sign, one or more integer digits, and optionally a point
/// followed by one to nine fractional digits.  The value is scaled by
/// `SCALE` with the remainder truncated toward zero, and a magnitude
/// beyond `COORD_LIMIT` is rejected.
pub open spec fn parse_fixed_spec(s: Seq<u8>) -> Option<i64> {
    if s.len() == 0 {
        None
    } else {
        let neg = s[0] == 45;
        let body = if s[0] == 45 || s[0] == 43 {
            s.subrange(1, s.len() as int)
        } else {
            s
        };
        match find_from(body, 46, 0) {
            None => fixed_of_parts(neg, body, Seq::<u8>::empty()),
            Some(d) => fixed_of_parts(
                neg,
                body.subrange(0, d as int),
                body.subrange(d as int + 1, body.len() as int),
            ),
        }
    }
}

/// Combines validated integer and fractional digit strings into a
/// fixed-point value, or rejects them.
pub open spec fn fixed_of_parts(neg: bool, int_part: Seq<u8>, frac_part: Seq<u8>) -> Option<i64> {
    if int_part.len() == 0 || !all_digits(int_part) {
        None
    } else if find_from(frac_part, 46, 0) is Some {
        None
    } else if frac_part.len() > 0 && !all_digits(frac_part) {
        None
    } else if frac_part.len() > 9 {
        None
    } else {
        let num = dec_value(int_part) * pow10(frac_part.len()) + dec_value(frac_part);
        let bits = (num * (SCALE as int)) / pow10(frac_part.len());
        if bits > COORD_LIMIT as int {
            None
        } else if neg {
            Some((-bits) as i64)
        } else {
            Some(bits as i64)
        }
    }
}

/// What parsing `s` as a separated pair of integers yields.
pub open spec fn parse_pair_spec(s: Seq<u8>, sep: u8) -> Option<(i64, i64)> {
    match find_from(s, sep, 0) {
        None => None,
        Some(i) => match (
            parse_i64_spec(s.subrange(0, i as int)),
            parse_i64_spec(s.subrange(i as int + 1, s.len() as int)),
        ) {
            (Some(l), Some(r)) => Some((l, r)),
            _ => None,
        },
    }
}

/// What parsing `s` as a complex plane point yields: two fixed-point
/// coordinates separated by a comma.
pub open spec fn parse_complex_spec(s: Seq<u8>) -> Option<Complex> {
    match find_from(s, 44, 0) {
        None => None,
        Some(i) => match (
            parse_fixed_spec(s.subrange(0, i as int)),
            parse_fixed_spec(s.subrange(i as int + 1, s.len() as int)),
        ) {
            (Some(re), Some(im)) => Some(Complex { re, im }),
            _ => None,
        },
    }
}

/// Finds the first occurrence of `sep` in `bytes`.
fn find_byte(bytes: &[u8], sep: u8) -> (r: Option<usize>)
    ensures
        match r {
            Some(i) => i < bytes@.len() && find_from(bytes@, sep, 0) == Some(i as nat),
            None => find_from(bytes@, sep, 0) is None,
        },
{
    let n = bytes.len();
    let mut i: usize = 0;
    while i < n
        invariant
            i <= n,
            n == bytes@.len(),
            find_from(bytes@, sep, i as nat) == find_from(bytes@, sep, 0),
        decreases n - i,
    {
        if bytes[i] == sep {
            return Some(i);
        }
        i = i + 1;
    }
    None
}

/// Parses `bytes[from..to]` as a signed 64-bit integer.
fn parse_i64_range(bytes: &[u8], from: usize, to: usize) -> (r: Option<i64>)
    requires
        from <= to <= bytes@.len(),
    ensures
        r == parse_i64_spec(bytes@.subrange(from as int, to as int)),
{
    let ghost s = bytes@.subrange(from as int, to as int);
    if from == to {
        return None;
    }
    let first = bytes[from];
    let neg = first == 45;
    let start = if first == 45 || first == 43 {
        from + 1
    } else {
        from
    };
    let ghost mag = bytes@.subrange(start as int, to as int);
    proof {
        if first == 45 || first == 43 {
            assert(s.subrange(1, s.len() as int) =~= mag);
        } else {
            assert(s =~= mag);
        }
    }
    if start == to {
        return None;
    }
    let mut acc: u64 = 0;
    let mut i = start;
    while i < to
        invariant
            from <= start <= i <= to <= bytes@.len(),
            s == bytes@.subrange(from as int, to as int),
            s.len() > 0,
            neg == (s[0] == 45),
            mag == (if s[0] == 45 || s[0] == 43 {
                s.subrange(1, s.len() as int)
            } else {
                s
            }),
            mag == bytes@.subrange(start as int, to as int),
            mag.len() > 0,
            all_digits(bytes@.subrange(start as int, i as int)),
            acc as int == dec_value(bytes@.subrange(start as int, i as int)),
        decreases to - i,
    {
        let b = bytes[i];
        proof {
            assert(bytes@.subrange(start as int, (i + 1) as int).drop_last() =~= bytes@.subrange(
                start as int,
                i as int,
            ));
            assert(bytes@.subrange(start as int, (i + 1) as int).last() == b);
        }
        if b < 48 || b > 57 {
            proof {
                assert(mag[i - start] == b);
                assert(!all_digits(mag));
            }
            return None;
        }
        let d = (b - 48) as u64;
        let stepped = match acc.checked_mul(10) {
            Some(t) => t.checked_add(d),
            None => None,
        };
        match stepped {
            Some(next) => {
                acc = next;
            },
            None => {
                proof {
                    let grown = bytes@.subrange(start as int, (i + 1) as int);
                    assert(dec_value(grown) > u64::MAX as int);
                    if all_digits(mag) {
                        lemma_dec_value_prefix(mag, i + 1 - start);
                        assert(mag.subrange(0, i + 1 - start) =~= grown);
                    }
                }
                return None;
            },
        }
        i = i + 1;
    }
    proof {
        assert(bytes@.subrange(start as int, to as int) =~= mag);
    }
    if neg {
        if acc > 9223372036854775808u64 {
            return None;
        }
        if acc == 9223372036854775808u64 {
            return Some(i64::MIN);
        }
        Some(-(acc as i64))
    } else {
        if acc > 9223372036854775807u64 {
            return None;
        }
        Some(acc as i64)
    }
}

/// A digit string's value is below the matching power of ten.
proof fn lemma_dec_value_bound(s: Seq<u8>)
    requires
        all_digits(s),
    ensures
        0 <= dec_value(s) < pow10(s.len()),
    decreases s.len(),
{
    if s.len() > 0 {
        lemma_dec_value_bound(s.drop_last());
    }
}

/// Powers of ten are positive.
proof fn lemma_pow10_pos(k: nat)
    ensures
        pow10(k) >= 1,
    decreases k,
{
    if k > 0 {
        lemma_pow10_pos((k - 1) as nat);
    }
}

/// A separator that is not a digit never occurs in a digit string.
proof fn lemma_find_none_when_digits(s: Seq<u8>, sep: u8, i: nat)
    requires
        all_digits(s),
        !is_digit(sep),
    ensures
        find_from(s, sep, i) is None,
    decreases s.len() - i,
{
    if i < s.len() {
        lemma_find_none_when_digits(s, sep, i + 1);
    }
}

/// An integer part beyond the coordinate range forces the scaled value
/// beyond `COORD_LIMIT`, whatever the fractional digits are.
proof fn lemma_fixed_units_too_big(i_val: int, f_val: int, k: nat)
    requires
        i_val > 1048576,
        f_val >= 0,
    ensures
        (i_val * pow10(k) + f_val) * (SCALE as int) / pow10(k) > COORD_LIMIT as int,
{
    let p = pow10(k);
    let s = SCALE as int;
    let num = i_val * p + f_val;
    lemma_pow10_pos(k);
    assert(num * s >= p * (i_val * s) && i_val * s >= 1048577 * s) by (nonlinear_arith)
        requires
            num == i_val * p + f_val,
            f_val >= 0,
            p >= 1,
            s == SCALE as int,
            i_val > 1048576,
    ;
    vstd::arithmetic::div_mod::lemma_div_is_ordered(p * (i_val * s), num * s, p);
    vstd::arithmetic::div_mod::lemma_div_multiples_vanish(i_val * s, p);
}

/// Parses `bytes[from..to]` as an unsigned digit string worth at most
/// `1048576` (the coordinate range in whole units).
fn parse_units(bytes: &[u8], from: usize, to: usize) -> (r: Option<u64>)
    requires
        from <= to <= bytes@.len(),
    ensures
        match r {
            Some(v) => {
                &&& bytes@.subrange(from as int, to as int).len() > 0
                &&& all_digits(bytes@.subrange(from as int, to as int))
                &&& v as int == dec_value(bytes@.subrange(from as int, to as int))
                &&& v <= 1048576
            },
            None => {
                ||| bytes@.subrange(from as int, to as int).len() == 0
                ||| !all_digits(bytes@.subrange(from as int, to as int))
                ||| dec_value(bytes@.subrange(from as int, to as int)) > 1048576
            },
        },
{
    let ghost s = bytes@.subrange(from as int, to as int);
    if from == to {
        return None;
    }
    let mut acc: u64 = 0;
    let mut i = from;
    while i < to
        invariant
            from <= i <= to <= bytes@.len(),
            s == bytes@.subrange(from as int, to as int),
            all_digits(bytes@.subrange(from as int, i as int)),
            acc as int == dec_value(bytes@.subrange(from as int, i as int)),
            acc <= 1048576,
        decreases to - i,
    {
        let b = bytes[i];
        proof {
            assert(bytes@.subrange(from as int, (i + 1) as int).drop_last() =~= bytes@.subrange(
                from as int,
                i as int,
            ));
            assert(bytes@.subrange(from as int, (i + 1) as int).last() == b);
        }
        if b < 48 || b > 57 {
            proof {
                assert(s[i - from] == b);
                assert(!all_digits(s));
            }
            return None;
        }
        acc = acc * 10 + ((b - 48) as u64);
        i = i + 1;
        if acc > 1048576 {
            proof {
                let grown = bytes@.subrange(from as int, i as int);
                if all_digits(s) {
                    lemma_dec_value_prefix(s, i - from);
                    assert(s.subrange(0, i - from) =~= grown);
                }
            }
            return None;
        }
    }
    proof {
        assert(bytes@.subrange(from as int, to as int) =~= s);
    }
    Some(acc)
}

/// Parses `bytes[from..to]` as a fractional digit string of at most
/// nine digits; an empty range counts as zero.
fn parse_frac(bytes: &[u8], from: usize, to: usize) -> (r: Option<u64>)
    requires
        from <= to <= bytes@.len(),
        to - from <= 9,
    ensures
        match r {
            Some(v) => {
                &&& all_digits(bytes@.subrange(from as int, to as int))
                &&& v as int == dec_value(bytes@.subrange(from as int, to as int))
                &&& v < 1000000000
            },
            None => !all_digits(bytes@.subrange(from as int, to as int)),
        },
{
    let ghost s = bytes@.subrange(from as int, to as int);
    let mut acc: u64 = 0;
    let mut i = from;
    while i < to
        invariant
            from <= i <= to <= bytes@.len(),
            to - from <= 9,
            s == bytes@.subrange(from as int, to as int),
            all_digits(bytes@.subrange(from as int, i as int)),
            acc as int == dec_value(bytes@.subrange(from as int, i as int)),
            (acc as int) < pow10((i - from) as nat),
        decreases to - i,
    {
        let b = bytes[i];
        proof {
            assert(bytes@.subrange(from as int, (i + 1) as int).drop_last() =~= bytes@.subrange(
                from as int,
                i as int,
            ));
            assert(bytes@.subrange(from as int, (i + 1) as int).last() == b);
            reveal_with_fuel(pow10, 11);
            assert(pow10(((i + 1) - from) as nat) == 10 * pow10((i - from) as nat));
            assert(pow10((i - from) as nat) <= 100000000);
        }
        if b < 48 || b > 57 {
            proof {
                assert(s[i - from] == b);
                assert(!all_digits(s));
            }
            return None;
        }
        acc = acc * 10 + ((b - 48) as u64);
        i = i + 1;
    }
    proof {
        assert(bytes@.subrange(from as int, to as int) =~= s);
        reveal_with_fuel(pow10, 11);
        assert(pow10((to - from) as nat) <= 1000000000);
    }
    Some(acc)
}

/// Powers of ten as run-time values, up to `10^9`.
fn pow10_u64(k: usize) -> (r: u64)
    requires
        k <= 9,
    ensures
        r as int == pow10(k as nat),
        1 <= r <= 1000000000,
{
    proof {
        reveal_with_fuel(pow10, 11);
    }
    match k {
        0 => 1,
        1 => 10,
        2 => 100,
        3 => 1000,
        4 => 10000,
        5 => 100000,
        6 => 1000000,
        7 => 10000000,
        8 => 100000000,
        _ => 1000000000,
    }
}

/// Finds the first occurrence of `sep` within `bytes[from..to]`.
fn find_byte_in_range(bytes: &[u8], from: usize, to: usize, sep: u8) -> (r: Option<usize>)
    requires
        from <= to <= bytes@.len(),
    ensures
        match r {
            Some(j) => from <= j < to && find_from(
                bytes@.subrange(from as int, to as int),
                sep,
                0,
            ) == Some((j - from) as nat),
            None => find_from(bytes@.subrange(from as int, to as int), sep, 0) is None,
        },
{
    let ghost s = bytes@.subrange(from as int, to as int);
    let mut i = from;
    while i < to
        invariant
            from <= i <= to <= bytes@.len(),
            s == bytes@.subrange(from as int, to as int),
            find_from(s, sep, (i - from) as nat) == find_from(s, sep, 0),
        decreases to - i,
    {
        if bytes[i] == sep {
            proof {
                assert(s[i - from] == sep);
            }
            return Some(i);
        }
        proof {
            assert(s[i - from] != sep);
        }
        i = i + 1;
    }
    None
}

/// Parses `bytes[from..to]` as a fixed-point plane coordinate.
fn parse_fixed_range(bytes: &[u8], from: usize, to: usize) -> (r: Option<i64>)
    requires
        from <= to <= bytes@.len(),
    ensures
        r == parse_fixed_spec(bytes@.subrange(from as int, to as int)),
        r matches Some(v) ==> -COORD_LIMIT <= v <= COORD_LIMIT,
{
    let ghost s = bytes@.subrange(from as int, to as int);
    if from == to {
        return None;
    }
    let first = bytes[from];
    let neg = first == 45;
    let start = if first == 45 || first == 43 {
        from + 1
    } else {
        from
    };
    let ghost body = bytes@.subrange(start as int, to as int);
    proof {
        if first == 45 || first == 43 {
            assert(s.subrange(1, s.len() as int) =~= body);
        } else {
            assert(s =~= body);
        }
    }
    let dot = find_byte_in_range(bytes, start, to, 46);
    let int_end = match dot {
        Some(j) => j,
        None => to,
    };
    let frac_start = match dot {
        Some(j) => j + 1,
        None => to,
    };
    let ghost int_part = bytes@.subrange(start as int, int_end as int);
    let ghost frac_part = bytes@.subrange(frac_start as int, to as int);
    proof {
        match dot {
            Some(j) => {
                assert(body.subrange(0, j - start) =~= int_part);
                assert(body.subrange(j - start + 1, body.len() as int) =~= frac_part);
            },
            None => {
                assert(body =~= int_part);
                assert(frac_part =~= Seq::<u8>::empty());
            },
        }
        assert(parse_fixed_spec(s) == fixed_of_parts(neg, int_part, frac_part));
    }
    let units = match parse_units(bytes, start, int_end) {
        Some(v) => v,
        None => {
            proof {
                if int_part.len() > 0 && all_digits(int_part) && all_digits(frac_part) {
                    lemma_dec_value_bound(frac_part);
                    lemma_fixed_units_too_big(
                        dec_value(int_part),
                        dec_value(frac_part),
                        frac_part.len(),
                    );
                }
            }
            return None;
        },
    };
    if to - frac_start > 9 {
        return None;
    }
    let frac = match parse_frac(bytes, frac_start, to) {
        Some(v) => v,
        None => {
            return None;
        },
    };
    proof {
        lemma_find_none_when_digits(frac_part, 46, 0);
    }
    let p = pow10_u64(to - frac_start);
    proof {
        assert((units as int) * (p as int) + (frac as int) <= 1048576 * 1000000000 + 1000000000
            && 0 <= (units as int) * (p as int)) by (nonlinear_arith)
            requires
                0 <= (units as int) <= 1048576,
                1 <= (p as int) <= 1000000000,
                0 <= (frac as int) < 1000000000,
        ;
    }
    let num: u64 = units * p + frac;
    proof {
        assert((num as int) * (SCALE as int) <= 1048577000000000 * 4294967296 && 0 <= (num
            as int) * (SCALE as int)) by (nonlinear_arith)
            requires
                0 <= (num as int) <= 1048577000000000,
                SCALE as int == 4294967296,
        ;
    }
    let scaled: u128 = (num as u128) * (SCALE as u128);
    let bits: u128 = scaled / (p as u128);
    if bits > COORD_LIMIT as u128 {
        return None;
    }
    let magnitude = bits as i64;
    if neg {
        Some(-magnitude)
    } else {
        Some(magnitude)
    }
}

/// What parsing `s` as a separated pair of fixed-point coordinates
/// yields.
pub open spec fn parse_fixed_pair_spec(s: Seq<u8>, sep: u8) -> Option<(i64, i64)> {
    match find_from(s, sep, 0) {
        None => None,
        Some(i) => match (
            parse_fixed_spec(s.subrange(0, i as int)),
            parse_fixed_spec(s.subrange(i as int + 1, s.len() as int)),
        ) {
            (Some(l), Some(r)) => Some((l, r)),
            _ => None,
        },
    }
}

/// Parses the string `s` as a pair of fixed-point coordinates, like
/// `"0.5x1.5"`: the text left and right of the first `separator` must
/// each be a decimal coordinate.  `separator` must be an ASCII
/// character.
pub fn parse_fixed_pair(s: &str, separator: char) -> (r: Option<(i64, i64)>)
    requires
        (separator as u32) < 128,
    ensures
        r == parse_fixed_pair_spec(s.spec_bytes(), ((separator as u32) as u8)),
{
    let sep: u8 = (separator as u32) as u8;
    let bytes = s.as_bytes();
    match find_byte(bytes, sep) {
        None => None,
        Some(idx) => {
            let n = bytes.len();
            let left = parse_fixed_range(bytes, 0, idx);
            let right = parse_fixed_range(bytes, idx + 1, n);
            match (left, right) {
                (Some(l), Some(r)) => Some((l, r)),
                _ => None,
            }
        },
    }
}

/// Parses the string `s` as a complex plane point, like `"-1.2,0.35"`:
/// two fixed-point coordinates separated by a comma.  A successfully
/// parsed point always lies within the renderer's coordinate range.
pub fn parse_complex(s: &str) -> (r: Option<Complex>)
    ensures
        r == parse_complex_spec(s.spec_bytes()),
        r matches Some(c) ==> complex_ok(c),
{
    let bytes = s.as_bytes();
    match find_byte(bytes, 44) {
        None => None,
        Some(idx) => {
            let n = bytes.len();
            let re = parse_fixed_range(bytes, 0, idx);
            let im = parse_fixed_range(bytes, idx + 1, n);
            match (re, im) {
                (Some(re), Some(im)) => Some(Complex { re, im }),
                _ => None,
            }
        },
    }
}

/// Parses the string `s` as an unsigned 64-bit decimal number, with an
/// optional leading `+`.
pub fn parse_u64(s: &str) -> (r: Option<u64>)
    ensures
        r == parse_u64_spec(s.spec_bytes()),
{
    let bytes = s.as_bytes();
    let to = bytes.len();
    let ghost sv = bytes@;
    if to == 0 {
        return None;
    }
    let start = if bytes[0] == 43 {
        1
    } else {
        0
    };
    let ghost mag = bytes@.subrange(start as int, to as int);
    proof {
        if sv[0] == 43 {
            assert(sv.subrange(1, sv.len() as int) =~= mag);
        } else {
            assert(sv =~= mag);
        }
    }
    if start == to {
        return None;
    }
    let mut acc: u64 = 0;
    let mut i = start;
    while i < to
        invariant
            start <= i <= to == bytes@.len(),
            sv == bytes@,
            sv == s.spec_bytes(),
            sv.len() > 0,
            mag == bytes@.subrange(start as int, to as int),
            mag == (if sv[0] == 43 {
                sv.subrange(1, sv.len() as int)
            } else {
                sv
            }),
            mag.len() > 0,
            all_digits(bytes@.subrange(start as int, i as int)),
            acc as int == dec_value(bytes@.subrange(start as int, i as int)),
        decreases to - i,
    {
        let b = bytes[i];
        proof {
            assert(bytes@.subrange(start as int, (i + 1) as int).drop_last() =~= bytes@.subrange(
                start as int,
                i as int,
            ));
            assert(bytes@.subrange(start as int, (i + 1) as int).last() == b);
        }
        if b < 48 || b > 57 {
            proof {
                assert(mag[i - start] == b);
                assert(!all_digits(mag));
            }
            return None;
        }
        let d = (b - 48) as u64;
        let stepped = match acc.checked_mul(10) {
            Some(t) => t.checked_add(d),
            None => None,
        };
        match stepped {
            Some(next) => {
                acc = next;
            },
            None => {
                proof {
                    let grown = bytes@.subrange(start as int, (i + 1) as int);
                    assert(dec_value(grown) > u64::MAX as int);
                    if all_digits(mag) {
                        lemma_dec_value_prefix(mag, i + 1 - start);
                        assert(mag.subrange(0, i + 1 - start) =~= grown);
                    }
                }
                return None;
            },
        }
        i = i + 1;
    }
    proof {
        assert(bytes@.subrange(start as int, to as int) =~= mag);
    }
    Some(acc)
}

/// Parses the string `s` as a pair of integers, like `"400x600"`:
/// the text left and right of the first `separator` must each be a
/// signed decimal number that fits an `i64`.  `separator` must be an
/// ASCII character.
pub fn parse_pair(s: &str, separator: char) -> (r: Option<(i64, i64)>)
    requires
        (separator as u32) < 128,
    ensures
        r == parse_pair_spec(s.spec_bytes(), ((separator as u32) as u8)),
{
    let sep: u8 = (separator as u32) as u8;
    let bytes = s.as_bytes();
    match find_byte(bytes, sep) {
        None => None,
        Some(idx) => {
            let n = bytes.len();
            let left = parse_i64_range(bytes, 0, idx);
            let right = parse_i64_range(bytes, idx + 1, n);
            match (left, right) {
                (Some(l), Some(r)) => Some((l, r)),
                _ => None,
            }
        },
    }
}

} // verus!
