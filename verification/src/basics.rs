//! Small numeric exercises: vectors, sums, factorials, division with
//! errors, and string selection.

use vstd::prelude::*;
use vstd::string::StringSliceAdditionalSpecFns;
use crate::numfmt::{int_chars, i32_to_string};

verus! {

/// Builds the two-element vector `[10, 20]`.
pub fn build_vector() -> (v: Vec<i16>)
    ensures
        v@ =~= seq![10i16, 20i16],
{
    let mut v: Vec<i16> = Vec::new();
    v.push(10);
    v.push(20);
    v
}

/// Allocates a zero-filled grayscale buffer of `rows * cols` bytes.
pub fn new_pixel_buffer(rows: usize, cols: usize) -> (v: Vec<u8>)
    requires
        rows * cols <= usize::MAX,
    ensures
        v@.len() == rows * cols,
        forall|i: int| 0 <= i < v@.len() ==> v@[i] == 0u8,
{
    vec![0u8; rows * cols]
}

/// Doubles the value inside an `Option`, if any.
pub fn double(val: Option<i32>) -> (r: Option<i32>)
    requires
        val matches Some(v) ==> i32::MIN <= 2 * v <= i32::MAX,
    ensures
        match val {
            None => r is None,
            Some(v) => r == Some((2 * v) as i32),
        },
{
    match val {
        None => None,
        Some(v) => Some(v * 2),
    }
}

/// Sum of the first `n` elements of `s`.
pub open spec fn sum_prefix(s: Seq<i32>, n: int) -> int
    decreases n,
{
    if n <= 0 {
        0
    } else {
        sum_prefix(s, n - 1) + s[n - 1]
    }
}

/// Adds up a five-element array, left to right.  Every partial sum must
/// stay within the type's range.
pub fn sum_array(nums: [i32; 5]) -> (r: i32)
    requires
        forall|k: int| 0 <= k <= 5 ==> i32::MIN <= #[trigger] sum_prefix(nums@, k) <= i32::MAX,
    ensures
        r == sum_prefix(nums@, 5),
{
    let mut sum: i32 = 0;
    let mut i: usize = 0;
    while i < 5
        invariant
            i <= 5,
            sum == sum_prefix(nums@, i as int),
            forall|k: int| 0 <= k <= 5 ==> i32::MIN <= #[trigger] sum_prefix(nums@, k)
                <= i32::MAX,
        decreases 5 - i,
    {
        proof {
            assert(sum_prefix(nums@, i as int + 1) == sum_prefix(nums@, i as int)
                + nums@[i as int]);
        }
        sum = sum + nums[i];
        i = i + 1;
    }
    sum
}

/// The factorial, taken as 1 for every argument below 1.
pub open spec fn fact_spec(n: int) -> int
    decreases n,
{
    if n <= 0 {
        1
    } else {
        n * fact_spec(n - 1)
    }
}

/// Factorials are at least one.
proof fn lemma_fact_pos(n: int)
    ensures
        fact_spec(n) >= 1,
    decreases n,
{
    if n > 0 {
        lemma_fact_pos(n - 1);
        assert(n * fact_spec(n - 1) >= fact_spec(n - 1)) by (nonlinear_arith)
            requires
                n >= 1,
                fact_spec(n - 1) >= 1,
        ;
    }
}

/// Factorials grow with their argument.
proof fn lemma_fact_mono(i: int, j: int)
    requires
        i <= j,
    ensures
        fact_spec(i) <= fact_spec(j),
    decreases j - i,
{
    if i < j {
        lemma_fact_mono(i, j - 1);
        lemma_fact_pos(j - 1);
        if j > 0 {
            assert(j * fact_spec(j - 1) >= fact_spec(j - 1)) by (nonlinear_arith)
                requires
                    j >= 1,
                    fact_spec(j - 1) >= 1,
            ;
        }
    }
}

/// The largest factorial a 32-bit integer holds.
proof fn lemma_fact_twelve()
    ensures
        fact_spec(12) == 479001600,
{
    reveal_with_fuel(fact_spec, 14);
}

/// Computes `n!` by a running product; 479001600 is the largest
/// factorial a 32-bit integer holds, so `n` may not exceed 12.
/// Arguments below 1 yield 1, the empty product.
pub fn factorial(n: i32) -> (r: i32)
    requires
        n <= 12,
    ensures
        r == fact_spec(n as int),
{
    let mut res: i32 = 1;
    let mut i: i32 = 1;
    while i <= n
        invariant
            1 <= i <= if n < 1 {
                1int
            } else {
                n + 1
            },
            n <= 12,
            res == fact_spec(i - 1),
        decreases n + 1 - i,
    {
        proof {
            lemma_fact_pos(i - 1);
            lemma_fact_mono(i as int, 12);
            lemma_fact_twelve();
            assert(fact_spec(i as int) == i * fact_spec(i - 1));
            assert(i * fact_spec(i - 1) >= 1 && i * fact_spec(i - 1) == fact_spec(i - 1) * i)
                by (nonlinear_arith)
                requires
                    i >= 1,
                    fact_spec(i - 1) >= 1,
            ;
        }
        res = res * i;
        i = i + 1;
    }
    res
}

/// The factorial recursion as written step by step: zero maps to zero,
/// one to one, and each later value multiplies in its predecessor's
/// result.
pub open spec fn fact_rec_spec(n: int) -> int
    decreases n,
{
    if n <= 0 {
        0
    } else if n == 1 {
        1
    } else {
        n * fact_rec_spec(n - 1)
    }
}

/// From one upward, the step-by-step recursion agrees with the
/// factorial.
proof fn lemma_fact_rec_eq(n: int)
    requires
        n >= 1,
    ensures
        fact_rec_spec(n) == fact_spec(n),
    decreases n,
{
    if n > 1 {
        lemma_fact_rec_eq(n - 1);
    } else {
        reveal_with_fuel(fact_spec, 3);
    }
}

/// Computes the factorial by recursion, with zero mapped to zero.
/// As with `factorial`, arguments beyond 12 would overflow.
pub fn factorial_recursive(n: i32) -> (r: i32)
    requires
        0 <= n <= 12,
    ensures
        r == fact_rec_spec(n as int),
    decreases n,
{
    if n == 0 {
        return 0;
    }
    if n == 1 {
        return 1;
    }
    let prev = factorial_recursive(n - 1);
    proof {
        lemma_fact_rec_eq(n - 1);
        lemma_fact_pos(n - 1);
        lemma_fact_mono(n as int, 12);
        lemma_fact_twelve();
        lemma_fact_rec_eq(n as int);
    }
    n * prev
}

/// The fizzbuzz text of `i`: multiples of three say Fizz, multiples of
/// five say Buzz, multiples of both say FizzBuzz, and anything else is
/// its own decimal rendering.
pub open spec fn fizzbuzz_chars(i: int) -> Seq<char> {
    if i % 3 == 0 && i % 5 == 0 {
        "Fizz"@ + "Buzz"@
    } else if i % 3 == 0 {
        "Fizz"@
    } else if i % 5 == 0 {
        "Buzz"@
    } else {
        int_chars(i)
    }
}

/// Renders the fizzbuzz text of `i`.
#[verifier::rlimit(30)]
pub fn fizzbuzz(i: i32) -> (res: String)
    ensures
        res@ == fizzbuzz_chars(i as int),
{
    let mut res = String::new();
    if i % 3 == 0 {
        res.append("Fizz");
    }
    if i % 5 == 0 {
        res.append("Buzz");
    }
    if i % 3 != 0 && i % 5 != 0 {
        res.append(i32_to_string(i).as_str());
    }
    proof {
        assert(Seq::<char>::empty() + "Fizz"@ =~= "Fizz"@);
        assert(Seq::<char>::empty() + "Buzz"@ =~= "Buzz"@);
        assert(Seq::<char>::empty() + int_chars(i as int) =~= int_chars(i as int));
    }
    res
}

/// Truncating division, the semantics of the machine's division
/// operator: Euclidean division of a nonnegative dividend, and the
/// negated quotient of the negated dividend otherwise.
pub open spec fn div_trunc(a: int, b: int) -> int {
    if a >= 0 {
        a / b
    } else {
        -((-a) / b)
    }
}

/// A truncating 32-bit quotient stays within the 32-bit range, except
/// for the minimum value divided by minus one.
proof fn lemma_div_trunc_range(a: int, b: int)
    requires
        -0x80000000 <= a <= 0x7fffffff,
        -0x80000000 <= b <= 0x7fffffff,
        b != 0,
        !(a == -0x80000000 && b == -1),
    ensures
        -0x80000000 <= div_trunc(a, b) <= 0x7fffffff,
{
    let m = if a >= 0 {
        a
    } else {
        -a
    };
    if b > 0 {
        vstd::arithmetic::div_mod::lemma_div_pos_is_pos(m, b);
        vstd::arithmetic::div_mod::lemma_div_nonincreasing(m, b);
    } else {
        let q = m / b;
        let r = m % b;
        vstd::arithmetic::div_mod::lemma_fundamental_div_mod(m, b);
        assert(0 <= r < -b);
        assert(-m <= q <= 0) by (nonlinear_arith)
            requires
                m == b * q + r,
                0 <= r < -b,
                b <= -1,
                m >= 0,
        ;
        if a < 0 && m == 0x80000000 {
            assert(b <= -2);
            assert(-q <= 0x7fffffff) by (nonlinear_arith)
                requires
                    m == b * q + r,
                    0 <= r < -b,
                    b <= -2,
                    m == 0x80000000,
            ;
        }
    }
}

/// Divides `a` by an optional divisor: a missing divisor and a zero
/// divisor are reported as errors, anything else divides.  The one
/// quotient the type cannot hold — the minimum value divided by minus
/// one — is excluded.
pub fn divide(a: i32, b: Option<i32>) -> (r: Result<i32, String>)
    requires
        !(a == i32::MIN && b == Some(-1i32)),
    ensures
        r is Err <==> (b is None || b == Some(0i32)),
        b is None ==> (r matches Err(e) && e@ == "Divider required"@),
        b == Some(0i32) ==> (r matches Err(e) && e@ == "Dividing by zero"@),
        b matches Some(d) ==> d != 0 ==> (r matches Ok(v) && v == div_trunc(a as int, d as int)),
{
    match b {
        None => Err(String::from_str("Divider required")),
        Some(0) => Err(String::from_str("Dividing by zero")),
        Some(d) => {
            proof {
                lemma_div_trunc_range(a as int, d as int);
            }
            Ok(a / d)
        },
    }
}

/// Divides as `divide` does, then adds one to a successful quotient.
pub fn divide_and_add_one(a: i32, b: Option<i32>) -> (r: Result<i32, String>)
    requires
        !(a == i32::MIN && b == Some(-1i32)),
        b matches Some(d) ==> d != 0 ==> div_trunc(a as int, d as int) < i32::MAX,
    ensures
        r is Err <==> (b is None || b == Some(0i32)),
        b is None ==> (r matches Err(e) && e@ == "Divider required"@),
        b == Some(0i32) ==> (r matches Err(e) && e@ == "Dividing by zero"@),
        b matches Some(d) ==> d != 0 ==> (r matches Ok(v) && v == div_trunc(
            a as int,
            d as int,
        ) + 1),
{
    let res = match divide(a, b) {
        Ok(v) => v,
        Err(e) => {
            return Err(e);
        },
    };
    Ok(res + 1)
}

/// Picks the longer of two strings, measured in bytes; ties go to the
/// second.
pub fn longest<'s>(s1: &'s str, s2: &'s str) -> (r: &'s str)
    requires
        s1.spec_bytes().len() <= usize::MAX,
        s2.spec_bytes().len() <= usize::MAX,
    ensures
        r@ == (if s1.spec_bytes().len() > s2.spec_bytes().len() {
            s1@
        } else {
            s2@
        }),
{
    if s1.len() > s2.len() {
        return s1;
    }
    return s2;
}

/// The first ten values of the sequence in which each entry is the sum
/// of the entries three and two places before it, seeded with three
/// ones.
pub fn padovan_sequence() -> (v: Vec<i32>)
    ensures
        v@.len() == 10,
        v@[0] == 1 && v@[1] == 1 && v@[2] == 1,
        forall|k: int| 3 <= k < 10 ==> #[trigger] v@[k] == v@[k - 3] + v@[k - 2],
{
    let mut padovan: Vec<i32> = vec![1, 1, 1];
    let mut i: usize = 3;
    while i < 10
        invariant
            3 <= i <= 10,
            padovan@.len() == i,
            forall|k: int| 0 <= k < i ==> 1 <= #[trigger] padovan@[k] <= 1000,
            padovan@[0] == 1 && padovan@[1] == 1 && padovan@[2] == 1,
            forall|k: int| 3 <= k < i ==> #[trigger] padovan@[k] == padovan@[k - 3] + padovan@[k - 2],
        decreases 10 - i,
    {
        let next = padovan[i - 3] + padovan[i - 2];
        padovan.push(next);
        i = i + 1;
    }
    padovan
}

} // verus!
