//! Euclid's algorithm and the text of the greatest-common-divisor form.

use vstd::prelude::*;
use vstd::arithmetic::div_mod::lemma_small_mod;
use crate::numfmt::{dec_chars, u64_to_string};

verus! {

/// The greatest common divisor by Euclid's recursion.
pub open spec fn gcd_spec(a: nat, b: nat) -> nat
    decreases b,
{
    if b == 0 {
        a
    } else {
        gcd_spec(b, a % b)
    }
}

/// The recursion is symmetric in its arguments.
proof fn lemma_gcd_comm(a: nat, b: nat)
    ensures
        gcd_spec(a, b) == gcd_spec(b, a),
{
    if a < b {
        lemma_small_mod(a, b);
    } else if b < a {
        lemma_small_mod(b, a);
    }
}

/// Computes the greatest common divisor of two nonzero numbers by
/// Euclid's algorithm; the result is never zero.
pub fn gcd(n: u64, m: u64) -> (r: u64)
    requires
        n != 0,
        m != 0,
    ensures
        r == gcd_spec(n as nat, m as nat),
        r != 0,
{
    let mut a = n;
    let mut b = m;
    while b != 0
        invariant
            a >= 1,
            gcd_spec(a as nat, b as nat) == gcd_spec(n as nat, m as nat),
        decreases b,
    {
        if b < a {
            proof {
                lemma_gcd_comm(a as nat, b as nat);
            }
            let t = b;
            b = a;
            a = t;
        }
        proof {
            lemma_gcd_comm(a as nat, b as nat);
        }
        b = b % a;
    }
    a
}

/// The running divisor of a nonempty list: its first element folded
/// with each later element through `gcd_spec`.
pub open spec fn gcd_fold(s: Seq<u64>) -> nat
    decreases s.len(),
{
    if s.len() <= 1 {
        s[0] as nat
    } else {
        gcd_spec(gcd_fold(s.drop_last()), s.last() as nat)
    }
}

/// Folds `gcd` over a whole list of nonzero numbers, first to last.
pub fn gcd_of_all(numbers: &Vec<u64>) -> (r: u64)
    requires
        numbers.len() >= 1,
        forall|i: int| 0 <= i < numbers@.len() ==> numbers@[i] != 0,
    ensures
        r as nat == gcd_fold(numbers@),
        r != 0,
{
    let mut d = numbers[0];
    let mut i: usize = 1;
    proof {
        assert(numbers@.subrange(0, 1).drop_last() =~= numbers@.subrange(0, 0));
    }
    while i < numbers.len()
        invariant
            1 <= i <= numbers@.len(),
            forall|j: int| 0 <= j < numbers@.len() ==> numbers@[j] != 0,
            d != 0,
            d as nat == gcd_fold(numbers@.subrange(0, i as int)),
        decreases numbers@.len() - i,
    {
        proof {
            assert(numbers@.subrange(0, i as int + 1).drop_last() =~= numbers@.subrange(
                0,
                i as int,
            ));
            assert(numbers@.subrange(0, i as int + 1).last() == numbers@[i as int]);
        }
        d = gcd(d, numbers[i]);
        i = i + 1;
    }
    proof {
        assert(numbers@.subrange(0, numbers@.len() as int) =~= numbers@);
    }
    d
}

/// The body of the reply to a greatest-common-divisor form post:
/// a refusal when either number is zero, otherwise a sentence naming
/// the two numbers and their greatest common divisor.
pub fn post_gcd_message(n: u64, m: u64) -> (r: Result<String, &'static str>)
    ensures
        r is Err <==> n == 0 || m == 0,
        r matches Err(e) ==> e@ == "Computing the GCD with zero is boring."@,
        r matches Ok(s) ==> s@ == "The greatest common divisor of the numbers "@ + dec_chars(
            n as nat,
        ) + " and "@ + dec_chars(m as nat) + " is <b>"@ + dec_chars(gcd_spec(n as nat, m as nat))
            + "</b>\n"@,
{
    if n == 0 || m == 0 {
        return Err("Computing the GCD with zero is boring.");
    }
    let d = gcd(n, m);
    let mut s = String::from_str("The greatest common divisor of the numbers ");
    s.append(u64_to_string(n).as_str());
    s.append(" and ");
    s.append(u64_to_string(m).as_str());
    s.append(" is <b>");
    s.append(u64_to_string(d).as_str());
    s.append("</b>\n");
    Ok(s)
}

} // verus!
