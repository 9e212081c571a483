//! Decimal rendering of unsigned integers, and its inverse.

use vstd::prelude::*;
use crate::hex::is_dec_digit;

verus! {

/// The ASCII digit for a value below ten.
pub open spec fn spec_dec_digit(n: nat) -> u8
    recommends
        n < 10,
{
    (0x30 + n) as u8
}

/// The decimal rendering of a number: most significant digit first, a single
/// `0` for zero, no leading zeros otherwise.
pub open spec fn dec_digits(n: nat) -> Seq<u8>
    decreases n,
{
    if n < 10 {
        seq![spec_dec_digit(n)]
    } else {
        dec_digits(n / 10) + seq![spec_dec_digit(n % 10)]
    }
}

/// The number a sequence of decimal digits denotes.
pub open spec fn dec_value(s: Seq<u8>) -> nat
    recommends
        forall|i: int| 0 <= i < s.len() ==> is_dec_digit(s[i]),
    decreases s.len(),
{
    if s.len() == 0 {
        0
    } else {
        (dec_value(s.drop_last()) * 10 + (s.last() - 0x30)) as nat
    }
}

pub proof fn lemma_dec_digits_are_digits(n: nat)
    ensures
        dec_digits(n).len() > 0,
        forall|i: int| 0 <= i < dec_digits(n).len() ==> is_dec_digit(#[trigger] dec_digits(n)[i]),
    decreases n,
{
    if n >= 10 {
        lemma_dec_digits_are_digits(n / 10);
        assert forall|i: int| 0 <= i < dec_digits(n).len() implies is_dec_digit(
            #[trigger] dec_digits(n)[i],
        ) by {
            if i < dec_digits(n / 10).len() {
                assert(dec_digits(n)[i] == dec_digits(n / 10)[i]);
            }
        }
    }
}

/// Decimal rendering round-trips: the digits of `n` denote `n`.
pub proof fn lemma_dec_value_of_digits(n: nat)
    ensures
        dec_value(dec_digits(n)) == n,
    decreases n,
{
    if n < 10 {
        assert(dec_digits(n).drop_last() =~= Seq::<u8>::empty());
        assert(dec_value(Seq::<u8>::empty()) == 0);
        assert(dec_digits(n).last() == spec_dec_digit(n));
    } else {
        lemma_dec_value_of_digits(n / 10);
        assert(dec_digits(n).drop_last() =~= dec_digits(n / 10));
        assert(dec_digits(n).last() == spec_dec_digit(n % 10));
        assert((n / 10) * 10 + n % 10 == n) by {
            vstd::arithmetic::div_mod::lemma_fundamental_div_mod(n as int, 10);
        }
    }
}

/// The decimal rendering of a number, as bytes of ASCII text.
pub fn decimal_bytes(n: u64) -> (r: Vec<u8>)
    ensures
        r@ == dec_digits(n as nat),
{
    let mut out: Vec<u8> = Vec::new();
    let mut m: u64 = n;
    proof {
        assert(dec_digits(n as nat) =~= dec_digits(m as nat) + out@);
    }
    while m >= 10
        invariant
            dec_digits(n as nat) == dec_digits(m as nat) + out@,
        decreases m,
    {
        let ghost prev = out@;
        let ghost prev_m = m as nat;
        let d: u8 = 0x30 + (m % 10) as u8;
        out.insert(0, d);
        m = m / 10;
        proof {
            assert(out@ =~= seq![d] + prev);
            assert(d == spec_dec_digit(prev_m % 10));
            assert(dec_digits(prev_m) =~= dec_digits(m as nat) + seq![d]);
            assert(dec_digits(n as nat) =~= dec_digits(m as nat) + out@);
        }
    }
    let ghost prev = out@;
    let d: u8 = 0x30 + (m % 10) as u8;
    out.insert(0, d);
    proof {
        assert(m % 10 == m as nat);
        assert(dec_digits(m as nat) =~= seq![d]);
        assert(out@ =~= seq![d] + prev);
        assert(out@ =~= dec_digits(n as nat));
    }
    out
}

} // verus!
