//! Lowercase hexadecimal rendering of byte sequences, and its inverse.

use vstd::prelude::*;

verus! {

/// A byte of ASCII text that is a decimal digit.
pub open spec fn is_dec_digit(b: u8) -> bool {
    0x30 <= b && b <= 0x39
}

/// A byte of ASCII text that is a lowercase hexadecimal digit.
pub open spec fn is_hex_char(b: u8) -> bool {
    is_dec_digit(b) || (0x61 <= b && b <= 0x66)
}

/// The lowercase hexadecimal digit for a nibble.
pub open spec fn spec_hex_digit(n: u8) -> u8
    recommends
        n < 16,
{
    if n < 10 {
        (0x30 + n) as u8
    } else {
        (0x61 + (n - 10)) as u8
    }
}

/// The value of a lowercase hexadecimal digit.
pub open spec fn hex_char_value(b: u8) -> u8
    recommends
        is_hex_char(b),
{
    if b <= 0x39 {
        (b - 0x30) as u8
    } else {
        ((b - 0x61) + 10) as u8
    }
}

/// The two lowercase hexadecimal digits of one byte, high nibble first.
pub open spec fn hex_pair(b: u8) -> Seq<u8> {
    seq![spec_hex_digit(b / 16), spec_hex_digit(b % 16)]
}

/// The lowercase hexadecimal rendering of a byte sequence: two digits per byte.
pub open spec fn hex_digits(s: Seq<u8>) -> Seq<u8>
    decreases s.len(),
{
    if s.len() == 0 {
        Seq::empty()
    } else {
        hex_pair(s[0]) + hex_digits(s.drop_first())
    }
}

/// The canonical `0x`-prefixed lowercase hexadecimal literal for a byte sequence.
pub open spec fn hex_literal(s: Seq<u8>) -> Seq<u8> {
    seq![0x30u8, 0x78u8] + hex_digits(s)
}

/// Decoding of lowercase hexadecimal text: one byte out of every two digits.
pub open spec fn unhex(s: Seq<u8>) -> Seq<u8>
    recommends
        s.len() % 2 == 0,
    decreases s.len(),
{
    if s.len() < 2 {
        Seq::empty()
    } else {
        seq![(hex_char_value(s[0]) * 16 + hex_char_value(s[1])) as u8] + unhex(s.skip(2))
    }
}

/// A nibble's hexadecimal digit is itself a hexadecimal digit, and carries
/// the nibble's value.
pub proof fn lemma_hex_digit_inverts(n: u8)
    requires
        n < 16,
    ensures
        is_hex_char(spec_hex_digit(n)),
        hex_char_value(spec_hex_digit(n)) == n,
{
}

pub proof fn lemma_hex_digits_len(s: Seq<u8>)
    ensures
        hex_digits(s).len() == 2 * s.len(),
    decreases s.len(),
{
    if s.len() > 0 {
        lemma_hex_digits_len(s.drop_first());
    }
}

pub proof fn lemma_hex_digits_are_hex(s: Seq<u8>)
    ensures
        forall|i: int| 0 <= i < hex_digits(s).len() ==> is_hex_char(#[trigger] hex_digits(s)[i]),
    decreases s.len(),
{
    if s.len() > 0 {
        lemma_hex_digits_are_hex(s.drop_first());
        lemma_hex_digit_inverts(s[0] / 16);
        lemma_hex_digit_inverts(s[0] % 16);
        assert forall|i: int| 0 <= i < hex_digits(s).len() implies is_hex_char(
            #[trigger] hex_digits(s)[i],
        ) by {
            if i >= 2 {
                assert(hex_digits(s)[i] == hex_digits(s.drop_first())[i - 2]);
            }
        }
    }
}

/// Hexadecimal rendering round-trips: decoding the digits of `s` gives `s` back.
pub proof fn lemma_unhex_hex_digits(s: Seq<u8>)
    ensures
        unhex(hex_digits(s)) == s,
    decreases s.len(),
{
    if s.len() == 0 {
        assert(unhex(hex_digits(s)) =~= s);
    } else {
        lemma_unhex_hex_digits(s.drop_first());
        lemma_hex_digit_inverts(s[0] / 16);
        lemma_hex_digit_inverts(s[0] % 16);
        lemma_hex_digits_len(s.drop_first());
        assert(hex_digits(s).skip(2) =~= hex_digits(s.drop_first()));
        assert((s[0] / 16) * 16 + (s[0] % 16) == s[0]) by {
            vstd::arithmetic::div_mod::lemma_fundamental_div_mod(s[0] as int, 16);
        }
        assert(unhex(hex_digits(s)) =~= s);
    }
}

/// Appending one byte appends its two digits.
pub proof fn lemma_hex_digits_snoc(s: Seq<u8>, b: u8)
    ensures
        hex_digits(s.push(b)) == hex_digits(s) + hex_pair(b),
    decreases s.len(),
{
    if s.len() == 0 {
        assert(s.push(b).drop_first() =~= Seq::<u8>::empty());
        assert(hex_digits(Seq::<u8>::empty()) =~= Seq::<u8>::empty());
        assert(s.push(b)[0] == b);
        assert(hex_digits(s.push(b)) =~= hex_digits(s) + hex_pair(b));
    } else {
        assert(s.push(b).drop_first() =~= s.drop_first().push(b));
        lemma_hex_digits_snoc(s.drop_first(), b);
        assert(s.push(b)[0] == s[0]);
        assert(hex_digits(s.push(b)) =~= hex_digits(s) + hex_pair(b));
    }
}

/// The lowercase hexadecimal digit for a nibble, as a byte of ASCII text.
pub fn hex_digit(n: u8) -> (r: u8)
    requires
        n < 16,
    ensures
        r == spec_hex_digit(n),
{
    if n < 10 {
        0x30 + n
    } else {
        0x61 + (n - 10)
    }
}

/// The `0x`-prefixed lowercase hexadecimal literal for the given bytes.
pub fn hex_literal_bytes(bytes: &Vec<u8>) -> (r: Vec<u8>)
    ensures
        r@ == hex_literal(bytes@),
{
    let mut out: Vec<u8> = Vec::new();
    out.push(0x30);
    out.push(0x78);
    proof {
        assert(out@ =~= seq![0x30u8, 0x78u8] + hex_digits(bytes@.take(0)));
    }
    let mut i: usize = 0;
    while i < bytes.len()
        invariant
            i <= bytes.len(),
            out@ == seq![0x30u8, 0x78u8] + hex_digits(bytes@.take(i as int)),
        decreases bytes.len() - i,
    {
        let b = bytes[i];
        out.push(hex_digit(b / 16));
        out.push(hex_digit(b % 16));
        proof {
            lemma_hex_digits_snoc(bytes@.take(i as int), bytes@[i as int]);
            assert(bytes@.take(i as int + 1) =~= bytes@.take(i as int).push(bytes@[i as int]));
            assert(out@ =~= seq![0x30u8, 0x78u8] + hex_digits(bytes@.take(i as int + 1)));
        }
        i += 1;
    }
    proof {
        assert(bytes@.take(bytes@.len() as int) =~= bytes@);
    }
    out
}

} // verus!
