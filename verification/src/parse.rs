//! A reading of the rendered block-hash JSON, and the round-trip law: the
//! JSON text parses back to exactly the entries it was rendered from.

use vstd::prelude::*;
use crate::blockhash::{block_hashes_json, block_hashes_pairs};
use crate::dec::{dec_digits, dec_value, lemma_dec_digits_are_digits, lemma_dec_value_of_digits};
use crate::hex::{
    hex_digits, hex_literal, is_dec_digit, is_hex_char, lemma_hex_digits_are_hex,
    lemma_hex_digits_len, lemma_unhex_hex_digits, unhex,
};
use crate::json::{entry_text, object_body, quoted};

verus! {

/// The opening of a non-empty pretty-printed object: `{` and a line break.
pub open spec fn open_text() -> Seq<u8> {
    seq![0x7bu8, 0x0au8]
}

/// The closing of a non-empty pretty-printed object: a line break and `}`.
pub open spec fn close_text() -> Seq<u8> {
    seq![0x0au8, 0x7du8]
}

/// The separator between two entries: `,` and a line break.
pub open spec fn separator_text() -> Seq<u8> {
    seq![0x2cu8, 0x0au8]
}

/// The empty object: `{}`.
pub open spec fn empty_object_text() -> Seq<u8> {
    seq![0x7bu8, 0x7du8]
}

/// What opens every entry line: two spaces and the key's opening quote.
pub open spec fn entry_lead() -> Seq<u8> {
    seq![0x20u8, 0x20u8, 0x22u8]
}

/// What stands between a block-hash key and its hash digits: the key's
/// closing quote, a colon, a space, the value's opening quote, `0` and `x`.
pub open spec fn key_value_mid() -> Seq<u8> {
    seq![0x22u8, 0x3au8, 0x20u8, 0x22u8, 0x30u8, 0x78u8]
}

pub open spec fn begins_with(s: Seq<u8>, prefix: Seq<u8>) -> bool {
    prefix.len() <= s.len() && s.take(prefix.len() as int) == prefix
}

/// How many decimal digits open the text.
pub open spec fn leading_dec_len(s: Seq<u8>) -> nat
    decreases s.len(),
{
    if s.len() == 0 || !is_dec_digit(s[0]) {
        0
    } else {
        1 + leading_dec_len(s.drop_first())
    }
}

/// How many lowercase hexadecimal digits open the text.
pub open spec fn leading_hex_len(s: Seq<u8>) -> nat
    decreases s.len(),
{
    if s.len() == 0 || !is_hex_char(s[0]) {
        0
    } else {
        1 + leading_hex_len(s.drop_first())
    }
}

pub proof fn lemma_leading_dec_len_bound(s: Seq<u8>)
    ensures
        leading_dec_len(s) <= s.len(),
    decreases s.len(),
{
    if s.len() > 0 && is_dec_digit(s[0]) {
        lemma_leading_dec_len_bound(s.drop_first());
    }
}

pub proof fn lemma_leading_hex_len_bound(s: Seq<u8>)
    ensures
        leading_hex_len(s) <= s.len(),
    decreases s.len(),
{
    if s.len() > 0 && is_hex_char(s[0]) {
        lemma_leading_hex_len_bound(s.drop_first());
    }
}

/// A run of decimal digits followed by a non-digit opens with exactly that run.
pub proof fn lemma_leading_dec_of_digits(a: Seq<u8>, b: Seq<u8>)
    requires
        forall|i: int| 0 <= i < a.len() ==> is_dec_digit(#[trigger] a[i]),
        b.len() > 0,
        !is_dec_digit(b[0]),
    ensures
        leading_dec_len(a + b) == a.len(),
    decreases a.len(),
{
    if a.len() == 0 {
        assert(a + b =~= b);
    } else {
        assert((a + b)[0] == a[0]);
        assert((a + b).drop_first() =~= a.drop_first() + b);
        assert(forall|i: int|
            0 <= i < a.drop_first().len() ==> is_dec_digit(#[trigger] a.drop_first()[i]));
        lemma_leading_dec_of_digits(a.drop_first(), b);
    }
}

/// A run of hexadecimal digits followed by a non-digit opens with exactly
/// that run.
pub proof fn lemma_leading_hex_of_digits(a: Seq<u8>, b: Seq<u8>)
    requires
        forall|i: int| 0 <= i < a.len() ==> is_hex_char(#[trigger] a[i]),
        b.len() > 0,
        !is_hex_char(b[0]),
    ensures
        leading_hex_len(a + b) == a.len(),
    decreases a.len(),
{
    if a.len() == 0 {
        assert(a + b =~= b);
    } else {
        assert((a + b)[0] == a[0]);
        assert((a + b).drop_first() =~= a.drop_first() + b);
        assert(forall|i: int|
            0 <= i < a.drop_first().len() ==> is_hex_char(#[trigger] a.drop_first()[i]));
        lemma_leading_hex_of_digits(a.drop_first(), b);
    }
}

/// Reads the entry lines of a rendered block-hash object, from the text that
/// follows the opening brace through the closing brace: decimal keys between
/// quotes, `0x`-prefixed hexadecimal values between quotes, entries joined by
/// a comma and a line break.
pub open spec fn parse_entries(s: Seq<u8>) -> Option<Seq<(u64, Seq<u8>)>>
    decreases s.len(),
    via parse_entries_decreases
{
    if !begins_with(s, entry_lead()) {
        None
    } else {
        let after_lead = s.skip(3);
        let key_len = leading_dec_len(after_lead) as int;
        if key_len == 0 {
            None
        } else {
            let key = after_lead.take(key_len);
            let after_key = after_lead.skip(key_len);
            if dec_value(key) >= 0x1_0000_0000_0000_0000 {
                None
            } else if !begins_with(after_key, key_value_mid()) {
                None
            } else {
                let after_mid = after_key.skip(6);
                let hex_len = leading_hex_len(after_mid) as int;
                if hex_len % 2 != 0 {
                    None
                } else {
                    let hex_text = after_mid.take(hex_len);
                    let after_hex = after_mid.skip(hex_len);
                    if !begins_with(after_hex, seq![0x22u8]) {
                        None
                    } else {
                        let tail = after_hex.skip(1);
                        let entry = (dec_value(key) as u64, unhex(hex_text));
                        if tail == close_text() {
                            Some(seq![entry])
                        } else if begins_with(tail, separator_text()) {
                            match parse_entries(tail.skip(2)) {
                                Some(rest) => Some(seq![entry] + rest),
                                None => None,
                            }
                        } else {
                            None
                        }
                    }
                }
            }
        }
    }
}

#[via_fn]
proof fn parse_entries_decreases(s: Seq<u8>) {
    if begins_with(s, entry_lead()) {
        let after_lead = s.skip(3);
        lemma_leading_dec_len_bound(after_lead);
        let key_len = leading_dec_len(after_lead) as int;
        if key_len > 0 {
            let after_key = after_lead.skip(key_len);
            if begins_with(after_key, key_value_mid()) {
                lemma_leading_hex_len_bound(after_key.skip(6));
            }
        }
    }
}

/// Reads a rendered block-hash object back into its entries: the empty
/// object, or an opening brace followed by entry lines.
pub open spec fn parse_block_hashes_json(s: Seq<u8>) -> Option<Seq<(u64, Seq<u8>)>> {
    if s == empty_object_text() {
        Some(Seq::empty())
    } else if begins_with(s, open_text()) {
        parse_entries(s.skip(2))
    } else {
        None
    }
}

#[verifier::rlimit(50)]
proof fn lemma_parse_body(entries: Seq<(u64, Seq<u8>)>)
    requires
        entries.len() > 0,
    ensures
        parse_entries(object_body(block_hashes_pairs(entries)) + close_text()) == Some(entries),
    decreases entries.len(),
{
    let pairs = block_hashes_pairs(entries);
    let k = entries[0].0;
    let v = entries[0].1;
    let key_txt = dec_digits(k as nat);
    let hex_txt = hex_digits(v);
    let tail: Seq<u8> = if entries.len() == 1 {
        close_text()
    } else {
        separator_text() + object_body(block_hashes_pairs(entries.drop_first())) + close_text()
    };
    let s = object_body(pairs) + close_text();

    assert(pairs[0] == (key_txt, quoted(hex_literal(v))));
    if entries.len() > 1 {
        assert(pairs.drop_first() =~= block_hashes_pairs(entries.drop_first()));
    }
    assert(entry_text(pairs[0].0, pairs[0].1) =~= entry_lead() + key_txt + key_value_mid()
        + hex_txt + seq![0x22u8]);
    assert(s =~= entry_lead() + key_txt + key_value_mid() + hex_txt + seq![0x22u8] + tail);

    let rest1 = key_txt + key_value_mid() + hex_txt + seq![0x22u8] + tail;
    assert(begins_with(s, entry_lead())) by {
        assert(s.take(3) =~= entry_lead());
    }
    assert(s.skip(3) =~= rest1);

    lemma_dec_digits_are_digits(k as nat);
    assert(rest1 =~= key_txt + (key_value_mid() + hex_txt + seq![0x22u8] + tail));
    lemma_leading_dec_of_digits(key_txt, key_value_mid() + hex_txt + seq![0x22u8] + tail);
    let key_len = leading_dec_len(rest1) as int;
    assert(key_len == key_txt.len());
    assert(rest1.take(key_len) =~= key_txt);
    lemma_dec_value_of_digits(k as nat);
    assert(dec_value(rest1.take(key_len)) == k as nat);

    let after_key = rest1.skip(key_len);
    assert(after_key =~= key_value_mid() + hex_txt + seq![0x22u8] + tail);
    assert(begins_with(after_key, key_value_mid())) by {
        assert(after_key.take(6) =~= key_value_mid());
    }
    let after_mid = after_key.skip(6);
    assert(after_mid =~= hex_txt + seq![0x22u8] + tail);

    lemma_hex_digits_are_hex(v);
    lemma_hex_digits_len(v);
    assert(after_mid =~= hex_txt + (seq![0x22u8] + tail));
    lemma_leading_hex_of_digits(hex_txt, seq![0x22u8] + tail);
    let hex_len = leading_hex_len(after_mid) as int;
    assert(hex_len == hex_txt.len());
    assert(hex_len % 2 == 0);
    assert(after_mid.take(hex_len) =~= hex_txt);
    lemma_unhex_hex_digits(v);
    assert(unhex(after_mid.take(hex_len)) == v);

    let after_hex = after_mid.skip(hex_len);
    assert(after_hex =~= seq![0x22u8] + tail);
    assert(begins_with(after_hex, seq![0x22u8])) by {
        assert(after_hex.take(1) =~= seq![0x22u8]);
    }
    assert(after_hex.skip(1) =~= tail);

    if entries.len() == 1 {
        assert(parse_entries(s) == Some(seq![(k, v)]));
        assert(seq![(k, v)] =~= entries);
    } else {
        assert(tail[0] == 0x2c);
        assert(tail != close_text());
        assert(begins_with(tail, separator_text())) by {
            assert(tail.take(2) =~= separator_text());
        }
        assert(tail.skip(2) =~= object_body(block_hashes_pairs(entries.drop_first()))
            + close_text());
        lemma_parse_body(entries.drop_first());
        assert(parse_entries(s) == Some(seq![(k, v)] + entries.drop_first()));
        assert(seq![(k, v)] + entries.drop_first() =~= entries);
    }
}

/// Round trip: the rendered block-hash JSON parses back to exactly the
/// entries it was rendered from — each decimal key re-parses to its block
/// number and each hexadecimal value re-decodes to its hash bytes, entry for
/// entry and in the same order.
pub proof fn lemma_block_hashes_round_trip(entries: Seq<(u64, Seq<u8>)>)
    ensures
        parse_block_hashes_json(block_hashes_json(entries)) == Some(entries),
{
    let pairs = block_hashes_pairs(entries);
    let s = block_hashes_json(entries);
    if entries.len() == 0 {
        assert(s == empty_object_text());
        assert(entries =~= Seq::<(u64, Seq<u8>)>::empty());
    } else {
        assert(s =~= open_text() + (object_body(pairs) + close_text()));
        assert(s[1] == 0x0a);
        assert(s != empty_object_text());
        assert(begins_with(s, open_text())) by {
            assert(s.take(2) =~= open_text());
        }
        assert(s.skip(2) =~= object_body(pairs) + close_text());
        lemma_parse_body(entries);
    }
}

} // verus!
