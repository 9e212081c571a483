//! The block-hash converter: a binary-encoded ordered map of 64-bit block
//! numbers to 32-byte hashes, rewritten as a pretty-printed JSON object of
//! decimal keys and `0x`-prefixed lowercase hexadecimal values.

use vstd::prelude::*;
use crate::ConvertError;
use crate::dec::dec_digits;
use crate::hex::hex_literal;
use crate::json::{object_text, pair_views, quoted, quoted_bytes, render_object};

verus! {

/// The views of decoded map entries.
pub open spec fn entry_views(entries: Seq<(u64, Vec<u8>)>) -> Seq<(u64, Seq<u8>)> {
    entries.map_values(|e: (u64, Vec<u8>)| (e.0, e.1@))
}

/// What bincode finds in a block-hash payload: the entries of an ordered map
/// of 64-bit block numbers to 32-byte hashes, in ascending key order, or
/// nothing when the bytes do not decode as that schema.
pub uninterp spec fn decoded_block_hashes(data: Seq<u8>) -> Option<Seq<(u64, Seq<u8>)>>;

/// Relies on bincode's `deserialize` of an ordered `u64`-keyed map of
/// 32-byte values: whether and what it decodes is a function of the input
/// bytes alone, the map iterates its entries in strictly ascending key
/// order, and every value holds exactly 32 bytes.
#[verifier::external_body]
fn decode_block_hashes(data: &Vec<u8>) -> (r: Option<Vec<(u64, Vec<u8>)>>)
    ensures
        r is Some <==> decoded_block_hashes(data@) is Some,
        r matches Some(entries) ==> {
            &&& decoded_block_hashes(data@) == Some(entry_views(entries@))
            &&& forall|i: int, j: int|
                0 <= i < j < entries@.len() ==> entries@[i].0 < entries@[j].0
            &&& forall|i: int| 0 <= i < entries@.len() ==> (#[trigger] entries@[i].1)@.len() == 32
        },
{
    let map: std::collections::BTreeMap<u64, alloy_primitives::B256> =
        match bincode::deserialize(data.as_slice()) {
            Ok(map) => map,
            Err(_) => return None,
        };
    Some(map.into_iter().map(|kv: (u64, alloy_primitives::B256)| (kv.0, kv.1.0.to_vec())).collect())
}

/// The key and value texts of the block-hash JSON object: each block number
/// rendered in decimal, each hash as a quoted `0x`-prefixed lowercase
/// hexadecimal string.
pub open spec fn block_hashes_pairs(entries: Seq<(u64, Seq<u8>)>) -> Seq<(Seq<u8>, Seq<u8>)> {
    entries.map_values(|e: (u64, Seq<u8>)| (dec_digits(e.0 as nat), quoted(hex_literal(e.1))))
}

/// The block-hash JSON text for the given decoded entries.
pub open spec fn block_hashes_json(entries: Seq<(u64, Seq<u8>)>) -> Seq<u8> {
    object_text(block_hashes_pairs(entries))
}

/// Renders decoded block-hash entries as a pretty-printed JSON object,
/// keeping their order.
pub fn block_hashes_to_json(entries: &Vec<(u64, Vec<u8>)>) -> (r: Vec<u8>)
    ensures
        r@ == block_hashes_json(entry_views(entries@)),
{
    let mut pairs: Vec<(Vec<u8>, Vec<u8>)> = Vec::new();
    let mut i: usize = 0;
    while i < entries.len()
        invariant
            i <= entries.len(),
            pair_views(pairs@) == block_hashes_pairs(entry_views(entries@).take(i as int)),
        decreases entries.len() - i,
    {
        let ghost prev = pairs@;
        let key = crate::dec::decimal_bytes(entries[i].0);
        let hexlit = crate::hex::hex_literal_bytes(&entries[i].1);
        let value = quoted_bytes(&hexlit);
        pairs.push((key, value));
        proof {
            let views = entry_views(entries@);
            assert(views.take(i as int + 1) =~= views.take(i as int).push(views[i as int]));
            assert(views[i as int] == (entries@[i as int].0, entries@[i as int].1@));
            assert(block_hashes_pairs(views.take(i as int).push(views[i as int]))
                =~= block_hashes_pairs(views.take(i as int)).push(
                (dec_digits(views[i as int].0 as nat), quoted(hex_literal(views[i as int].1))),
            ));
            assert(pair_views(pairs@) =~= pair_views(prev).push((key@, value@)));
            assert(pair_views(pairs@) =~= block_hashes_pairs(views.take(i as int + 1)));
        }
        i += 1;
    }
    proof {
        assert(entry_views(entries@).take(entries@.len() as int) =~= entry_views(entries@));
    }
    render_object(&pairs)
}

/// Determinism: the rendered JSON is a function of the decoded entries
/// alone, so converting the same input twice — `convert_block_hashes` pins
/// its output to this rendering of what the bytes decode to — produces
/// byte-identical output.
pub proof fn lemma_block_hashes_deterministic(first: Seq<(u64, Seq<u8>)>, second: Seq<
    (u64, Seq<u8>),
>)
    requires
        first == second,
    ensures
        block_hashes_json(first) == block_hashes_json(second),
{
}

/// Order preservation: the rendered object holds one key per entry, and the
/// key at each position is that entry's block number in decimal — the JSON
/// key order is the input iteration order.
pub proof fn lemma_block_hashes_key_order(entries: Seq<(u64, Seq<u8>)>)
    ensures
        block_hashes_pairs(entries).len() == entries.len(),
        forall|i: int|
            0 <= i < entries.len() ==> (#[trigger] block_hashes_pairs(entries)[i]).0 == dec_digits(
                entries[i].0 as nat,
            ),
{
}

/// Converts a binary-encoded block-hash map to its JSON text: `Ok` with the
/// rendered object exactly when the payload decodes, `Err` otherwise. A
/// decoded map keeps its invariants: keys unique and ascending, every hash
/// exactly 32 bytes.
pub fn convert_block_hashes(data: &Vec<u8>) -> (r: Result<Vec<u8>, ConvertError>)
    ensures
        match r {
            Ok(out) => decoded_block_hashes(data@) matches Some(entries) && out@
                == block_hashes_json(entries) && (forall|i: int, j: int|
                0 <= i < j < entries.len() ==> #[trigger] entries[i].0 < #[trigger] entries[j].0)
                && (forall|i: int| 0 <= i < entries.len() ==> (#[trigger] entries[i]).1.len()
                == 32),
            Err(e) => decoded_block_hashes(data@) is None && e == ConvertError::Decode,
        },
{
    match decode_block_hashes(data) {
        Some(entries) => Ok(block_hashes_to_json(&entries)),
        None => Err(ConvertError::Decode),
    }
}

} // verus!
