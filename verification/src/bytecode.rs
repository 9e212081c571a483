//! The bytecode converter: an ordered map of 32-byte content hashes to
//! bytecode records, rewritten as a pretty-printed JSON object of
//! `0x`-prefixed lowercase hexadecimal keys.
//!
//! A record's own schema is owned by the execution engine; this module takes
//! each record as the outcome of its JSON conversion — the rendered value
//! text, or nothing when that conversion failed — and isolates a failure to
//! its one entry by substituting a fixed failure string.

use vstd::prelude::*;
use crate::ConvertError;
use crate::hex::hex_literal;
use crate::json::{object_text, pair_views, quoted, quoted_bytes, render_object};

verus! {

/// What gzip decompression finds in a compressed payload: the decompressed
/// bytes, or nothing when the input is not a well-formed gzip stream.
pub uninterp spec fn gunzipped(data: Seq<u8>) -> Option<Seq<u8>>;

/// Relies on flate2's `GzDecoder` read to the end of an in-memory buffer:
/// whether and what it decompresses is a function of the compressed bytes
/// alone.
#[verifier::external_body]
fn gunzip(data: &Vec<u8>) -> (r: Option<Vec<u8>>)
    ensures
        r is Some <==> gunzipped(data@) is Some,
        r matches Some(out) ==> gunzipped(data@) == Some(out@),
{
    let mut decoder = flate2::bufread::GzDecoder::new(data.as_slice());
    let mut out: Vec<u8> = Vec::new();
    match std::io::Read::read_to_end(&mut decoder, &mut out) {
        Ok(_) => Some(out),
        Err(_) => None,
    }
}

/// Decompresses a gzip-compressed bytecode payload: `Ok` with the
/// decompressed bytes exactly when the stream is well formed, `Err`
/// otherwise.
pub fn decompress_bytecodes(data: &Vec<u8>) -> (r: Result<Vec<u8>, ConvertError>)
    ensures
        match r {
            Ok(out) => gunzipped(data@) matches Some(bytes) && out@ == bytes,
            Err(e) => gunzipped(data@) is None && e == ConvertError::Decode,
        },
{
    match gunzip(data) {
        Some(out) => Ok(out),
        None => Err(ConvertError::Decode),
    }
}

/// The text recorded for a record whose JSON conversion failed:
/// `Failed to serialize code`.
pub open spec fn failure_sentinel() -> Seq<u8> {
    seq![
        0x46u8, 0x61, 0x69, 0x6c, 0x65, 0x64, 0x20, 0x74, 0x6f, 0x20, 0x73, 0x65, 0x72, 0x69,
        0x61, 0x6c, 0x69, 0x7a, 0x65, 0x20, 0x63, 0x6f, 0x64, 0x65,
    ]
}

/// The value text of one entry: the record's own JSON when its conversion
/// succeeded, the quoted failure string otherwise.
pub open spec fn record_value_text(record_json: Option<Seq<u8>>) -> Seq<u8> {
    match record_json {
        Some(j) => j,
        None => quoted(failure_sentinel()),
    }
}

/// The views of bytecode entries: a 32-byte content hash beside the outcome
/// of the record's JSON conversion.
pub open spec fn record_views(entries: Seq<(Vec<u8>, Option<Vec<u8>>)>) -> Seq<
    (Seq<u8>, Option<Seq<u8>>),
> {
    entries.map_values(
        |e: (Vec<u8>, Option<Vec<u8>>)|
            (
                e.0@,
                match e.1 {
                    Some(j) => Some(j@),
                    None => None,
                },
            ),
    )
}

/// The key and value texts of the bytecode JSON object: each hash as a
/// `0x`-prefixed lowercase hexadecimal key, each value its record's JSON or
/// the quoted failure string.
pub open spec fn bytecodes_pairs(entries: Seq<(Seq<u8>, Option<Seq<u8>>)>) -> Seq<
    (Seq<u8>, Seq<u8>),
> {
    entries.map_values(
        |e: (Seq<u8>, Option<Seq<u8>>)| (hex_literal(e.0), record_value_text(e.1)),
    )
}

/// The bytecode JSON text for the given entries.
pub open spec fn bytecodes_json(entries: Seq<(Seq<u8>, Option<Seq<u8>>)>) -> Seq<u8> {
    object_text(bytecodes_pairs(entries))
}

/// Determinism: the rendered JSON is a function of the entries alone, so
/// converting the same entries twice — `convert_bytecodes` pins its output
/// to this rendering of its input — produces byte-identical output.
pub proof fn lemma_bytecodes_deterministic(first: Seq<(Seq<u8>, Option<Seq<u8>>)>, second: Seq<
    (Seq<u8>, Option<Seq<u8>>),
>)
    requires
        first == second,
    ensures
        bytecodes_json(first) == bytecodes_json(second),
{
}

/// Order preservation: the rendered object holds one key per entry, and the
/// key at each position is that entry's content hash as a hexadecimal
/// literal — the JSON key order is the input iteration order.
pub proof fn lemma_bytecodes_key_order(entries: Seq<(Seq<u8>, Option<Seq<u8>>)>)
    ensures
        bytecodes_pairs(entries).len() == entries.len(),
        forall|i: int|
            0 <= i < entries.len() ==> (#[trigger] bytecodes_pairs(entries)[i]).0 == hex_literal(
                entries[i].0,
            ),
{
}

/// Per-entry isolation: an entry whose record failed its JSON conversion is
/// rendered as the quoted failure string, and every other entry keeps its
/// record's own JSON, each at its own position.
pub proof fn lemma_per_entry_isolation(entries: Seq<(Seq<u8>, Option<Seq<u8>>)>)
    ensures
        forall|i: int|
            0 <= i < entries.len() ==> (#[trigger] bytecodes_pairs(entries)[i]).1 == match entries[i].1 {
                Some(j) => j,
                None => quoted(failure_sentinel()),
            },
{
}

/// The fixed failure string, as bytes of ASCII text.
pub fn failure_sentinel_bytes() -> (r: Vec<u8>)
    ensures
        r@ == failure_sentinel(),
{
    let mut out: Vec<u8> = Vec::new();
    out.push(0x46);
    out.push(0x61);
    out.push(0x69);
    out.push(0x6c);
    out.push(0x65);
    out.push(0x64);
    out.push(0x20);
    out.push(0x74);
    out.push(0x6f);
    out.push(0x20);
    out.push(0x73);
    out.push(0x65);
    out.push(0x72);
    out.push(0x69);
    out.push(0x61);
    out.push(0x6c);
    out.push(0x69);
    out.push(0x7a);
    out.push(0x65);
    out.push(0x20);
    out.push(0x63);
    out.push(0x6f);
    out.push(0x64);
    out.push(0x65);
    proof {
        assert(out@ =~= failure_sentinel());
    }
    out
}

/// Converts bytecode entries to their JSON text, keeping their order; an
/// entry whose record failed its JSON conversion is rendered as the quoted
/// failure string, and every other entry keeps its record's JSON.
pub fn convert_bytecodes(entries: &Vec<(Vec<u8>, Option<Vec<u8>>)>) -> (r: Vec<u8>)
    ensures
        r@ == bytecodes_json(record_views(entries@)),
{
    let mut pairs: Vec<(Vec<u8>, Vec<u8>)> = Vec::new();
    let mut i: usize = 0;
    while i < entries.len()
        invariant
            i <= entries.len(),
            pair_views(pairs@) == bytecodes_pairs(record_views(entries@).take(i as int)),
        decreases entries.len() - i,
    {
        let ghost prev = pairs@;
        let key = crate::hex::hex_literal_bytes(&entries[i].0);
        let value: Vec<u8> = match &entries[i].1 {
            Some(j) => {
                let mut v: Vec<u8> = Vec::new();
                crate::json::push_bytes(&mut v, j);
                v
            },
            None => {
                let sentinel = failure_sentinel_bytes();
                quoted_bytes(&sentinel)
            },
        };
        proof {
            assert(value@ == record_value_text(record_views(entries@)[i as int].1));
        }
        pairs.push((key, value));
        proof {
            let views = record_views(entries@);
            assert(views.take(i as int + 1) =~= views.take(i as int).push(views[i as int]));
            assert(bytecodes_pairs(views.take(i as int).push(views[i as int]))
                =~= bytecodes_pairs(views.take(i as int)).push(
                (hex_literal(views[i as int].0), record_value_text(views[i as int].1)),
            ));
            assert(pair_views(pairs@) =~= pair_views(prev).push((key@, value@)));
            assert(pair_views(pairs@) =~= bytecodes_pairs(views.take(i as int + 1)));
        }
        i += 1;
    }
    proof {
        assert(record_views(entries@).take(entries@.len() as int) =~= record_views(entries@));
    }
    render_object(&pairs)
}

} // verus!
