//! Pretty-printed JSON objects over already-rendered key and value texts.
//!
//! A key text is spliced between quotes; a value text is spliced verbatim, so
//! a caller passes either a quoted string or a complete JSON value.

use vstd::prelude::*;

verus! {

/// A text between double quotes.
pub open spec fn quoted(s: Seq<u8>) -> Seq<u8> {
    seq![0x22u8] + s + seq![0x22u8]
}

/// One line of a pretty-printed object: two spaces of indentation, the quoted
/// key, a colon, a space, and the value text.
pub open spec fn entry_text(key: Seq<u8>, value: Seq<u8>) -> Seq<u8> {
    seq![0x20u8, 0x20u8] + quoted(key) + seq![0x3au8, 0x20u8] + value
}

/// The lines of an object's entries, joined by a comma and a line break.
pub open spec fn object_body(pairs: Seq<(Seq<u8>, Seq<u8>)>) -> Seq<u8>
    decreases pairs.len(),
{
    if pairs.len() == 0 {
        Seq::empty()
    } else if pairs.len() == 1 {
        entry_text(pairs[0].0, pairs[0].1)
    } else {
        entry_text(pairs[0].0, pairs[0].1) + seq![0x2cu8, 0x0au8] + object_body(pairs.drop_first())
    }
}

/// The pretty-printed JSON object holding the given key and value texts in
/// the given order: `{}` when empty, otherwise one indented line per entry.
pub open spec fn object_text(pairs: Seq<(Seq<u8>, Seq<u8>)>) -> Seq<u8> {
    if pairs.len() == 0 {
        seq![0x7bu8, 0x7du8]
    } else {
        seq![0x7bu8, 0x0au8] + object_body(pairs) + seq![0x0au8, 0x7du8]
    }
}

/// The views of a vector of key and value texts.
pub open spec fn pair_views(pairs: Seq<(Vec<u8>, Vec<u8>)>) -> Seq<(Seq<u8>, Seq<u8>)> {
    pairs.map_values(|p: (Vec<u8>, Vec<u8>)| (p.0@, p.1@))
}

/// Appending an entry appends one more line to the body.
pub proof fn lemma_object_body_snoc(pairs: Seq<(Seq<u8>, Seq<u8>)>, p: (Seq<u8>, Seq<u8>))
    requires
        pairs.len() > 0,
    ensures
        object_body(pairs.push(p)) == object_body(pairs) + seq![0x2cu8, 0x0au8] + entry_text(
            p.0,
            p.1,
        ),
    decreases pairs.len(),
{
    if pairs.len() == 1 {
        assert(pairs.push(p).drop_first() =~= seq![p]);
        assert(object_body(seq![p]) == entry_text(p.0, p.1));
        assert(pairs.push(p)[0] == pairs[0]);
        assert(object_body(pairs.push(p)) =~= object_body(pairs) + seq![0x2cu8, 0x0au8]
            + entry_text(p.0, p.1));
    } else {
        assert(pairs.push(p).drop_first() =~= pairs.drop_first().push(p));
        lemma_object_body_snoc(pairs.drop_first(), p);
        assert(pairs.push(p)[0] == pairs[0]);
        assert(object_body(pairs.push(p)) =~= object_body(pairs) + seq![0x2cu8, 0x0au8]
            + entry_text(p.0, p.1));
    }
}

/// Appends the bytes of `src` to `out`.
pub fn push_bytes(out: &mut Vec<u8>, src: &Vec<u8>)
    ensures
        final(out)@ == old(out)@ + src@,
{
    let mut j: usize = 0;
    while j < src.len()
        invariant
            j <= src.len(),
            out@ == old(out)@ + src@.take(j as int),
        decreases src.len() - j,
    {
        out.push(src[j]);
        proof {
            assert(src@.take(j as int + 1) =~= src@.take(j as int).push(src@[j as int]));
            assert(out@ =~= old(out)@ + src@.take(j as int + 1));
        }
        j += 1;
    }
    proof {
        assert(src@.take(src@.len() as int) =~= src@);
    }
}

/// The given text between double quotes.
pub fn quoted_bytes(src: &Vec<u8>) -> (r: Vec<u8>)
    ensures
        r@ == quoted(src@),
{
    let mut out: Vec<u8> = Vec::new();
    out.push(0x22);
    push_bytes(&mut out, src);
    out.push(0x22);
    proof {
        assert(out@ =~= quoted(src@));
    }
    out
}

/// Renders the pretty-printed JSON object for the given key and value texts.
pub fn render_object(pairs: &Vec<(Vec<u8>, Vec<u8>)>) -> (r: Vec<u8>)
    ensures
        r@ == object_text(pair_views(pairs@)),
{
    let mut out: Vec<u8> = Vec::new();
    if pairs.len() == 0 {
        out.push(0x7b);
        out.push(0x7d);
        proof {
            assert(out@ =~= object_text(pair_views(pairs@)));
        }
        return out;
    }
    out.push(0x7b);
    out.push(0x0a);
    let mut i: usize = 0;
    while i < pairs.len()
        invariant
            pairs.len() > 0,
            i <= pairs.len(),
            i == 0 ==> out@ == seq![0x7bu8, 0x0au8],
            i > 0 ==> out@ == seq![0x7bu8, 0x0au8] + object_body(
                pair_views(pairs@).take(i as int),
            ),
        decreases pairs.len() - i,
    {
        let ghost prev = out@;
        if i > 0 {
            out.push(0x2c);
            out.push(0x0a);
        }
        out.push(0x20);
        out.push(0x20);
        out.push(0x22);
        push_bytes(&mut out, &pairs[i].0);
        out.push(0x22);
        out.push(0x3a);
        out.push(0x20);
        push_bytes(&mut out, &pairs[i].1);
        proof {
            let views = pair_views(pairs@);
            let p = views[i as int];
            assert(p == (pairs@[i as int].0@, pairs@[i as int].1@));
            assert(views.take(i as int + 1) =~= views.take(i as int).push(p));
            if i == 0 {
                assert(out@ =~= prev + entry_text(p.0, p.1));
                assert(object_body(views.take(1)) == entry_text(
                    views.take(1)[0].0,
                    views.take(1)[0].1,
                ));
                assert(views.take(1)[0] == p);
                assert(out@ =~= seq![0x7bu8, 0x0au8] + object_body(views.take(1)));
            } else {
                assert(out@ =~= prev + seq![0x2cu8, 0x0au8] + entry_text(p.0, p.1));
                lemma_object_body_snoc(views.take(i as int), p);
                assert(out@ =~= seq![0x7bu8, 0x0au8] + object_body(views.take(i as int + 1)));
            }
        }
        i += 1;
    }
    out.push(0x0a);
    out.push(0x7d);
    proof {
        assert(pair_views(pairs@).take(pairs@.len() as int) =~= pair_views(pairs@));
        assert(out@ =~= object_text(pair_views(pairs@)));
    }
    out
}

} // verus!
