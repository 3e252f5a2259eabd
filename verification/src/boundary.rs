//! What a shortened text is made of.

use vstd::prelude::*;
use vstd::string::StringSliceAdditionalSpecFns;
use vstd::utf8::{
    encode_scalar, encode_utf8, encode_utf8_decode_utf8, encode_utf8_first_scalar,
    encode_utf8_valid_utf8, is_char_boundary, length_of_first_scalar, pop_first_scalar,
    valid_utf8,
};

verus! {

/// `r` is a start of `text` followed by a start of `marker`: it is made of
/// whole items of the two, in their order, and of nothing else.
pub open spec fn is_start_and_marker<T>(r: Seq<T>, text: Seq<T>, marker: Seq<T>) -> bool {
    exists|k: int, j: int|
        0 <= k <= text.len() && 0 <= j <= marker.len() && r == #[trigger] (text.take(k)
            + marker.take(j))
}

/// The bytes `r` are the bytes `text` up to a character boundary, followed by
/// the bytes `marker` up to a character boundary: no encoding of a scalar
/// value was split.
pub open spec fn is_cut_on_boundaries(r: Seq<u8>, text: Seq<u8>, marker: Seq<u8>) -> bool {
    exists|k: int, j: int|
        is_char_boundary(text, k) && is_char_boundary(marker, j) && 0 <= k <= text.len() && 0 <= j
            <= marker.len() && r == #[trigger] (text.subrange(0, k) + marker.subrange(0, j))
}

/// The encoding of two texts in a row is the two encodings in a row.
pub proof fn lemma_encode_concat(a: Seq<char>, b: Seq<char>)
    ensures
        encode_utf8(a + b) == encode_utf8(a) + encode_utf8(b),
    decreases a.len(),
{
    if a.len() == 0 {
        assert(a + b =~= b);
        assert(encode_utf8(a) + encode_utf8(b) =~= encode_utf8(b));
    } else {
        lemma_encode_concat(a.drop_first(), b);
        assert((a + b).drop_first() =~= a.drop_first() + b);
        assert(encode_utf8(a + b) =~= encode_utf8(a) + encode_utf8(b));
    }
}

/// The encoding of a start of a text is a start of the encoding of the text,
/// and it ends on a character boundary.
pub proof fn lemma_start_ends_on_boundary(text: Seq<char>, k: int)
    requires
        0 <= k <= text.len(),
    ensures
        encode_utf8(text.take(k)).len() <= encode_utf8(text).len(),
        encode_utf8(text.take(k)) == encode_utf8(text).subrange(
            0,
            encode_utf8(text.take(k)).len() as int,
        ),
        is_char_boundary(encode_utf8(text), encode_utf8(text.take(k)).len() as int),
    decreases k,
{
    let bytes = encode_utf8(text);
    let start = encode_utf8(text.take(k));
    encode_utf8_valid_utf8(text);
    lemma_encode_concat(text.take(k), text.skip(k));
    assert(text.take(k) + text.skip(k) =~= text);
    assert(start =~= bytes.subrange(0, start.len() as int));
    if k == 0 {
        assert(text.take(0) =~= Seq::<char>::empty());
    } else {
        let rest = text.drop_first();
        encode_utf8_first_scalar(text);
        assert(pop_first_scalar(bytes) =~= encode_utf8(rest));
        lemma_start_ends_on_boundary(rest, k - 1);
        assert(text.take(k).drop_first() =~= rest.take(k - 1));
    }
}

/// A text cut between scalar values is, in its encoding, cut on character
/// boundaries.
pub proof fn lemma_cut_on_boundaries(r: Seq<char>, text: Seq<char>, marker: Seq<char>)
    requires
        is_start_and_marker(r, text, marker),
    ensures
        is_cut_on_boundaries(encode_utf8(r), encode_utf8(text), encode_utf8(marker)),
{
    let (k, j) = choose|k: int, j: int|
        0 <= k <= text.len() && 0 <= j <= marker.len() && r == #[trigger] (text.take(k)
            + marker.take(j));
    lemma_start_ends_on_boundary(text, k);
    lemma_start_ends_on_boundary(marker, j);
    lemma_encode_concat(text.take(k), marker.take(j));
    let kb = encode_utf8(text.take(k)).len() as int;
    let jb = encode_utf8(marker.take(j)).len() as int;
    assert(encode_utf8(r) == encode_utf8(text).subrange(0, kb) + encode_utf8(marker).subrange(
        0,
        jb,
    ));
}

/// Splits a text that is not empty after its first scalar value: the first
/// character boundary behind the start of the text is where that value ends.
pub(crate) fn split_first(s: &str) -> (r: (&str, &str))
    requires
        s@.len() > 0,
    ensures
        r.0@ == seq![s@[0]],
        r.1@ == s@.drop_first(),
{
    let ghost bytes = s.spec_bytes();
    proof {
        encode_utf8_valid_utf8(s@);
        encode_utf8_first_scalar(s@);
        assert(pop_first_scalar(bytes) =~= encode_utf8(s@.drop_first()));
        reveal_with_fuel(is_char_boundary, 2);
    }
    let mut end: usize = 1;
    while !s.is_char_boundary(end)
        invariant
            bytes == s.spec_bytes(),
            valid_utf8(bytes),
            bytes.len() > 0,
            1 <= end <= length_of_first_scalar(bytes) <= 4,
            length_of_first_scalar(bytes) <= bytes.len(),
            is_char_boundary(bytes, length_of_first_scalar(bytes)),
        decreases length_of_first_scalar(bytes) - end,
    {
        end = end + 1;
    }
    let (first, rest) = s.split_at(end);
    proof {
        let one = seq![s@[0]];
        assert(one.drop_first() =~= Seq::<char>::empty());
        assert(encode_utf8(one.drop_first()) =~= Seq::<u8>::empty());
        assert(encode_utf8(one) =~= encode_scalar(s@[0] as u32));
        assert(bytes =~= encode_scalar(s@[0] as u32) + encode_utf8(s@.drop_first()));
        assert(encode_utf8(one) =~= bytes.subrange(0, end as int));
        encode_utf8_decode_utf8(first@);
        encode_utf8_decode_utf8(one);
        encode_utf8_decode_utf8(rest@);
        encode_utf8_decode_utf8(s@.drop_first());
    }
    (first, rest)
}

} // verus!
