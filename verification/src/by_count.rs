//! Shortening a text to a number of scalar values.

use crate::boundary::{is_cut_on_boundaries, is_start_and_marker, lemma_cut_on_boundaries};
use crate::whitespace::{
    has_white_space_property, is_white_space, lemma_trim_end_cuts_white_space,
    lemma_trim_end_idempotent, lemma_trim_end_is_start, lemma_trim_end_keeps_ink, trim_end,
};
use vstd::prelude::*;
use vstd::std_specs::iter::IteratorSpec;
use vstd::utf8::encode_utf8;

verus! {

/// The three full stops that stand for what was cut off.
pub open spec fn dots() -> Seq<char> {
    seq!['.', '.', '.']
}

/// `text` shortened to `max_chars` scalar values.
///
/// A text of at most `max_chars` scalar values is left as it is, white space
/// at its end included. Of a longer one the first `max_chars` are kept,
/// without the white space they end in, and three full stops follow.
pub open spec fn truncated_to_count(text: Seq<char>, max_chars: nat) -> Seq<char> {
    if text.len() <= max_chars {
        text
    } else {
        trim_end(text.take(max_chars as int)) + dots()
    }
}

/// Whether shortening `text` a second time to `max_chars` changes nothing.
///
/// A cut text counts its three full stops too, so it may again be longer than
/// `max_chars`. It is left alone by a second cut where the first dropped no
/// white space, or dropped at least as much as the full stops take.
pub open spec fn is_settled(text: Seq<char>, max_chars: nat) -> bool {
    let trimmed = trim_end(text.take(max_chars as int)).len();
    text.len() <= max_chars || trimmed == max_chars || trimmed + 3 <= max_chars
}

/// A text of at most `max_chars` scalar values comes back unchanged.
pub proof fn lemma_short_text_is_kept(text: Seq<char>, max_chars: nat)
    requires
        text.len() <= max_chars,
    ensures
        truncated_to_count(text, max_chars) == text,
{
}

/// A longer text comes back as a start of itself, of at most `max_chars`
/// whole scalar values and not ending in white space, and three full stops.
pub proof fn lemma_long_text_is_cut(text: Seq<char>, max_chars: nat)
    requires
        text.len() > max_chars,
    ensures
        ({
            let r = truncated_to_count(text, max_chars);
            let k = r.len() - 3;
            &&& 0 <= k <= max_chars
            &&& r == text.take(k) + dots()
            &&& k > 0 ==> !is_white_space(text[k - 1])
            &&& forall|i: int| k <= i < max_chars ==> is_white_space(#[trigger] text[i])
        }),
{
    let kept = text.take(max_chars as int);
    let k = trim_end(kept).len() as int;
    lemma_trim_end_is_start(kept);
    lemma_trim_end_cuts_white_space(kept);
    assert(kept.take(k) =~= text.take(k));
    assert(k > 0 ==> trim_end(kept).last() == text[k - 1]);
    assert forall|i: int| k <= i < max_chars implies is_white_space(#[trigger] text[i]) by {
        assert(kept[i] == text[i]);
    }
}

/// The result is made of whole scalar values, a start of the text and then
/// either nothing or the three full stops, and so its bytes are cut from
/// theirs on character boundaries.
pub proof fn lemma_truncated_between_scalar_values(text: Seq<char>, max_chars: nat)
    ensures
        is_start_and_marker(truncated_to_count(text, max_chars), text, dots()),
        is_cut_on_boundaries(
            encode_utf8(truncated_to_count(text, max_chars)),
            encode_utf8(text),
            encode_utf8(dots()),
        ),
{
    let r = truncated_to_count(text, max_chars);
    if text.len() <= max_chars {
        assert(r =~= text.take(text.len() as int) + dots().take(0));
    } else {
        lemma_long_text_is_cut(text, max_chars);
        assert(r =~= text.take(r.len() - 3) + dots().take(3));
    }
    lemma_cut_on_boundaries(r, text, dots());
}

/// The result has at most three scalar values more than `max_chars`.
pub proof fn lemma_count_is_bounded(text: Seq<char>, max_chars: nat)
    ensures
        truncated_to_count(text, max_chars).len() <= max_chars + 3,
{
    lemma_trim_end_is_start(text.take(max_chars as int));
}

/// Shortening a second time to the same count changes nothing, for a text
/// that is settled.
pub proof fn lemma_truncated_to_count_idempotent(text: Seq<char>, max_chars: nat)
    requires
        is_settled(text, max_chars),
    ensures
        truncated_to_count(truncated_to_count(text, max_chars), max_chars) == truncated_to_count(
            text,
            max_chars,
        ),
{
    if text.len() > max_chars {
        let kept = trim_end(text.take(max_chars as int));
        let once = kept + dots();
        lemma_trim_end_is_start(text.take(max_chars as int));
        if kept.len() == max_chars {
            lemma_trim_end_idempotent(text.take(max_chars as int));
            assert(once.take(max_chars as int) =~= kept);
        }
    }
}

/// For a text that is not settled, shortening a second time appends full
/// stops again.
pub proof fn lemma_truncated_to_count_unsettled(text: Seq<char>, max_chars: nat)
    requires
        !is_settled(text, max_chars),
    ensures
        truncated_to_count(truncated_to_count(text, max_chars), max_chars).len()
            > truncated_to_count(text, max_chars).len(),
{
    let kept = trim_end(text.take(max_chars as int));
    let once = kept + dots();
    lemma_trim_end_is_start(text.take(max_chars as int));
    let again = once.take(max_chars as int);
    assert(again.last() == '.');
    lemma_trim_end_keeps_ink(again);
}

/// Shortens `s` to at most `max_chars` scalar values, with `...` in place of
/// what was cut off.
pub fn truncate_with_ellipsis(s: &str, max_chars: usize) -> (r: String)
    ensures
        r@ == truncated_to_count(s@, max_chars as nat),
        s@.len() <= max_chars ==> r@ == s@,
        is_start_and_marker(r@, s@, dots()),
        is_cut_on_boundaries(encode_utf8(r@), encode_utf8(s@), encode_utf8(dots())),
        r@.len() <= max_chars + 3,
{
    proof {
        lemma_truncated_between_scalar_values(s@, max_chars as nat);
        lemma_count_is_bounded(s@, max_chars as nat);
    }
    let mut seen: usize = 0;
    let mut trimmed: usize = 0;
    let mut it = s.chars();
    assert(s@.skip(0) =~= s@);
    loop
        invariant
            is_start_and_marker(truncated_to_count(s@, max_chars as nat), s@, dots()),
            is_cut_on_boundaries(
                encode_utf8(truncated_to_count(s@, max_chars as nat)),
                encode_utf8(s@),
                encode_utf8(dots()),
            ),
            truncated_to_count(s@, max_chars as nat).len() <= max_chars + 3,
            seen <= max_chars,
            seen <= s@.len(),
            it.remaining() == s@.skip(seen as int),
            trimmed == trim_end(s@.take(seen as int)).len(),
        decreases s@.len() - seen,
    {
        match it.next() {
            None => {
                return s.to_string();
            },
            Some(c) => {
                if seen == max_chars {
                    proof {
                        reveal_strlit("...");
                        assert("..."@ =~= dots());
                        lemma_trim_end_is_start(s@.take(seen as int));
                        assert(s@.take(seen as int).take(trimmed as int) =~= s@.take(
                            trimmed as int,
                        ));
                    }
                    let mut out = s.substring_char(0, trimmed).to_string();
                    out.append("...");
                    return out;
                }
                proof {
                    assert(s@.take(seen + 1).drop_last() =~= s@.take(seen as int));
                }
                seen = seen + 1;
                if !has_white_space_property(c) {
                    trimmed = seen;
                }
            },
        }
    }
}

} // verus!
