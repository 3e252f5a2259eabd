//! Shortening a text to a number of terminal columns.

use crate::boundary::{is_cut_on_boundaries, is_start_and_marker, lemma_cut_on_boundaries};
use crate::columns::{display_width, text_width};
use crate::fit::{fit_len, lemma_fit_len_fits, lemma_fit_len_whole};
use crate::measure::{
    lemma_measured, lemma_measured_parts, lemma_width_of_concat, lemma_width_of_start, measured,
    text_of, width_of, MeasuredText,
};
use crate::whitespace::{lemma_trim_end_is_start, trim_end};
use vstd::prelude::*;
use vstd::utf8::encode_utf8;

verus! {

/// The marker that is appended when a text is cut to `max_width` columns: the
/// whole of `ellipsis` where that leaves the text at least one column, else
/// the longest start of `ellipsis` that is no wider than `max_width`.
pub open spec fn marker_of(ellipsis: Seq<(char, nat)>, max_width: nat) -> Seq<(char, nat)> {
    if width_of(ellipsis) >= max_width {
        ellipsis.take(fit_len(ellipsis, max_width) as int)
    } else {
        ellipsis
    }
}

/// The columns left for the text beside `marker`.
pub open spec fn available_beside(marker: Seq<(char, nat)>, max_width: nat) -> nat {
    if width_of(marker) <= max_width {
        (max_width - width_of(marker)) as nat
    } else {
        0
    }
}

/// `m` without the white space it ends in.
pub open spec fn trimmed(m: Seq<(char, nat)>) -> Seq<(char, nat)> {
    m.take(trim_end(text_of(m)).len() as int)
}

/// `text` shortened to at most `max_width` columns.
///
/// Nothing fits into no columns. A text that fits is left as it is. Any other
/// text is cut. Where the ellipsis had to be shortened and nothing is left of
/// it, the result is empty. Else the longest start of the text that fits
/// beside the marker is kept, without the white space it ends in, and the
/// marker follows it; where no start of the text fits, the marker stands
/// alone.
pub open spec fn cut(text: Seq<(char, nat)>, max_width: nat, ellipsis: Seq<(char, nat)>) -> Seq<
    (char, nat),
> {
    let marker = marker_of(ellipsis, max_width);
    let kept = text.take(fit_len(text, available_beside(marker, max_width)) as int);
    if max_width == 0 {
        Seq::empty()
    } else if width_of(text) <= max_width {
        text
    } else if width_of(ellipsis) >= max_width && marker.len() == 0 {
        Seq::empty()
    } else if kept.len() == 0 {
        marker
    } else {
        trimmed(kept) + marker
    }
}

/// `text` shortened to at most `max_width` columns, as `unicode-width`
/// measures it and `ellipsis`.
pub open spec fn truncated_to_width(text: Seq<char>, max_width: nat, ellipsis: Seq<char>) -> Seq<
    char,
> {
    text_of(cut(measured(text), max_width, measured(ellipsis)))
}

/// The marker is in every case the longest start of the ellipsis that is no
/// wider than the columns allowed, so the columns left for the text are what
/// the marker leaves free. An ellipsis that fits is the marker as it is, and
/// nothing is left of an ellipsis only where its first scalar value is too
/// wide.
pub proof fn lemma_marker_fits(ellipsis: Seq<(char, nat)>, max_width: nat)
    ensures
        marker_of(ellipsis, max_width) == ellipsis.take(fit_len(ellipsis, max_width) as int),
        fit_len(ellipsis, max_width) <= ellipsis.len(),
        width_of(marker_of(ellipsis, max_width)) <= max_width,
        available_beside(marker_of(ellipsis, max_width), max_width) + width_of(
            marker_of(ellipsis, max_width),
        ) == max_width,
        width_of(ellipsis) <= max_width ==> marker_of(ellipsis, max_width) == ellipsis,
        max_width > 0 ==> (width_of(ellipsis) >= max_width && marker_of(ellipsis, max_width).len()
            == 0 <==> ellipsis.len() > 0 && ellipsis[0].1 > max_width),
{
    lemma_fit_len_fits(ellipsis, max_width);
    lemma_fit_len_whole(ellipsis, max_width);
    assert(ellipsis.take(ellipsis.len() as int) =~= ellipsis);
}

/// With no columns allowed the result is empty, whatever the text and the
/// ellipsis.
pub proof fn lemma_cut_to_no_columns(text: Seq<(char, nat)>, ellipsis: Seq<(char, nat)>)
    ensures
        cut(text, 0, ellipsis) == Seq::<(char, nat)>::empty(),
{
}

/// A text that fits into the columns allowed comes back unchanged. With no
/// columns allowed this holds of the empty text alone: a text of combining
/// marks is as wide as no columns, and is not kept.
pub proof fn lemma_cut_keeps_fitting_text(
    text: Seq<(char, nat)>,
    max_width: nat,
    ellipsis: Seq<(char, nat)>,
)
    requires
        width_of(text) <= max_width,
        max_width > 0 || text.len() == 0,
    ensures
        cut(text, max_width, ellipsis) == text,
{
    assert(text.len() == 0 ==> text =~= Seq::<(char, nat)>::empty());
}

/// The result is never wider than the columns allowed.
pub proof fn lemma_cut_width_is_bounded(
    text: Seq<(char, nat)>,
    max_width: nat,
    ellipsis: Seq<(char, nat)>,
)
    ensures
        width_of(cut(text, max_width, ellipsis)) <= max_width,
{
    let marker = marker_of(ellipsis, max_width);
    let kept = text.take(fit_len(text, available_beside(marker, max_width)) as int);
    lemma_marker_fits(ellipsis, max_width);
    lemma_fit_len_fits(text, available_beside(marker, max_width));
    lemma_trim_end_is_start(text_of(kept));
    lemma_width_of_start(kept, trimmed(kept).len() as int);
    lemma_width_of_concat(trimmed(kept), marker);
}

/// The result is made of whole scalar values: a start of the text, then a
/// start of the ellipsis.
pub proof fn lemma_cut_between_scalar_values(
    text: Seq<(char, nat)>,
    max_width: nat,
    ellipsis: Seq<(char, nat)>,
)
    ensures
        is_start_and_marker(cut(text, max_width, ellipsis), text, ellipsis),
{
    let r = cut(text, max_width, ellipsis);
    let marker = marker_of(ellipsis, max_width);
    let kept = text.take(fit_len(text, available_beside(marker, max_width)) as int);
    lemma_marker_fits(ellipsis, max_width);
    lemma_fit_len_fits(text, available_beside(marker, max_width));
    lemma_trim_end_is_start(text_of(kept));
    let kept_trimmed = trimmed(kept).len() as int;
    assert(trimmed(kept) =~= text.take(kept_trimmed));
    let (k, j): (int, int) = if max_width == 0 {
        (0, 0)
    } else if width_of(text) <= max_width {
        (text.len() as int, 0)
    } else if width_of(ellipsis) >= max_width && marker.len() == 0 {
        (0, 0)
    } else if kept.len() == 0 {
        (0, marker.len() as int)
    } else {
        (kept_trimmed, marker.len() as int)
    };
    assert(r =~= text.take(k) + ellipsis.take(j));
}

/// Shortening a second time to the same columns changes nothing.
pub proof fn lemma_cut_idempotent(
    text: Seq<(char, nat)>,
    max_width: nat,
    ellipsis: Seq<(char, nat)>,
)
    ensures
        cut(cut(text, max_width, ellipsis), max_width, ellipsis) == cut(
            text,
            max_width,
            ellipsis,
        ),
{
    lemma_cut_width_is_bounded(text, max_width, ellipsis);
}

/// What is cut from texts that `unicode-width` measured is itself as
/// `unicode-width` measures it.
pub proof fn lemma_cut_of_measured(text: Seq<char>, max_width: nat, ellipsis: Seq<char>)
    ensures
        cut(measured(text), max_width, measured(ellipsis)) == measured(
            truncated_to_width(text, max_width, ellipsis),
        ),
        is_start_and_marker(truncated_to_width(text, max_width, ellipsis), text, ellipsis),
{
    let r = cut(measured(text), max_width, measured(ellipsis));
    lemma_cut_between_scalar_values(measured(text), max_width, measured(ellipsis));
    lemma_measured(text);
    lemma_measured(ellipsis);
    let (k, j) = choose|k: int, j: int|
        0 <= k <= measured(text).len() && 0 <= j <= measured(ellipsis).len() && r
            == #[trigger] (measured(text).take(k) + measured(ellipsis).take(j));
    lemma_measured_parts(text, k, ellipsis, j);
    lemma_measured(text.take(k) + ellipsis.take(j));
}

/// The result is made of whole scalar values, a start of the text and then a
/// start of the ellipsis, and so its bytes are cut from theirs on character
/// boundaries.
pub proof fn lemma_truncated_between_scalar_values(
    text: Seq<char>,
    max_width: nat,
    ellipsis: Seq<char>,
)
    ensures
        is_start_and_marker(truncated_to_width(text, max_width, ellipsis), text, ellipsis),
        is_cut_on_boundaries(
            encode_utf8(truncated_to_width(text, max_width, ellipsis)),
            encode_utf8(text),
            encode_utf8(ellipsis),
        ),
{
    lemma_cut_of_measured(text, max_width, ellipsis);
    lemma_cut_on_boundaries(truncated_to_width(text, max_width, ellipsis), text, ellipsis);
}

/// With no columns allowed the result is empty, whatever the text and the
/// ellipsis.
pub proof fn lemma_no_columns_no_text(text: Seq<char>, ellipsis: Seq<char>)
    ensures
        truncated_to_width(text, 0, ellipsis) == Seq::<char>::empty(),
{
    assert(text_of(Seq::<(char, nat)>::empty()) =~= Seq::<char>::empty());
}

/// A text that fits into the columns allowed comes back unchanged, byte for
/// byte. With no columns allowed this holds of the empty text alone.
pub proof fn lemma_fitting_text_is_kept(text: Seq<char>, max_width: nat, ellipsis: Seq<char>)
    requires
        text_width(text) <= max_width,
        max_width > 0 || text.len() == 0,
    ensures
        truncated_to_width(text, max_width, ellipsis) == text,
{
    lemma_measured(text);
    lemma_cut_keeps_fitting_text(measured(text), max_width, measured(ellipsis));
}

/// The result is never wider than the columns allowed.
pub proof fn lemma_width_is_bounded(text: Seq<char>, max_width: nat, ellipsis: Seq<char>)
    ensures
        text_width(truncated_to_width(text, max_width, ellipsis)) <= max_width,
{
    lemma_cut_of_measured(text, max_width, ellipsis);
    lemma_cut_width_is_bounded(measured(text), max_width, measured(ellipsis));
    lemma_measured(truncated_to_width(text, max_width, ellipsis));
}

/// Shortening a second time to the same columns changes nothing.
pub proof fn lemma_truncated_to_width_idempotent(
    text: Seq<char>,
    max_width: nat,
    ellipsis: Seq<char>,
)
    ensures
        truncated_to_width(truncated_to_width(text, max_width, ellipsis), max_width, ellipsis)
            == truncated_to_width(text, max_width, ellipsis),
{
    lemma_cut_of_measured(text, max_width, ellipsis);
    lemma_cut_idempotent(measured(text), max_width, measured(ellipsis));
}

/// Shortens `text` to at most `max_width` columns, with `ellipsis` (or as much
/// of it as fits) in place of what was cut off.
pub fn truncate_measured(text: &MeasuredText, max_width: usize, ellipsis: &MeasuredText) -> (r:
    String)
    ensures
        r@ == text_of(cut(text@, max_width as nat, ellipsis@)),
{
    proof {
        use_type_invariant(text);
        use_type_invariant(ellipsis);
        text.lemma_view();
        ellipsis.lemma_view();
        lemma_fit_len_whole(text@, max_width as nat);
        lemma_marker_fits(ellipsis@, max_width as nat);
        assert(text_of(text@) =~= text.text@);
    }
    if max_width == 0 {
        assert(text_of(Seq::<(char, nat)>::empty()) =~= Seq::<char>::empty());
        return String::new();
    }
    let (whole, _, _) = text.scan(max_width);
    if whole == text.widths.len() {
        return text.text.to_string();
    }
    let (marker_len, _, marker_width) = ellipsis.scan(max_width);
    if marker_len == 0 && ellipsis.widths.len() > 0 {
        assert(ellipsis@[0].1 > max_width);
        assert(text_of(Seq::<(char, nat)>::empty()) =~= Seq::<char>::empty());
        return String::new();
    }
    let marker = ellipsis.text.substring_char(0, marker_len);
    assert(marker@ =~= text_of(marker_of(ellipsis@, max_width as nat)));
    let available = max_width - marker_width;
    let (kept, kept_trimmed, _) = text.scan(available);
    if kept == 0 {
        marker.to_string()
    } else {
        proof {
            let start = text@.take(kept as int);
            lemma_fit_len_fits(text@, available as nat);
            lemma_trim_end_is_start(text_of(start));
            assert(text_of(trimmed(start)) =~= text.text@.take(kept_trimmed as int));
            assert(text_of(trimmed(start) + marker_of(ellipsis@, max_width as nat)) =~= text_of(
                trimmed(start),
            ) + marker@);
        }
        let mut out = text.text.substring_char(0, kept_trimmed).to_string();
        out.append(marker);
        out
    }
}

/// Shortens `s` to at most `max_width` terminal columns, with `ellipsis` (or
/// as much of it as fits) in place of what was cut off.
pub fn truncate_with_width(s: &str, max_width: usize, ellipsis: &str) -> (r: String)
    ensures
        r@ == truncated_to_width(s@, max_width as nat, ellipsis@),
        text_width(r@) <= max_width,
        max_width == 0 ==> r@.len() == 0,
        text_width(s@) <= max_width && (max_width > 0 || s@.len() == 0) ==> r@ == s@,
        is_start_and_marker(r@, s@, ellipsis@),
        is_cut_on_boundaries(encode_utf8(r@), encode_utf8(s@), encode_utf8(ellipsis@)),
{
    proof {
        lemma_no_columns_no_text(s@, ellipsis@);
        lemma_width_is_bounded(s@, max_width as nat, ellipsis@);
        lemma_truncated_between_scalar_values(s@, max_width as nat, ellipsis@);
        if text_width(s@) <= max_width && (max_width > 0 || s@.len() == 0) {
            lemma_fitting_text_is_kept(s@, max_width as nat, ellipsis@);
        }
    }
    if max_width == 0 {
        return String::new();
    }
    let current_width = display_width(s);
    if current_width <= max_width {
        return s.to_string();
    }
    let text = MeasuredText::measure(s);
    let marker = MeasuredText::measure(ellipsis);
    truncate_measured(&text, max_width, &marker)
}

} // verus!
