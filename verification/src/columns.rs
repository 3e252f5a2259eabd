//! The columns a text takes on a terminal.

use unicode_width::UnicodeWidthStr;
use vstd::prelude::*;

verus! {

/// Columns that `unicode-width` gives to a text.
pub uninterp spec fn str_width(s: Seq<char>) -> nat;

/// Columns of the scalar value `c`, which are those of the text that holds it
/// alone: 0 for a combining mark or a control character, 1 for a narrow
/// scalar value, 2 for a wide one.
pub open spec fn char_width(c: char) -> nat {
    str_width(seq![c])
}

/// Columns taken by `s`: the widths of its scalar values, added up.
pub open spec fn text_width(s: Seq<char>) -> nat
    decreases s.len(),
{
    if s.len() == 0 {
        0
    } else {
        text_width(s.drop_last()) + char_width(s.last())
    }
}

/// `UnicodeWidthStr::width` of `unicode-width`. The crate adds up, over the
/// scalar values of the text, the width that its tables give to each, so a
/// text is as wide as its scalar values are one by one. That it does so is
/// taken from its source, not proved.
#[verifier::external_body]
pub(crate) fn display_width(s: &str) -> (w: usize)
    ensures
        w == str_width(s@),
        w == text_width(s@),
{
    UnicodeWidthStr::width(s)
}

/// The text of one scalar value is as wide as that scalar value.
pub proof fn lemma_text_width_single(c: char)
    ensures
        text_width(seq![c]) == char_width(c),
{
    let one = seq![c];
    assert(one.drop_last() =~= Seq::<char>::empty());
    assert(text_width(one.drop_last()) == 0);
    assert(one.last() == c);
}

} // verus!
