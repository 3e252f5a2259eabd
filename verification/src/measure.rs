//! Text with the columns of each of its scalar values.

use crate::boundary::split_first;
use crate::columns::{char_width, display_width, lemma_text_width_single, text_width};
use vstd::prelude::*;

verus! {

/// The scalar values of a measured text.
pub open spec fn text_of(m: Seq<(char, nat)>) -> Seq<char> {
    Seq::new(m.len(), |i: int| m[i].0)
}

/// The columns a measured text takes: those of its scalar values, added up.
pub open spec fn width_of(m: Seq<(char, nat)>) -> nat
    decreases m.len(),
{
    if m.len() == 0 {
        0
    } else {
        width_of(m.drop_last()) + m.last().1
    }
}

/// `text` with the columns in `widths`, one entry for each scalar value.
pub open spec fn paired(text: Seq<char>, widths: Seq<usize>) -> Seq<(char, nat)> {
    Seq::new(text.len(), |i: int| (text[i], widths[i] as nat))
}

/// `text` as `unicode-width` measures it.
pub open spec fn measured(text: Seq<char>) -> Seq<(char, nat)> {
    Seq::new(text.len(), |i: int| (text[i], char_width(text[i])))
}

/// Columns add up over concatenation.
pub proof fn lemma_width_of_concat(a: Seq<(char, nat)>, b: Seq<(char, nat)>)
    ensures
        width_of(a + b) == width_of(a) + width_of(b),
    decreases b.len(),
{
    if b.len() == 0 {
        assert(a + b =~= a);
    } else {
        lemma_width_of_concat(a, b.drop_last());
        assert((a + b).drop_last() =~= a + b.drop_last());
    }
}

/// A start of a measured text takes no more columns than the whole.
pub proof fn lemma_width_of_start(m: Seq<(char, nat)>, k: int)
    requires
        0 <= k <= m.len(),
    ensures
        width_of(m.take(k)) <= width_of(m),
{
    lemma_width_of_concat(m.take(k), m.skip(k));
    assert(m.take(k) + m.skip(k) =~= m);
}

/// What `unicode-width` measures of a text is that text, as wide as the crate
/// says the whole is.
pub proof fn lemma_measured(text: Seq<char>)
    ensures
        measured(text).len() == text.len(),
        text_of(measured(text)) == text,
        width_of(measured(text)) == text_width(text),
    decreases text.len(),
{
    assert(text_of(measured(text)) =~= text);
    if text.len() > 0 {
        lemma_measured(text.drop_last());
        assert(measured(text).drop_last() =~= measured(text.drop_last()));
    }
}

/// A start of one measured text followed by a start of another is the
/// measured text of its own scalar values.
pub proof fn lemma_measured_parts(text: Seq<char>, k: int, marker: Seq<char>, j: int)
    requires
        0 <= k <= text.len(),
        0 <= j <= marker.len(),
    ensures
        measured(text).take(k) + measured(marker).take(j) == measured(
            text.take(k) + marker.take(j),
        ),
{
    assert(measured(text).take(k) + measured(marker).take(j) =~= measured(
        text.take(k) + marker.take(j),
    ));
}

/// A text together with the columns that each of its scalar values takes.
pub struct MeasuredText<'a> {
    pub(crate) text: &'a str,
    pub(crate) widths: Vec<usize>,
}

impl<'a> View for MeasuredText<'a> {
    type V = Seq<(char, nat)>;

    closed spec fn view(&self) -> Seq<(char, nat)> {
        paired(self.text@, self.widths@)
    }
}

impl<'a> MeasuredText<'a> {
    #[verifier::type_invariant]
    pub(crate) open spec fn has_one_width_each(self) -> bool {
        self.widths@.len() == self.text@.len()
    }

    /// The view, for the modules that work on the fields.
    pub(crate) proof fn lemma_view(&self)
        ensures
            self@ == paired(self.text@, self.widths@),
    {
    }

    /// Measures `text` with `unicode-width`, one scalar value at a time.
    pub fn measure(text: &'a str) -> (m: Self)
        ensures
            m@ == measured(text@),
    {
        let mut widths: Vec<usize> = Vec::new();
        let mut rest: &str = text;
        assert(text@.skip(0) =~= text@);
        while !rest.is_empty()
            invariant
                widths@.len() <= text@.len(),
                rest@ == text@.skip(widths@.len() as int),
                forall|i: int| 0 <= i < widths@.len() ==> widths@[i] == char_width(text@[i]),
            decreases rest@.len(),
        {
            let (first, behind) = split_first(rest);
            proof {
                let n = widths@.len() as int;
                lemma_text_width_single(text@[n]);
                assert(text@.skip(n).drop_first() =~= text@.skip(n + 1));
            }
            widths.push(display_width(first));
            rest = behind;
        }
        assert(paired(text@, widths@) =~= measured(text@));
        MeasuredText { text, widths }
    }

    /// Takes the columns of each scalar value of `text` from `widths`, where
    /// that holds one entry for each.
    pub fn with_widths(text: &'a str, widths: Vec<usize>) -> (m: Option<Self>)
        ensures
            m is Some <==> widths@.len() == text@.len(),
            m matches Some(m) ==> m@ == paired(text@, widths@),
    {
        if text.unicode_len() == widths.len() {
            Some(MeasuredText { text, widths })
        } else {
            None
        }
    }
}

} // verus!
