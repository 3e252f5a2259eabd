//! The scan that fits the start of a text into a number of columns.

use crate::measure::{
    lemma_width_of_concat, lemma_width_of_start, text_of, width_of, MeasuredText,
};
use crate::whitespace::{has_white_space_property, trim_end};
use vstd::prelude::*;
use vstd::std_specs::iter::IteratorSpec;

verus! {

/// How many leading scalar values of `m` a scan keeps: it goes through `m` in
/// order and stops at the first scalar value that would take the running
/// width over `budget`.
pub open spec fn fit_len(m: Seq<(char, nat)>, budget: nat) -> nat
    decreases m.len(),
{
    if m.len() == 0 || m[0].1 > budget {
        0
    } else {
        1 + fit_len(m.drop_first(), (budget - m[0].1) as nat)
    }
}

/// The kept start fits, and one scalar value more would not.
pub proof fn lemma_fit_len_fits(m: Seq<(char, nat)>, budget: nat)
    ensures
        fit_len(m, budget) <= m.len(),
        width_of(m.take(fit_len(m, budget) as int)) <= budget,
        fit_len(m, budget) < m.len() ==> width_of(m.take(fit_len(m, budget) as int + 1)) > budget,
    decreases m.len(),
{
    if m.len() == 0 {
        assert(m.take(0) =~= Seq::<(char, nat)>::empty());
    } else {
        let first = seq![m[0]];
        assert(first.drop_last() =~= Seq::<(char, nat)>::empty());
        assert(width_of(first.drop_last()) == 0);
        assert(first.last() == m[0]);
        if m[0].1 > budget {
            assert(m.take(0) =~= Seq::<(char, nat)>::empty());
            assert(m.take(1) =~= first);
        } else {
            let rest = m.drop_first();
            let left = (budget - m[0].1) as nat;
            let n = fit_len(rest, left) as int;
            lemma_fit_len_fits(rest, left);
            lemma_width_of_concat(first, rest.take(n));
            assert(m.take(n + 1) =~= first + rest.take(n));
            if n < rest.len() {
                lemma_width_of_concat(first, rest.take(n + 1));
                assert(m.take(n + 2) =~= first + rest.take(n + 1));
            }
        }
    }
}

/// No longer start of the text fits: the scan keeps the longest one that does.
pub proof fn lemma_fit_len_longest(m: Seq<(char, nat)>, budget: nat, k: int)
    requires
        0 <= k <= m.len(),
        width_of(m.take(k)) <= budget,
    ensures
        k <= fit_len(m, budget),
{
    let n = fit_len(m, budget) as int;
    lemma_fit_len_fits(m, budget);
    if n < k {
        lemma_width_of_start(m.take(k), n + 1);
        assert(m.take(k).take(n + 1) =~= m.take(n + 1));
    }
}

/// The scan keeps the whole of a text where it fits, and there only.
pub proof fn lemma_fit_len_whole(m: Seq<(char, nat)>, budget: nat)
    ensures
        fit_len(m, budget) == m.len() <==> width_of(m) <= budget,
{
    assert(m.take(m.len() as int) =~= m);
    lemma_fit_len_fits(m, budget);
    if width_of(m) <= budget {
        lemma_fit_len_longest(m, budget, m.len() as int);
    }
}

impl<'a> MeasuredText<'a> {
    /// Scans the text against `budget`. The first number is how many leading
    /// scalar values fit, the second how many of those are left once the white
    /// space that the kept part ends in is dropped, the third the columns that
    /// the kept part takes.
    pub(crate) fn scan(&self, budget: usize) -> (r: (usize, usize, usize))
        ensures
            r.0 == fit_len(self@, budget as nat),
            r.1 == trim_end(text_of(self@.take(r.0 as int))).len(),
            r.2 == width_of(self@.take(r.0 as int)),
    {
        proof {
            use_type_invariant(self);
            self.lemma_view();
        }
        let ghost m = self@;
        let total = self.widths.len();
        let mut kept: usize = 0;
        let mut trimmed: usize = 0;
        let mut used: usize = 0;
        let mut it = self.text.chars();
        assert(self.text@.skip(0) =~= self.text@);
        assert(m.skip(0) =~= m);
        assert(m.take(0) =~= Seq::<(char, nat)>::empty());
        assert(text_of(m.take(0)) =~= Seq::<char>::empty());
        loop
            invariant
                m == self@,
                m.len() == self.text@.len(),
                m.len() == self.widths@.len(),
                m.len() == total,
                forall|i: int| 0 <= i < m.len() ==> m[i] == (self.text@[i], self.widths@[i] as nat),
                kept <= m.len(),
                it.remaining() == self.text@.skip(kept as int),
                used == width_of(m.take(kept as int)),
                used <= budget,
                fit_len(m, budget as nat) == kept + fit_len(
                    m.skip(kept as int),
                    (budget - used) as nat,
                ),
                trimmed == trim_end(text_of(m.take(kept as int))).len(),
            decreases m.len() - kept,
        {
            match it.next() {
                None => {
                    return (kept, trimmed, used);
                },
                Some(c) => {
                    let w = self.widths[kept];
                    if w > budget - used {
                        return (kept, trimmed, used);
                    }
                    proof {
                        let next = m.take(kept + 1);
                        assert(next.drop_last() =~= m.take(kept as int));
                        assert(text_of(next).drop_last() =~= text_of(m.take(kept as int)));
                        assert(text_of(next).last() == c);
                        assert(m.skip(kept as int).drop_first() =~= m.skip(kept + 1));
                        assert(self.text@.skip(kept as int).drop_first() =~= self.text@.skip(
                            kept + 1,
                        ));
                    }
                    used = used + w;
                    kept = kept + 1;
                    if !has_white_space_property(c) {
                        trimmed = kept;
                    }
                },
            }
        }
    }
}

} // verus!
