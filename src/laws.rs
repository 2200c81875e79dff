//! Properties that hold of every text and every budget, stated over the
//! units of the text. A text is `units.flatten()`; a text that the library
//! segments has non-empty units, at most one per character.
use vstd::prelude::*;
use crate::engine::{
    first_start, lemma_end_keep_fits, lemma_span_subrange, lemma_start_keep_fits, longest_fit,
    start_ok,
};
use crate::center::lemma_centered_keep_fits;
use crate::truncate::{kept_range, pad_split, padded, spaces, truncated, Alignment};
use crate::units::{joined, text_width, widths};

verus! {

/// Truncation keeps an ordered range of units, and the width it reports is
/// both at most the budget and the width of exactly the units it kept.
pub proof fn lemma_width_bound(units: Seq<Seq<char>>, max: usize, align: Alignment)
    requires
        units.len() <= usize::MAX,
    ensures
        ({
            let r = kept_range(units, max as int, align);
            let t = truncated(units, max as int, align);
            &&& 0 <= r.0 <= r.1 <= units.len()
            &&& t.1 <= max
            &&& t.1 == text_width(units.subrange(r.0, r.1))
        }),
{
    let ws = widths(units);
    lemma_end_keep_fits(ws, max as int);
    lemma_start_keep_fits(ws, max as int);
    lemma_centered_keep_fits(ws, max as int);
    let r = kept_range(units, max as int, align);
    assert(widths(units.subrange(r.0, r.1)) =~= ws.subrange(r.0, r.1));
    lemma_span_subrange(ws, r.0, r.1, 0, r.1 - r.0);
}

/// The truncated text is a run of whole units of the input: the input is the
/// units before it, then it, then the units after it.
pub proof fn lemma_whole_units(units: Seq<Seq<char>>, max: usize, align: Alignment)
    requires
        units.len() <= usize::MAX,
    ensures
        ({
            let r = kept_range(units, max as int, align);
            units.flatten() == joined(units, 0, r.0) + truncated(units, max as int, align).0
                + joined(units, r.1, units.len() as int)
        }),
{
    lemma_width_bound(units, max, align);
    let r = kept_range(units, max as int, align);
    let a = units.subrange(0, r.0);
    let m = units.subrange(r.0, r.1);
    let b = units.subrange(r.1, units.len() as int);
    assert(units =~= a + m + b);
    vstd::seq_lib::lemma_flatten_concat(a, m);
    vstd::seq_lib::lemma_flatten_concat(a + m, b);
}

/// A text that already fits comes back whole, with its width, whatever the
/// alignment; for a zero budget this asks for the empty text.
pub proof fn lemma_fits_unchanged(units: Seq<Seq<char>>, max: usize, align: Alignment)
    requires
        units.len() <= usize::MAX,
        text_width(units) <= max,
        max > 0 || units.len() == 0,
    ensures
        truncated(units, max as int, align) == (units.flatten(), text_width(units)),
{
    let ws = widths(units);
    let n = units.len() as int;
    if n > 0 {
        assert(longest_fit(ws, max as int, n) == n);
        assert(start_ok(ws, max as int, 0));
        assert(first_start(ws, max as int, 0) == 0);
    }
    assert(units.subrange(0, n) =~= units);
}

/// A zero budget leaves the empty text, of width zero, whatever the
/// alignment.
pub proof fn lemma_zero_budget(units: Seq<Seq<char>>, align: Alignment)
    ensures
        truncated(units, 0, align) == (Seq::<char>::empty(), 0int),
{
    let r = kept_range(units, 0, align);
    assert(r.0 == r.1);
    assert(units.subrange(r.0, r.1) =~= Seq::<Seq<char>>::empty());
}

/// Truncating the kept units again, with the same budget and alignment,
/// changes nothing.
pub proof fn lemma_truncate_idempotent(units: Seq<Seq<char>>, max: usize, align: Alignment)
    requires
        units.len() <= usize::MAX,
    ensures
        ({
            let r = kept_range(units, max as int, align);
            truncated(units.subrange(r.0, r.1), max as int, align) == truncated(
                units,
                max as int,
                align,
            )
        }),
{
    lemma_width_bound(units, max, align);
    let r = kept_range(units, max as int, align);
    let kept = units.subrange(r.0, r.1);
    if max == 0 {
        lemma_zero_budget(units, align);
        lemma_zero_budget(kept, align);
    } else {
        lemma_fits_unchanged(kept, max, align);
    }
}

/// Padding with truncation fills exactly the target: its result is some
/// spaces, then the truncated text, then some spaces, and the two counts of
/// spaces and the width of the truncated text add up to `target`.
pub proof fn lemma_pad_exact(units: Seq<Seq<char>>, target: usize, align: Alignment)
    requires
        units.len() <= usize::MAX,
    ensures
        ({
            let t = truncated(units, target as int, align);
            let p = pad_split(target - t.1, align);
            &&& p.0 >= 0
            &&& p.1 >= 0
            &&& p.0 + t.1 + p.1 == target
            &&& padded(units, target as int, align, true) == spaces(p.0) + t.0 + spaces(p.1)
        }),
{
    lemma_width_bound(units, target, align);
}

} // verus!
