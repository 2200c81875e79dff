//! Texts as sequences of grapheme clusters, each with a display width.
//!
//! Segmentation and width come from unicode-segmentation and unicode-width;
//! what they return is named here and taken as given.
use vstd::prelude::*;
use vstd::string::StrSliceExecFns;
use unicode_segmentation::UnicodeSegmentation;
use unicode_width::UnicodeWidthStr;
use crate::engine::span_width;

verus! {

broadcast use vstd::seq_lib::group_seq_properties;

/// The extended grapheme clusters of a text, in order.
pub uninterp spec fn grapheme_clusters(s: Seq<char>) -> Seq<Seq<char>>;

/// The number of terminal columns that a string occupies.
pub uninterp spec fn display_width(s: Seq<char>) -> usize;

/// The characters of each string in a list.
pub open spec fn views(v: Seq<&str>) -> Seq<Seq<char>> {
    v.map_values(|g: &str| g@)
}

/// The width of each unit.
pub open spec fn widths(units: Seq<Seq<char>>) -> Seq<usize> {
    units.map_values(|g: Seq<char>| display_width(g))
}

/// The width of a text made of the given units.
pub open spec fn text_width(units: Seq<Seq<char>>) -> int {
    span_width(widths(units), 0, units.len() as int)
}

/// The text made of the units `lo..hi`.
pub open spec fn joined(units: Seq<Seq<char>>, lo: int, hi: int) -> Seq<char> {
    units.subrange(lo, hi).flatten()
}

/// Every unit holds at least one character, as a segmentation's units do.
pub open spec fn nonempty_units(units: Seq<Seq<char>>) -> bool {
    forall|i: int| 0 <= i < units.len() ==> (#[trigger] units[i]).len() > 0
}

/// What the segmentation of `s` is known to be: its units are non-empty and
/// join back into `s`, so there are no more of them than characters, and they
/// can be counted in a machine word.
pub open spec fn well_segmented(s: Seq<char>) -> bool {
    let units = grapheme_clusters(s);
    &&& units.flatten() == s
    &&& nonempty_units(units)
    &&& units.len() <= s.len()
    &&& units.len() <= usize::MAX
}

/// Non-empty units hold at least as many characters as there are units.
pub proof fn lemma_units_no_more_than_chars(units: Seq<Seq<char>>)
    requires
        nonempty_units(units),
    ensures
        units.len() <= units.flatten().len(),
    decreases units.len(),
{
    if units.len() > 0 {
        assert(nonempty_units(units.drop_first())) by {
            assert forall|i: int| 0 <= i < units.drop_first().len() implies (
            #[trigger] units.drop_first()[i]).len() > 0 by {
                assert(units.drop_first()[i] == units[i + 1]);
            }
        }
        lemma_units_no_more_than_chars(units.drop_first());
        assert(units[0].len() > 0);
    }
}

/// The units of `s`, known to be its segmentation.
pub(crate) fn segment<'a>(s: &'a str) -> (r: Vec<&'a str>)
    ensures
        views(r@) == grapheme_clusters(s@),
        well_segmented(s@),
{
    let r = clusters(s);
    let count = r.len();
    proof {
        assert(views(r@).len() == count);
        lemma_units_no_more_than_chars(views(r@));
    }
    r
}

/// Relies on UnicodeSegmentation::graphemes with extended clusters: it hands
/// out consecutive non-empty slices of the text that together cover it.
#[verifier::external_body]
fn clusters<'a>(s: &'a str) -> (r: Vec<&'a str>)
    ensures
        views(r@) == grapheme_clusters(s@),
        views(r@).flatten() == s@,
        nonempty_units(views(r@)),
{
    s.graphemes(true).collect()
}

/// Relies on UnicodeWidthStr::width: the columns that a string takes, which
/// depend on its characters alone.
#[verifier::external_body]
pub(crate) fn cluster_width(g: &str) -> (r: usize)
    ensures
        r == display_width(g@),
{
    g.width()
}

/// The width of each unit, in order.
pub(crate) fn unit_widths(units: &Vec<&str>) -> (r: Vec<usize>)
    ensures
        r@ == widths(views(units@)),
{
    let mut r: Vec<usize> = Vec::new();
    let mut i: usize = 0;
    while i < units.len()
        invariant
            i <= units.len(),
            r@ == widths(views(units@)).take(i as int),
        decreases units.len() - i,
    {
        r.push(cluster_width(units[i]));
        i = i + 1;
        assert(r@ =~= widths(views(units@)).take(i as int));
    }
    assert(r@ =~= widths(views(units@)));
    r
}

/// The text of the first `k` units is followed by unit `k`.
proof fn lemma_take_flatten_step(units: Seq<Seq<char>>, k: int)
    requires
        0 <= k < units.len(),
    ensures
        units.take(k + 1).flatten() == units.take(k).flatten() + units[k],
{
    assert(units.take(k + 1) =~= units.take(k).push(units[k]));
    units.take(k).lemma_flatten_push(units[k]);
}

/// A run of whole units is the matching range of characters of their text.
proof fn lemma_joined_subrange(units: Seq<Seq<char>>, lo: int, hi: int)
    requires
        0 <= lo <= hi <= units.len(),
    ensures
        joined(units, lo, hi) == units.flatten().subrange(
            units.take(lo).flatten().len() as int,
            units.take(hi).flatten().len() as int,
        ),
{
    let a = units.take(lo);
    let m = units.subrange(lo, hi);
    let b = units.skip(hi);
    assert(units =~= a + m + b);
    assert(units.take(hi) =~= a + m);
    vstd::seq_lib::lemma_flatten_concat(a, m);
    vstd::seq_lib::lemma_flatten_concat(a + m, b);
    assert(units.flatten().subrange(a.flatten().len() as int, (a + m).flatten().len() as int)
        =~= m.flatten());
}

/// The text of the first `k` units is no longer than the whole text.
proof fn lemma_take_flatten_len(units: Seq<Seq<char>>, k: int)
    requires
        0 <= k <= units.len(),
    ensures
        units.take(k).flatten().len() <= units.flatten().len(),
{
    assert(units =~= units.take(k) + units.skip(k));
    vstd::seq_lib::lemma_flatten_concat(units.take(k), units.skip(k));
}

/// The number of characters in the first `k` units.
fn char_offset(units: &Vec<&str>, k: usize, chars: usize) -> (r: usize)
    requires
        k <= units.len(),
        views(units@).flatten().len() == chars,
    ensures
        r == views(units@).take(k as int).flatten().len(),
{
    let ghost gs = views(units@);
    let mut to: usize = 0;
    let mut i: usize = 0;
    assert(gs.take(0) =~= Seq::<Seq<char>>::empty());
    while i < k
        invariant
            gs == views(units@),
            gs.flatten().len() == chars,
            k <= units.len(),
            i <= k,
            to == gs.take(i as int).flatten().len(),
        decreases k - i,
    {
        proof {
            lemma_take_flatten_step(gs, i as int);
            lemma_take_flatten_len(gs, i + 1);
        }
        to = to + units[i].unicode_len();
        i = i + 1;
    }
    to
}

/// The slice of `s` made of the units `lo..hi`.
pub(crate) fn unit_slice<'a>(s: &'a str, units: &Vec<&'a str>, lo: usize, hi: usize) -> (r: &'a str)
    requires
        views(units@).flatten() == s@,
        lo <= hi <= units.len(),
    ensures
        r@ == joined(views(units@), lo as int, hi as int),
{
    let chars = s.unicode_len();
    let from = char_offset(units, lo, chars);
    let to = char_offset(units, hi, chars);
    proof {
        let gs = views(units@);
        lemma_joined_subrange(gs, lo as int, hi as int);
        lemma_take_flatten_len(gs, hi as int);
        assert(gs.take(hi as int) =~= gs.take(lo as int) + gs.subrange(lo as int, hi as int));
        vstd::seq_lib::lemma_flatten_concat(gs.take(lo as int), gs.subrange(lo as int, hi as int));
    }
    s.substring_char(from, to)
}

} // verus!
