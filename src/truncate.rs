//! Truncation and padding of `str` by display width.
use vstd::prelude::*;
use vstd::string::StringExecFns;
use crate::engine::{checked_total, end_keep, span_width, start_keep, trim_end, trim_start};
use crate::center::{centered_keep, trim_centered};
use crate::units::{
    grapheme_clusters, joined, segment, text_width, unit_slice, unit_widths, well_segmented, widths,
};

verus! {

/// Where text sits in its columns, which also decides the end that
/// truncation removes.
#[derive(PartialEq, Eq, Debug, Copy, Clone)]
pub enum Alignment {
    /// Align to the left: truncation removes from the end.
    Left,
    /// Centre: truncation removes from both ends.
    Center,
    /// Align to the right: truncation removes from the start.
    Right,
}

/// The units `lo..hi` that truncation to `max` columns keeps.
pub open spec fn kept_range(units: Seq<Seq<char>>, max: int, align: Alignment) -> (int, int) {
    let ws = widths(units);
    match align {
        Alignment::Left => (0, end_keep(ws, max)),
        Alignment::Right => (start_keep(ws, max), units.len() as int),
        Alignment::Center => centered_keep(ws, max),
    }
}

/// What truncation to `max` columns returns: the text of the kept units and
/// their width.
pub open spec fn truncated(units: Seq<Seq<char>>, max: int, align: Alignment) -> (Seq<char>, int) {
    let r = kept_range(units, max, align);
    (joined(units, r.0, r.1), span_width(widths(units), r.0, r.1))
}

/// How padding splits `diff` columns of spaces between the left and the
/// right: the centre puts the smaller half on the left.
pub open spec fn pad_split(diff: int, align: Alignment) -> (int, int) {
    match align {
        Alignment::Left => (0, diff),
        Alignment::Right => (diff, 0),
        Alignment::Center => (diff / 2, diff - diff / 2),
    }
}

/// `n` spaces.
pub open spec fn spaces(n: int) -> Seq<char> {
    Seq::new(n as nat, |_i: int| ' ')
}

/// What padding to `target` columns returns: without truncation a text at
/// least that wide comes back as it is; otherwise the text is truncated to
/// `target` columns by `align` and spaces fill the columns left over.
pub open spec fn padded(units: Seq<Seq<char>>, target: int, align: Alignment, truncate: bool) -> Seq<
    char,
> {
    if !truncate && text_width(units) >= target {
        units.flatten()
    } else {
        let t = truncated(units, target, align);
        let p = pad_split(target - t.1, align);
        spaces(p.0) + t.0 + spaces(p.1)
    }
}

/// Whether padding adds no space: the text comes back as it is, or its
/// truncation already takes exactly `target` columns.
pub open spec fn pads_nothing(units: Seq<Seq<char>>, target: int, align: Alignment, truncate: bool) -> bool {
    (!truncate && text_width(units) >= target) || truncated(units, target, align).1 == target
}

/// Appends `n` spaces to `s`.
fn push_spaces(s: &mut String, n: usize)
    ensures
        final(s)@ == old(s)@ + spaces(n as int),
{
    let ghost start = s@;
    let mut i: usize = 0;
    while i < n
        invariant
            i <= n,
            s@ == start + spaces(i as int),
        decreases n - i,
    {
        proof {
            reveal_strlit(" ");
        }
        s.append(" ");
        i = i + 1;
        assert(s@ =~= start + spaces(i as int));
    }
}

/// Truncates the text `s` to at most `max_width` columns, keeping whole
/// grapheme clusters.
fn truncate_text<'a>(s: &'a str, max_width: usize, align: Alignment) -> (r: (&'a str, usize))
    ensures
        well_segmented(s@),
        (r.0@, r.1 as int) == truncated(grapheme_clusters(s@), max_width as int, align),
{
    let units = segment(s);
    let ws = unit_widths(&units);
    let (lo, hi, width) = match align {
        Alignment::Left => {
            let (k, w) = trim_end(&ws, max_width);
            (0, k, w)
        },
        Alignment::Right => {
            let (j, w) = trim_start(&ws, max_width);
            (j, ws.len(), w)
        },
        Alignment::Center => trim_centered(&ws, max_width),
    };
    (unit_slice(s, &units, lo, hi), width)
}

/// Methods for padding or truncating text by its display width.
pub trait UnicodeTruncateStr {
    /// The characters of the text.
    spec fn text(&self) -> Seq<char>;

    /// Truncates to at most `max_width` columns by removing units from the
    /// end; returns the longest prefix that fits and its width. Zero-width
    /// units right after the cut are kept.
    fn unicode_truncate(&self, max_width: usize) -> (r: (&str, usize))
        ensures
            well_segmented(self.text()),
            (r.0@, r.1 as int) == truncated(
                grapheme_clusters(self.text()),
                max_width as int,
                Alignment::Left,
            ),
    ;

    /// Truncates to at most `max_width` columns by removing units from the
    /// start; returns the longest suffix that fits and its width. Zero-width
    /// units that the cut leaves at the front are removed too.
    fn unicode_truncate_start(&self, max_width: usize) -> (r: (&str, usize))
        ensures
            well_segmented(self.text()),
            (r.0@, r.1 as int) == truncated(
                grapheme_clusters(self.text()),
                max_width as int,
                Alignment::Right,
            ),
    ;

    /// Truncates to at most `max_width` columns by removing units from both
    /// ends, so that what is left stays centred; returns it and its width.
    fn unicode_truncate_centered(&self, max_width: usize) -> (r: (&str, usize))
        ensures
            well_segmented(self.text()),
            (r.0@, r.1 as int) == truncated(
                grapheme_clusters(self.text()),
                max_width as int,
                Alignment::Center,
            ),
    ;

    /// Truncates to at most `max_width` columns, removing from the end for
    /// `Left`, from both ends for `Center` and from the start for `Right`.
    fn unicode_truncate_aligned(&self, max_width: usize, align: Alignment) -> (r: (&str, usize))
        ensures
            well_segmented(self.text()),
            (r.0@, r.1 as int) == truncated(grapheme_clusters(self.text()), max_width as int, align),
    {
        match align {
            Alignment::Left => self.unicode_truncate(max_width),
            Alignment::Center => self.unicode_truncate_centered(max_width),
            Alignment::Right => self.unicode_truncate_start(max_width),
        }
    }

    /// Pads to exactly `target_width` columns with spaces placed by `align`.
    /// With `truncate`, a wider text is first truncated by `align`; without
    /// it, a text at least `target_width` wide is returned as it is. The
    /// result borrows from the text exactly when no space is added.
    fn unicode_pad(&self, target_width: usize, align: Alignment, truncate: bool) -> (r:
        std::borrow::Cow<'_, str>)
        ensures
            (r matches std::borrow::Cow::Borrowed(_)) <==> pads_nothing(
                grapheme_clusters(self.text()),
                target_width as int,
                align,
                truncate,
            ),
            well_segmented(self.text()),
            r@ == padded(grapheme_clusters(self.text()), target_width as int, align, truncate),
    ;
}

impl UnicodeTruncateStr for str {
    open spec fn text(&self) -> Seq<char> {
        self@
    }

    fn unicode_truncate(&self, max_width: usize) -> (r: (&str, usize)) {
        truncate_text(self, max_width, Alignment::Left)
    }

    fn unicode_truncate_start(&self, max_width: usize) -> (r: (&str, usize)) {
        truncate_text(self, max_width, Alignment::Right)
    }

    fn unicode_truncate_centered(&self, max_width: usize) -> (r: (&str, usize)) {
        truncate_text(self, max_width, Alignment::Center)
    }

    fn unicode_pad(&self, target_width: usize, align: Alignment, truncate: bool) -> (r:
        std::borrow::Cow<'_, str>) {
        let units = segment(self);
        if !truncate {
            let ws = unit_widths(&units);
            let wide = match checked_total(&ws) {
                Some(t) => t >= target_width,
                None => true,
            };
            if wide {
                return std::borrow::Cow::Borrowed(self);
            }
        }
        let (kept, columns) = self.unicode_truncate_aligned(target_width, align);
        proof {
            crate::laws::lemma_width_bound(
                grapheme_clusters(self@),
                target_width,
                align,
            );
        }
        if columns == target_width {
            return std::borrow::Cow::Borrowed(kept);
        }
        let diff = target_width - columns;
        let (left, right) = match align {
            Alignment::Left => (0, diff),
            Alignment::Right => (diff, 0),
            Alignment::Center => (diff / 2, diff - diff / 2),
        };
        let mut result = String::new();
        push_spaces(&mut result, left);
        result.append(kept);
        push_spaces(&mut result, right);
        proof {
            assert(result@ =~= spaces(left as int) + kept@ + spaces(right as int));
        }
        std::borrow::Cow::Owned(result)
    }
}

} // verus!
