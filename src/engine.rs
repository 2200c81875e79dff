//! The truncation engine over a sequence of unit widths.
//!
//! A text is seen here as the widths of its atomic units, in order. Every
//! function returns unit indices: the kept units are always a contiguous run.
use vstd::prelude::*;

verus! {

/// Total width of the units `lo..hi` (zero when the range is empty).
pub open spec fn span_width(ws: Seq<usize>, lo: int, hi: int) -> int
    decreases hi - lo,
{
    if hi <= lo {
        0
    } else {
        span_width(ws, lo, hi - 1) + ws[hi - 1]
    }
}

/// Total width of all units.
pub open spec fn total_width(ws: Seq<usize>) -> int {
    span_width(ws, 0, ws.len() as int)
}

/// Widths add up over adjacent ranges.
pub proof fn lemma_span_split(ws: Seq<usize>, lo: int, mid: int, hi: int)
    requires
        lo <= mid <= hi,
    ensures
        span_width(ws, lo, mid) + span_width(ws, mid, hi) == span_width(ws, lo, hi),
    decreases hi - mid,
{
    if hi > mid {
        lemma_span_split(ws, lo, mid, hi - 1);
    }
}

/// A width is never negative.
pub proof fn lemma_span_nonneg(ws: Seq<usize>, lo: int, hi: int)
    ensures
        span_width(ws, lo, hi) >= 0,
    decreases hi - lo,
{
    if hi > lo {
        lemma_span_nonneg(ws, lo, hi - 1);
    }
}

/// A wider range has at least the width of a range inside it.
pub proof fn lemma_span_mono(ws: Seq<usize>, lo: int, lo2: int, hi2: int, hi: int)
    requires
        lo <= lo2 <= hi2 <= hi,
    ensures
        span_width(ws, lo2, hi2) <= span_width(ws, lo, hi),
{
    lemma_span_split(ws, lo, lo2, hi);
    lemma_span_split(ws, lo2, hi2, hi);
    lemma_span_nonneg(ws, lo, lo2);
    lemma_span_nonneg(ws, hi2, hi);
}

/// The width of a range of a sub-sequence is the width of the same units in
/// the whole sequence.
pub proof fn lemma_span_subrange(ws: Seq<usize>, a: int, b: int, lo: int, hi: int)
    requires
        0 <= a <= b <= ws.len(),
        0 <= lo <= hi <= b - a,
    ensures
        span_width(ws.subrange(a, b), lo, hi) == span_width(ws, a + lo, a + hi),
    decreases hi - lo,
{
    if hi > lo {
        lemma_span_subrange(ws, a, b, lo, hi - 1);
    }
}

/// The longest prefix of at most `k` units whose width fits in `max`.
pub open spec fn longest_fit(ws: Seq<usize>, max: int, k: int) -> int
    decreases k,
{
    if k <= 0 {
        0
    } else if span_width(ws, 0, k) <= max {
        k
    } else {
        longest_fit(ws, max, k - 1)
    }
}

/// How many leading units trimming from the end keeps: none for a zero
/// budget, otherwise the longest prefix that fits. Zero-width units right
/// after that prefix are part of it, since they do not change its width.
pub open spec fn end_keep(ws: Seq<usize>, max: int) -> int {
    if max == 0 {
        0
    } else {
        longest_fit(ws, max, ws.len() as int)
    }
}

proof fn lemma_longest_fit_is(ws: Seq<usize>, max: int, k: int, i: int)
    requires
        0 <= i <= k <= ws.len(),
        span_width(ws, 0, i) <= max,
        i == ws.len() || span_width(ws, 0, i + 1) > max,
    ensures
        longest_fit(ws, max, k) == i,
    decreases k,
{
    if k > i {
        lemma_span_mono(ws, 0, 0, i + 1, k);
        lemma_longest_fit_is(ws, max, k - 1, i);
    }
}

/// Trims units from the end: returns how many leading units are kept and
/// their width.
pub fn trim_end(ws: &Vec<usize>, max_width: usize) -> (r: (usize, usize))
    ensures
        r.0 == end_keep(ws@, max_width as int),
        r.0 <= ws.len(),
        r.1 == span_width(ws@, 0, r.0 as int),
        r.1 <= max_width,
{
    if max_width == 0 {
        return (0, 0);
    }
    let mut i: usize = 0;
    let mut acc: usize = 0;
    while i < ws.len()
        invariant
            i <= ws.len(),
            acc == span_width(ws@, 0, i as int),
            acc <= max_width,
        ensures
            i <= ws.len(),
            acc == span_width(ws@, 0, i as int),
            acc <= max_width,
            i == ws.len() || span_width(ws@, 0, i + 1) > max_width,
        decreases ws.len() - i,
    {
        match acc.checked_add(ws[i]) {
            Some(next) if next <= max_width => {
                acc = next;
                i = i + 1;
            },
            _ => {
                break;
            },
        }
    }
    proof {
        lemma_longest_fit_is(ws@, max_width as int, ws@.len() as int, i as int);
    }
    (i, acc)
}

/// A unit index where trimming from the start may begin the kept text: the
/// rest fits, and unless nothing was removed or nothing is left, the first
/// kept unit is visible. Zero-width units exposed by the cut belong to a unit
/// that was removed, so they go with it.
pub open spec fn start_ok(ws: Seq<usize>, max: int, j: int) -> bool {
    &&& span_width(ws, j, ws.len() as int) <= max
    &&& (j == 0 || j == ws.len() || ws[j] > 0)
}

/// The first index from `j` on where the kept text may begin.
pub open spec fn first_start(ws: Seq<usize>, max: int, j: int) -> int
    decreases ws.len() - j,
{
    if j >= ws.len() {
        ws.len() as int
    } else if start_ok(ws, max, j) {
        j
    } else {
        first_start(ws, max, j + 1)
    }
}

/// Index of the first unit that trimming from the start keeps: past the end
/// for a zero budget, otherwise the first index where the kept text may
/// begin.
pub open spec fn start_keep(ws: Seq<usize>, max: int) -> int {
    if max == 0 {
        ws.len() as int
    } else {
        first_start(ws, max, 0)
    }
}

proof fn lemma_first_start_is(ws: Seq<usize>, max: int, j: int, b: int)
    requires
        0 <= j <= b <= ws.len(),
        b == ws.len() || start_ok(ws, max, b),
        forall|i: int| j <= i < b ==> !start_ok(ws, max, i),
    ensures
        first_start(ws, max, j) == b,
    decreases ws.len() - j,
{
    if j < b {
        lemma_first_start_is(ws, max, j + 1, b);
    }
}

/// Trims units from the start: returns the index of the first kept unit and
/// the width of the units from there to the end.
pub fn trim_start(ws: &Vec<usize>, max_width: usize) -> (r: (usize, usize))
    ensures
        r.0 == start_keep(ws@, max_width as int),
        r.0 <= ws.len(),
        r.1 == span_width(ws@, r.0 as int, ws.len() as int),
        r.1 <= max_width,
{
    let n = ws.len();
    if max_width == 0 {
        return (n, 0);
    }
    let mut j: usize = n;
    let mut acc: usize = 0;
    let mut best: usize = n;
    let mut best_width: usize = 0;
    while j > 0
        invariant
            n == ws.len(),
            j <= best <= n,
            acc == span_width(ws@, j as int, n as int),
            acc <= max_width,
            best_width == span_width(ws@, best as int, n as int),
            best == n || ws[best as int] > 0,
            forall|i: int| j <= i < best ==> ws[i] == 0,
        ensures
            j <= best <= n,
            acc == span_width(ws@, j as int, n as int),
            acc <= max_width,
            best_width == span_width(ws@, best as int, n as int),
            best == n || ws[best as int] > 0,
            forall|i: int| j <= i < best ==> ws[i] == 0,
            j == 0 || span_width(ws@, j - 1, n as int) > max_width,
        decreases j,
    {
        proof {
            lemma_span_split(ws@, j - 1, j as int, n as int);
            assert(span_width(ws@, j - 1, j - 1) == 0);
            assert(span_width(ws@, j - 1, j as int) == ws[j - 1]);
        }
        match acc.checked_add(ws[j - 1]) {
            Some(next) if next <= max_width => {
                acc = next;
                j = j - 1;
                if ws[j] > 0 {
                    best = j;
                    best_width = acc;
                }
            },
            _ => {
                break;
            },
        }
    }
    if j == 0 {
        proof {
            lemma_first_start_is(ws@, max_width as int, 0, 0);
        }
        return (0, acc);
    }
    proof {
        assert forall|i: int| 0 <= i < best implies !start_ok(ws@, max_width as int, i) by {
            if i < j {
                lemma_span_mono(ws@, i, j - 1, n as int, n as int);
            }
        }
        lemma_span_mono(ws@, j as int, best as int, n as int, n as int);
        lemma_first_start_is(ws@, max_width as int, 0, best as int);
    }
    (best, best_width)
}

/// The total width, or `None` when it does not fit in a machine word.
pub fn checked_total(ws: &Vec<usize>) -> (r: Option<usize>)
    ensures
        r matches Some(t) ==> t == total_width(ws@),
        r is None ==> total_width(ws@) > usize::MAX,
{
    let mut total: usize = 0;
    let mut i: usize = 0;
    while i < ws.len()
        invariant
            i <= ws.len(),
            total == span_width(ws@, 0, i as int),
        decreases ws.len() - i,
    {
        match total.checked_add(ws[i]) {
            Some(t) => {
                total = t;
                i = i + 1;
            },
            None => {
                proof {
                    lemma_span_mono(ws@, 0, 0, i + 1, ws.len() as int);
                }
                return None;
            },
        }
    }
    Some(total)
}

/// Trimming from the end keeps a prefix whose width fits.
pub proof fn lemma_end_keep_fits(ws: Seq<usize>, max: int)
    requires
        max >= 0,
    ensures
        0 <= end_keep(ws, max) <= ws.len(),
        span_width(ws, 0, end_keep(ws, max)) <= max,
{
    if max != 0 {
        lemma_longest_fit_fits(ws, max, ws.len() as int);
    }
}

proof fn lemma_longest_fit_fits(ws: Seq<usize>, max: int, k: int)
    requires
        max >= 0,
        k <= ws.len(),
    ensures
        0 <= longest_fit(ws, max, k) <= ws.len(),
        longest_fit(ws, max, k) <= k || k < 0,
        span_width(ws, 0, longest_fit(ws, max, k)) <= max,
    decreases k,
{
    if k > 0 && span_width(ws, 0, k) > max {
        lemma_longest_fit_fits(ws, max, k - 1);
    }
}

/// Trimming from the start keeps a suffix whose width fits.
pub proof fn lemma_start_keep_fits(ws: Seq<usize>, max: int)
    requires
        max >= 0,
    ensures
        0 <= start_keep(ws, max) <= ws.len(),
        span_width(ws, start_keep(ws, max), ws.len() as int) <= max,
{
    if max != 0 {
        lemma_first_start_fits(ws, max, 0);
    }
}

proof fn lemma_first_start_fits(ws: Seq<usize>, max: int, j: int)
    requires
        max >= 0,
        0 <= j <= ws.len(),
    ensures
        j <= first_start(ws, max, j) <= ws.len(),
        span_width(ws, first_start(ws, max, j), ws.len() as int) <= max,
    decreases ws.len() - j,
{
    if j < ws.len() && !start_ok(ws, max, j) {
        lemma_first_start_fits(ws, max, j + 1);
    }
}

} // verus!
