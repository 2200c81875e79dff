//! Trimming from both ends so that what is left stays centred.
//!
//! Each end offers its cut points in order: a cut before each visible unit,
//! with the width it would remove. The two lists are merged by removed width,
//! taking from the start only when it has removed strictly less, and the
//! first point that removes enough is the result.
use vstd::prelude::*;
use crate::engine::{checked_total, lemma_span_mono, lemma_span_nonneg, lemma_span_split, span_width, total_width};

verus! {

/// One cut point taken by the merge: the unit index of the cut and the width
/// that the cut removes from its end.
#[derive(Clone, Copy, Debug, PartialEq, Eq)]
pub enum Removal {
    /// Remove the units before the index.
    FromStart(usize, usize),
    /// Remove the units from the index on.
    FromEnd(usize, usize),
}

/// Cut points from the start, for the visible units from `i` on: the unit
/// index and the width of everything before it.
pub open spec fn front_marks(ws: Seq<usize>, i: int) -> Seq<(usize, usize)>
    decreases ws.len() - i,
{
    if i >= ws.len() {
        Seq::empty()
    } else if ws[i] > 0 {
        seq![(i as usize, span_width(ws, 0, i) as usize)] + front_marks(ws, i + 1)
    } else {
        front_marks(ws, i + 1)
    }
}

/// Cut points from the end, for the visible units before `j`, last first: the
/// unit index and the width of that unit and everything after it.
pub open spec fn back_marks(ws: Seq<usize>, j: int) -> Seq<(usize, usize)>
    decreases j,
{
    if j <= 0 {
        Seq::empty()
    } else if ws[j - 1] > 0 {
        seq![((j - 1) as usize, span_width(ws, j - 1, ws.len() as int) as usize)] + back_marks(
            ws,
            j - 1,
        )
    } else {
        back_marks(ws, j - 1)
    }
}

/// The merge of two lists of cut points: the head of `front` goes first when
/// it removes strictly less than the head of `back`; once one list is used
/// up, the other follows.
pub open spec fn merged(front: Seq<(usize, usize)>, back: Seq<(usize, usize)>) -> Seq<Removal>
    decreases front.len() + back.len(),
{
    if front.len() == 0 && back.len() == 0 {
        Seq::empty()
    } else if front.len() > 0 && (back.len() == 0 || front[0].1 < back[0].1) {
        seq![Removal::FromStart(front[0].0, front[0].1)] + merged(front.drop_first(), back)
    } else {
        seq![Removal::FromEnd(back[0].0, back[0].1)] + merged(front, back.drop_first())
    }
}

/// The balanced walk: from the cuts `start` (removing `sr`) and `end`
/// (removing `er`), advance the end that has removed less, the end side on a
/// tie, until at least `need` is removed. Returns the two cuts, or `(0, 0)`
/// when both lists run out first.
pub open spec fn walk(
    front: Seq<(usize, usize)>,
    back: Seq<(usize, usize)>,
    need: int,
    start: int,
    sr: int,
    end: int,
    er: int,
) -> (int, int)
    decreases front.len() + back.len(),
{
    if sr + er >= need {
        (start, end)
    } else if front.len() > 0 && (back.len() == 0 || front[0].1 < back[0].1) {
        walk(front.drop_first(), back, need, front[0].0 as int, front[0].1 as int, end, er)
    } else if back.len() > 0 {
        walk(front, back.drop_first(), need, start, sr, back[0].0 as int, back[0].1 as int)
    } else {
        (0, 0)
    }
}

/// The same walk, read off an already merged list of cut points.
pub open spec fn scan_removals(
    items: Seq<Removal>,
    need: int,
    start: int,
    sr: int,
    end: int,
    er: int,
) -> (int, int)
    decreases items.len(),
{
    if sr + er >= need {
        (start, end)
    } else if items.len() == 0 {
        (0, 0)
    } else {
        match items[0] {
            Removal::FromStart(i, w) => scan_removals(
                items.drop_first(),
                need,
                i as int,
                w as int,
                end,
                er,
            ),
            Removal::FromEnd(j, w) => scan_removals(
                items.drop_first(),
                need,
                start,
                sr,
                j as int,
                w as int,
            ),
        }
    }
}

/// The units `start..end` that centred trimming keeps: nothing for a zero
/// budget, everything when it fits, nothing when the total width does not fit
/// in a machine word, and otherwise the result of the balanced walk that
/// removes at least the excess width.
pub open spec fn centered_keep(ws: Seq<usize>, max: int) -> (int, int) {
    if max == 0 {
        (0, 0)
    } else if total_width(ws) <= max {
        (0, ws.len() as int)
    } else if total_width(ws) > usize::MAX {
        (0, 0)
    } else {
        walk(
            front_marks(ws, 0),
            back_marks(ws, ws.len() as int),
            total_width(ws) - max,
            0,
            0,
            ws.len() as int,
            0,
        )
    }
}

proof fn lemma_front_marks(ws: Seq<usize>, f: int)
    requires
        0 <= f <= ws.len() <= usize::MAX,
        total_width(ws) <= usize::MAX,
    ensures
        front_marks(ws, f).len() == 0 ==> forall|k: int| f <= k < ws.len() ==> ws[k] == 0,
        front_marks(ws, f).len() > 0 ==> {
            let v = front_marks(ws, f)[0].0 as int;
            &&& f <= v < ws.len()
            &&& ws[v] > 0
            &&& forall|k: int| f <= k < v ==> ws[k] == 0
            &&& front_marks(ws, f)[0].1 as int == span_width(ws, 0, v)
            &&& front_marks(ws, f).drop_first() == front_marks(ws, v + 1)
        },
    decreases ws.len() - f,
{
    if f < ws.len() {
        lemma_front_marks(ws, f + 1);
        if ws[f] > 0 {
            lemma_span_mono(ws, 0, 0, f, ws.len() as int);
            lemma_span_nonneg(ws, 0, f);
            let m = seq![(f as usize, span_width(ws, 0, f) as usize)];
            assert((m + front_marks(ws, f + 1)).drop_first() =~= front_marks(ws, f + 1));
        }
    }
}

proof fn lemma_back_marks(ws: Seq<usize>, j: int)
    requires
        0 <= j <= ws.len() <= usize::MAX,
        total_width(ws) <= usize::MAX,
    ensures
        back_marks(ws, j).len() == 0 ==> forall|k: int| 0 <= k < j ==> ws[k] == 0,
        back_marks(ws, j).len() > 0 ==> {
            let u = back_marks(ws, j)[0].0 as int;
            &&& 0 <= u < j
            &&& ws[u] > 0
            &&& forall|k: int| u < k < j ==> ws[k] == 0
            &&& back_marks(ws, j)[0].1 as int == span_width(ws, u, ws.len() as int)
            &&& back_marks(ws, j).drop_first() == back_marks(ws, u)
        },
    decreases j,
{
    if j > 0 {
        lemma_back_marks(ws, j - 1);
        if ws[j - 1] > 0 {
            lemma_span_mono(ws, 0, j - 1, ws.len() as int, ws.len() as int);
            lemma_span_nonneg(ws, j - 1, ws.len() as int);
            let m = seq![((j - 1) as usize, span_width(ws, j - 1, ws.len() as int) as usize)];
            assert((m + back_marks(ws, j - 1)).drop_first() =~= back_marks(ws, j - 1));
        }
    }
}

/// From any state that the walk reaches, it ends on two cuts in order whose
/// kept units fit in `max`.
proof fn lemma_walk(ws: Seq<usize>, max: int, f: int, start: int, end: int)
    requires
        ws.len() <= usize::MAX,
        total_width(ws) <= usize::MAX,
        1 <= max < total_width(ws),
        0 <= start <= end <= ws.len(),
        start <= f <= ws.len(),
        (start == 0 && f == 0) || (f == start + 1 && ws[start] > 0),
        end == ws.len() || ws[end] > 0,
    ensures
        ({
            let r = walk(
                front_marks(ws, f),
                back_marks(ws, end),
                total_width(ws) - max,
                start,
                span_width(ws, 0, start),
                end,
                span_width(ws, end, ws.len() as int),
            );
            &&& 0 <= r.0 <= r.1 <= ws.len()
            &&& span_width(ws, r.0, r.1) <= max
        }),
    decreases (ws.len() - f) + end,
{
    let n = ws.len() as int;
    let front = front_marks(ws, f);
    let back = back_marks(ws, end);
    let sr = span_width(ws, 0, start);
    let er = span_width(ws, end, n);
    lemma_span_split(ws, 0, start, end);
    lemma_span_split(ws, 0, end, n);
    if sr + er >= total_width(ws) - max {
    } else {
        lemma_front_marks(ws, f);
        lemma_back_marks(ws, end);
        lemma_span_nonneg(ws, start, end);
        if front.len() > 0 && (back.len() == 0 || front[0].1 < back[0].1) {
            let v = front[0].0 as int;
            if end < n {
                assert(ws[end] > 0);
                assert(v <= end);
            }
            lemma_walk(ws, max, v + 1, v, end);
        } else if back.len() > 0 {
            let u = back[0].0 as int;
            if start > 0 {
                assert(ws[start] > 0);
                assert(u >= start);
            }
            lemma_walk(ws, max, f, start, u);
        }
    }
}

/// Scanning the merge of two lists is the balanced walk over them.
proof fn lemma_scan_merged(
    front: Seq<(usize, usize)>,
    back: Seq<(usize, usize)>,
    need: int,
    start: int,
    sr: int,
    end: int,
    er: int,
)
    ensures
        scan_removals(merged(front, back), need, start, sr, end, er) == walk(
            front,
            back,
            need,
            start,
            sr,
            end,
            er,
        ),
    decreases front.len() + back.len(),
{
    let m = merged(front, back);
    if sr + er >= need {
    } else if front.len() == 0 && back.len() == 0 {
    } else if front.len() > 0 && (back.len() == 0 || front[0].1 < back[0].1) {
        let rest = merged(front.drop_first(), back);
        assert(m.drop_first() =~= rest);
        lemma_scan_merged(front.drop_first(), back, need, front[0].0 as int, front[0].1 as int, end, er);
    } else {
        let rest = merged(front, back.drop_first());
        assert(m.drop_first() =~= rest);
        lemma_scan_merged(front, back.drop_first(), need, start, sr, back[0].0 as int, back[0].1 as int);
    }
}

/// Centred trimming keeps an ordered range of units whose width fits.
pub proof fn lemma_centered_keep_fits(ws: Seq<usize>, max: int)
    requires
        max >= 0,
        ws.len() <= usize::MAX,
    ensures
        0 <= centered_keep(ws, max).0 <= centered_keep(ws, max).1 <= ws.len(),
        span_width(ws, centered_keep(ws, max).0, centered_keep(ws, max).1) <= max,
{
    if max != 0 && total_width(ws) > max && total_width(ws) <= usize::MAX {
        lemma_walk(ws, max, 0, 0, ws.len() as int);
    }
}

/// The order of the merge: the start side goes first only when it has removed
/// strictly less, so a tie advances the end side.
fn start_goes_first(a: &(usize, usize), b: &(usize, usize)) -> (r: bool)
    ensures
        r == (a.1 < b.1),
{
    a.1 < b.1
}

/// Relies on itertools::merge_join_by with a `bool` predicate: while both
/// inputs have items it emits the left head when the predicate holds of the
/// two heads and the right head otherwise, and then the rest of the other
/// input.
#[verifier::external_body]
fn merge_removals(front: Vec<(usize, usize)>, back: Vec<(usize, usize)>) -> (r: Vec<Removal>)
    ensures
        r@ == merged(front@, back@),
{
    itertools::merge_join_by(front, back, |a, b| start_goes_first(a, b)).map(
        |e| match e {
            itertools::Either::Left((i, w)) => Removal::FromStart(i, w),
            itertools::Either::Right((j, w)) => Removal::FromEnd(j, w),
        },
    ).collect()
}

/// Trims units from both ends, keeping the rest centred: returns the first
/// kept unit, the end of the kept units, and their width.
pub fn trim_centered(ws: &Vec<usize>, max_width: usize) -> (r: (usize, usize, usize))
    ensures
        (r.0 as int, r.1 as int) == centered_keep(ws@, max_width as int),
        r.0 <= r.1 <= ws.len(),
        r.2 == span_width(ws@, r.0 as int, r.1 as int),
        r.2 <= max_width,
{
    let n = ws.len();
    if max_width == 0 {
        return (0, 0, 0);
    }
    let total = match checked_total(ws) {
        Some(t) => t,
        None => {
            return (0, 0, 0);
        },
    };
    if total <= max_width {
        return (0, n, total);
    }
    let need = total - max_width;

    let mut front: Vec<(usize, usize)> = Vec::new();
    let mut acc: usize = 0;
    let mut i: usize = 0;
    while i < n
        invariant
            n == ws.len(),
            i <= n,
            total == total_width(ws@),
            acc == span_width(ws@, 0, i as int),
            front@ + front_marks(ws@, i as int) == front_marks(ws@, 0),
        decreases n - i,
    {
        proof {
            lemma_span_mono(ws@, 0, 0, i + 1, n as int);
            let m = front_marks(ws@, i as int);
            if ws[i as int] > 0 {
                let x = (i, acc);
                assert(m == seq![x] + front_marks(ws@, i + 1));
                assert(front@.push(x) + front_marks(ws@, i + 1) =~= front@ + m);
            } else {
                assert(m == front_marks(ws@, i + 1));
            }
        }
        if ws[i] > 0 {
            front.push((i, acc));
        }
        acc = acc + ws[i];
        i = i + 1;
    }
    assert(front@ =~= front_marks(ws@, 0));

    let mut back: Vec<(usize, usize)> = Vec::new();
    let mut acc: usize = 0;
    let mut j: usize = n;
    while j > 0
        invariant
            n == ws.len(),
            j <= n,
            total == total_width(ws@),
            acc == span_width(ws@, j as int, n as int),
            back@ + back_marks(ws@, j as int) == back_marks(ws@, n as int),
        decreases j,
    {
        proof {
            lemma_span_split(ws@, j - 1, j as int, n as int);
            assert(span_width(ws@, j - 1, j - 1) == 0);
            lemma_span_mono(ws@, 0, j - 1, n as int, n as int);
            let m = back_marks(ws@, j as int);
            if ws[j - 1] > 0 {
                let x = ((j - 1) as usize, (acc + ws[j - 1]) as usize);
                assert(m == seq![x] + back_marks(ws@, j - 1));
                assert(back@.push(x) + back_marks(ws@, j - 1) =~= back@ + m);
            } else {
                assert(m == back_marks(ws@, j - 1));
            }
        }
        acc = acc + ws[j - 1];
        j = j - 1;
        if ws[j] > 0 {
            back.push((j, acc));
        }
    }
    assert(back@ =~= back_marks(ws@, n as int));

    let items = merge_removals(front, back);
    let ghost all = items@;
    let mut k: usize = 0;
    let mut start: usize = 0;
    let mut sr: usize = 0;
    let mut end: usize = n;
    let mut er: usize = 0;
    let mut found = false;
    assert(all.skip(0) =~= all);
    while k < items.len()
        invariant_except_break
            !found,
            sr + er < need,
            scan_removals(all.skip(k as int), need as int, start as int, sr as int, end as int, er as int)
                == scan_removals(all, need as int, 0, 0, n as int, 0),
        invariant
            all == items@,
            k <= items.len(),
        ensures
            found ==> scan_removals(all, need as int, 0, 0, n as int, 0) == (
                start as int,
                end as int,
            ),
            !found ==> k == items.len() && sr + er < need && scan_removals(
                all.skip(k as int),
                need as int,
                start as int,
                sr as int,
                end as int,
                er as int,
            ) == scan_removals(all, need as int, 0, 0, n as int, 0),
        decreases items.len() - k,
    {
        let ghost before = (start as int, sr as int, end as int, er as int);
        proof {
            assert(all.skip(k as int).drop_first() =~= all.skip(k + 1));
            assert(all.skip(k as int)[0] == all[k as int]);
        }
        match items[k] {
            Removal::FromStart(i, w) => {
                start = i;
                sr = w;
            },
            Removal::FromEnd(j, w) => {
                end = j;
                er = w;
            },
        }
        k = k + 1;
        assert(scan_removals(all.skip(k - 1), need as int, before.0, before.1, before.2, before.3)
            == scan_removals(all.skip(k as int), need as int, start as int, sr as int, end as int, er as int));
        match sr.checked_add(er) {
            Some(t) if t < need => {},
            _ => {
                found = true;
                break;
            },
        }
    }
    proof {
        if !found {
            assert(all.skip(k as int).len() == 0);
            assert(scan_removals(all, need as int, 0, 0, n as int, 0) == (0int, 0int));
        }
        lemma_scan_merged(
            front_marks(ws@, 0),
            back_marks(ws@, n as int),
            need as int,
            0,
            0,
            n as int,
            0,
        );
        lemma_walk(ws@, max_width as int, 0, 0, n as int);
    }
    let (lo, hi) = if found {
        (start, end)
    } else {
        (0, 0)
    };
    let mut width: usize = 0;
    let mut i: usize = lo;
    while i < hi
        invariant
            lo <= i <= hi <= n,
            n == ws.len(),
            width == span_width(ws@, lo as int, i as int),
            span_width(ws@, lo as int, hi as int) <= max_width,
        decreases hi - i,
    {
        proof {
            lemma_span_mono(ws@, lo as int, lo as int, i + 1, hi as int);
        }
        width = width + ws[i];
        i = i + 1;
    }
    (lo, hi, width)
}

} // verus!
