//! Collapsing near-duplicate border candidates into stable grid lines.
//!
//! Candidates are sorted by scan index and walked once against a tracked
//! reference candidate: one whose start and end both lie within the position
//! tolerance of the reference is judged to be the same physical border, and
//! the pair is emitted once the index separation reaches the minimum; the
//! reference then advances to it. A candidate outside the tolerance is
//! discarded and the reference stays put.

use vstd::prelude::*;

verus! {

/// A border candidate or grid line: `(index, start, end)` — the fixed scan
/// coordinate, then the span in the varying coordinate.
pub type Line = (u32, u32, u32);

/// Nondecreasing in the scan index.
pub open spec fn lines_sorted(s: Seq<Line>) -> bool {
    forall|i: int, j: int| 0 <= i < j < s.len() ==> s[i].0 <= s[j].0
}

/// `x` placed after every element whose index is at most `x.0`.
pub open spec fn insert_line(s: Seq<Line>, x: Line) -> Seq<Line>
    decreases s.len(),
{
    if s.len() == 0 {
        seq![x]
    } else if x.0 < s.last().0 {
        insert_line(s.drop_last(), x).push(s.last())
    } else {
        s.push(x)
    }
}

/// Stable insertion sort by scan index.
pub open spec fn sort_lines(s: Seq<Line>) -> Seq<Line>
    decreases s.len(),
{
    if s.len() == 0 {
        Seq::empty()
    } else {
        insert_line(sort_lines(s.drop_last()), s.last())
    }
}

pub proof fn lemma_insert_line_at(s: Seq<Line>, x: Line, p: int)
    requires
        lines_sorted(s),
        0 <= p <= s.len(),
        forall|k: int| p <= k < s.len() ==> x.0 < s[k].0,
        p > 0 ==> s[p - 1].0 <= x.0,
    ensures
        insert_line(s, x) == s.take(p) + seq![x] + s.skip(p),
        lines_sorted(insert_line(s, x)),
    decreases s.len(),
{
    if s.len() == 0 {
        assert(insert_line(s, x) =~= s.take(p) + seq![x] + s.skip(p));
    } else if p == s.len() {
        assert(insert_line(s, x) =~= s.take(p) + seq![x] + s.skip(p));
    } else {
        assert(x.0 < s.last().0);
        assert(lines_sorted(s.drop_last()));
        lemma_insert_line_at(s.drop_last(), x, p);
        assert(insert_line(s, x) =~= s.take(p) + seq![x] + s.skip(p));
    }
    assert forall|i: int, j: int|
        0 <= i < j < insert_line(s, x).len() implies (s.take(p) + seq![x] + s.skip(p))[i].0
        <= (s.take(p) + seq![x] + s.skip(p))[j].0 by {
        let t = s.take(p) + seq![x] + s.skip(p);
        if i < p && j < p {
        } else if i < p && j == p {
            assert(s[i].0 <= s[p - 1].0);
        } else if i < p {
            assert(t[j] == s[j - 1]);
            assert(s[i].0 <= s[j - 1].0);
        } else if i == p {
            assert(t[j] == s[j - 1]);
            assert(x.0 < s[j - 1].0);
        } else {
            assert(t[i] == s[i - 1]);
            assert(t[j] == s[j - 1]);
        }
    }
}

/// The split point of a sorted sequence: everything whose index strictly
/// exceeds the new index lies at or after it.
pub proof fn line_insert_point(t: Seq<Line>, x: Line) -> (p: int)
    requires
        lines_sorted(t),
    ensures
        0 <= p <= t.len(),
        forall|k: int| p <= k < t.len() ==> x.0 < t[k].0,
        p > 0 ==> t[p - 1].0 <= x.0,
    decreases t.len(),
{
    if t.len() == 0 {
        0
    } else if t.last().0 <= x.0 {
        t.len() as int
    } else {
        assert(lines_sorted(t.drop_last()));
        let p = line_insert_point(t.drop_last(), x);
        assert forall|k: int| p <= k < t.len() implies x.0 < t[k].0 by {
            if k < t.len() - 1 {
                assert(t[k] == t.drop_last()[k]);
            }
        }
        p
    }
}

pub proof fn lemma_sort_lines_len(s: Seq<Line>)
    ensures
        sort_lines(s).len() == s.len(),
    decreases s.len(),
{
    if s.len() > 0 {
        lemma_sort_lines_len(s.drop_last());
        lemma_insert_line_len(sort_lines(s.drop_last()), s.last());
    }
}

pub proof fn lemma_insert_line_len(s: Seq<Line>, x: Line)
    ensures
        insert_line(s, x).len() == s.len() + 1,
    decreases s.len(),
{
    if s.len() > 0 && x.0 < s.last().0 {
        lemma_insert_line_len(s.drop_last(), x);
    }
}

/// Sorts candidates by scan index, equal indices keeping their order.
fn sorted_lines(lines: &Vec<Line>) -> (r: Vec<Line>)
    ensures
        r@ == sort_lines(lines@),
        lines_sorted(r@),
{
    let mut out: Vec<Line> = Vec::new();
    let mut i: usize = 0;
    proof {
        assert(lines@.take(0) =~= Seq::<Line>::empty());
    }
    while i < lines.len()
        invariant
            i <= lines.len(),
            out@ == sort_lines(lines@.take(i as int)),
            lines_sorted(out@),
        decreases lines.len() - i,
    {
        let x = lines[i];
        let mut j: usize = out.len();
        while j > 0 && x.0 < out[j - 1].0
            invariant
                j <= out.len(),
                lines_sorted(out@),
                forall|k: int| j <= k < out.len() ==> x.0 < out@[k].0,
            decreases j,
        {
            j = j - 1;
        }
        proof {
            lemma_insert_line_at(out@, x, j as int);
            assert(lines@.take(i as int) =~= lines@.take(i + 1).drop_last());
            assert(lines@.take(i + 1).last() == x);
        }
        out.insert(j, x);
        proof {
            assert(out@ =~= sort_lines(lines@.take(i as int)).take(j as int) + seq![x] + sort_lines(
                lines@.take(i as int),
            ).skip(j as int));
        }
        i = i + 1;
    }
    proof {
        assert(lines@.take(lines@.len() as int) =~= lines@);
    }
    out
}

/// Distance between two coordinates.
pub open spec fn dist(a: u32, b: u32) -> int {
    if a >= b {
        a - b
    } else {
        b - a
    }
}

/// Whether a candidate's span lies within the position tolerance of the
/// tracked reference span.
pub open spec fn near(ls: u32, le: u32, st: u32, en: u32, t: u32) -> bool {
    dist(ls, st) < t && dist(le, en) < t
}

/// Walk of the sorted candidates from position `i` with the tracked reference
/// `(ll, ls, le)`: a matching candidate is emitted together with the
/// reference once their index separation reaches `d`, and becomes the new
/// reference; a non-matching candidate is dropped.
pub open spec fn dedup_fold(
    s: Seq<Line>,
    i: int,
    ll: u32,
    ls: u32,
    le: u32,
    t: u32,
    d: u32,
) -> Seq<Line>
    decreases s.len() - i,
{
    if i < 0 || i >= s.len() {
        Seq::empty()
    } else {
        let (lv, st, en) = s[i];
        if near(ls, le, st, en, t) {
            (if lv - ll >= d {
                seq![(ll, ls, le), (lv, st, en)]
            } else {
                Seq::empty()
            }) + dedup_fold(s, i + 1, lv, st, en, t, d)
        } else {
            dedup_fold(s, i + 1, ll, ls, le, t, d)
        }
    }
}

/// The grid lines that deduplication leaves of a candidate sequence, after
/// sorting it by scan index: position tolerance `t`, minimum separation `d`.
/// The walk starts with the first candidate as its own reference, so the
/// first candidate matches itself and is emitted only when `d` is zero.
pub open spec fn dedup_spec(s: Seq<Line>, t: u32, d: u32) -> Seq<Line> {
    if s.len() == 0 {
        Seq::empty()
    } else {
        dedup_fold(s, 0, s[0].0, s[0].1, s[0].2, t, d)
    }
}

/// Stability of deduplication: a border sampled at its two extreme scan
/// indices with identical start and end collapses to exactly those two grid
/// lines once the index span reaches the minimum separation, and to none
/// while the span is below it.
pub proof fn lemma_dedup_two_samples(i1: u32, i2: u32, st: u32, en: u32, t: u32, d: u32)
    requires
        t >= 1,
        d >= 1,
        i1 <= i2,
    ensures
        dedup_spec(sort_lines(seq![(i1, st, en), (i2, st, en)]), t, d) == if i2 - i1 >= d {
            seq![(i1, st, en), (i2, st, en)]
        } else {
            Seq::<Line>::empty()
        },
{
    let s = seq![(i1, st, en), (i2, st, en)];
    assert(lines_sorted(s));
    lemma_sort_lines_id(s);
    assert(dedup_fold(s, 2, i2, st, en, t, d) =~= Seq::<Line>::empty());
    assert(near(st, en, st, en, t));
    if i2 - i1 >= d {
        assert(dedup_fold(s, 1, i1, st, en, t, d) =~= seq![(i1, st, en), (i2, st, en)]);
        assert(dedup_fold(s, 0, i1, st, en, t, d) =~= seq![(i1, st, en), (i2, st, en)]);
    } else {
        assert(dedup_fold(s, 1, i1, st, en, t, d) =~= Seq::<Line>::empty());
        assert(dedup_fold(s, 0, i1, st, en, t, d) =~= Seq::<Line>::empty());
    }
}

/// A candidate sequence already in index order sorts to itself.
pub proof fn lemma_sort_lines_id(s: Seq<Line>)
    requires
        lines_sorted(s),
    ensures
        sort_lines(s) == s,
    decreases s.len(),
{
    if s.len() == 0 {
        assert(sort_lines(s) =~= s);
    } else {
        assert(lines_sorted(s.drop_last()));
        lemma_sort_lines_id(s.drop_last());
        if s.len() == 1 {
            assert(insert_line(s.drop_last(), s.last()) =~= s);
        } else {
            assert(s.drop_last().last().0 <= s.last().0);
            assert(insert_line(s.drop_last(), s.last()) =~= s);
        }
    }
}

/// Collapses the sorted candidate stream into confirmed grid lines: a
/// candidate whose start and end both drift less than `threshold` from the
/// tracked reference confirms that border, and reference and candidate are
/// emitted as its two extreme positions once they are at least
/// `min_distance` scan indices apart.
pub fn deduplicate_lines(lines: Vec<Line>, threshold: u32, min_distance: u32) -> (r: Vec<Line>)
    ensures
        r@ == dedup_spec(sort_lines(lines@), threshold, min_distance),
{
    let mut deduplicated: Vec<Line> = Vec::new();

    if lines.is_empty() {
        return deduplicated;
    }

    let sorted = sorted_lines(&lines);
    let ghost s = sorted@;
    proof {
        lemma_sort_lines_len(lines@);
    }

    let mut last_level: u32 = sorted[0].0;
    let mut last_start: u32 = sorted[0].1;
    let mut last_end: u32 = sorted[0].2;
    let ghost mut last_at: int = 0;

    let mut i: usize = 0;
    while i < sorted.len()
        invariant
            i <= sorted.len(),
            sorted@ == s,
            s.len() > 0,
            lines_sorted(s),
            0 <= last_at < s.len(),
            last_at <= i as int,
            (last_level, last_start, last_end) == s[last_at],
            dedup_spec(s, threshold, min_distance) == deduplicated@ + dedup_fold(
                s,
                i as int,
                last_level,
                last_start,
                last_end,
                threshold,
                min_distance,
            ),
        decreases sorted.len() - i,
    {
        let (level, start, end) = sorted[i];
        let ds: u32 = if last_start >= start {
            last_start - start
        } else {
            start - last_start
        };
        let de: u32 = if last_end >= end {
            last_end - end
        } else {
            end - last_end
        };
        if ds < threshold && de < threshold {
            proof {
                assert(s[last_at].0 <= s[i as int].0);
            }
            if level - last_level >= min_distance {
                deduplicated.push((last_level, last_start, last_end));
                deduplicated.push((level, start, end));
            }
            last_level = level;
            last_start = start;
            last_end = end;
            proof {
                last_at = i as int;
            }
        }
        i = i + 1;
    }

    deduplicated
}

} // verus!
