//! Merging of dark-pixel runs into border segments.
//!
//! All runs that share one scan index are sorted by their start coordinate
//! and folded left: a run whose start is within the merge gap of the current
//! segment's end extends the segment, anything further away closes it. A
//! closed segment survives only if it is at least the minimum border length.

use vstd::prelude::*;

verus! {

/// A run or segment along one scan line: `(start, end)` in the varying
/// coordinate, the end exclusive.
pub type Span = (u32, u32);

/// Nondecreasing in the start coordinate.
pub open spec fn spans_sorted(s: Seq<Span>) -> bool {
    forall|i: int, j: int| 0 <= i < j < s.len() ==> s[i].0 <= s[j].0
}

/// `x` placed after every element whose start is at most `x.0`.
pub open spec fn insert_span(s: Seq<Span>, x: Span) -> Seq<Span>
    decreases s.len(),
{
    if s.len() == 0 {
        seq![x]
    } else if x.0 < s.last().0 {
        insert_span(s.drop_last(), x).push(s.last())
    } else {
        s.push(x)
    }
}

/// Stable insertion sort by start coordinate.
pub open spec fn sort_spans(s: Seq<Span>) -> Seq<Span>
    decreases s.len(),
{
    if s.len() == 0 {
        Seq::empty()
    } else {
        insert_span(sort_spans(s.drop_last()), s.last())
    }
}

pub proof fn lemma_insert_span_at(s: Seq<Span>, x: Span, p: int)
    requires
        spans_sorted(s),
        0 <= p <= s.len(),
        forall|k: int| p <= k < s.len() ==> x.0 < s[k].0,
        p > 0 ==> s[p - 1].0 <= x.0,
    ensures
        insert_span(s, x) == s.take(p) + seq![x] + s.skip(p),
        spans_sorted(insert_span(s, x)),
    decreases s.len(),
{
    if s.len() == 0 {
        assert(insert_span(s, x) =~= s.take(p) + seq![x] + s.skip(p));
    } else if p == s.len() {
        assert(insert_span(s, x) =~= s.take(p) + seq![x] + s.skip(p));
    } else {
        assert(x.0 < s.last().0);
        assert(spans_sorted(s.drop_last()));
        lemma_insert_span_at(s.drop_last(), x, p);
        assert(insert_span(s, x) =~= s.take(p) + seq![x] + s.skip(p));
    }
    assert forall|i: int, j: int|
        0 <= i < j < insert_span(s, x).len() implies (s.take(p) + seq![x] + s.skip(p))[i].0
        <= (s.take(p) + seq![x] + s.skip(p))[j].0 by {
        let t = s.take(p) + seq![x] + s.skip(p);
        if i < p && j < p {
        } else if i < p && j == p {
            assert(s[i].0 <= s[p - 1].0);
        } else if i < p {
            assert(t[j] == s[j - 1]);
            assert(s[i].0 <= s[j - 1].0);
        } else if i == p {
            assert(t[j] == s[j - 1]);
            assert(x.0 < s[j - 1].0);
        } else {
            assert(t[i] == s[i - 1]);
            assert(t[j] == s[j - 1]);
        }
    }
}

pub proof fn lemma_sort_spans_sorted(s: Seq<Span>)
    ensures
        spans_sorted(sort_spans(s)),
    decreases s.len(),
{
    if s.len() > 0 {
        lemma_sort_spans_sorted(s.drop_last());
        let t = sort_spans(s.drop_last());
        let x = s.last();
        let p = insert_point(t, x);
        lemma_insert_span_at(t, x, p);
    }
}

/// The split point of a sorted sequence: everything whose start strictly
/// exceeds the new start lies at or after it.
pub proof fn insert_point(t: Seq<Span>, x: Span) -> (p: int)
    requires
        spans_sorted(t),
    ensures
        0 <= p <= t.len(),
        forall|k: int| p <= k < t.len() ==> x.0 < t[k].0,
        p > 0 ==> t[p - 1].0 <= x.0,
    decreases t.len(),
{
    if t.len() == 0 {
        0
    } else if t.last().0 <= x.0 {
        t.len() as int
    } else {
        assert(spans_sorted(t.drop_last()));
        let p = insert_point(t.drop_last(), x);
        assert forall|k: int| p <= k < t.len() implies x.0 < t[k].0 by {
            if k < t.len() - 1 {
                assert(t[k] == t.drop_last()[k]);
            }
        }
        p
    }
}

/// Sorts spans by their start coordinate, equal starts keeping their order.
fn sorted_spans(lines: &Vec<Span>) -> (r: Vec<Span>)
    ensures
        r@ == sort_spans(lines@),
        spans_sorted(r@),
{
    let mut out: Vec<Span> = Vec::new();
    let mut i: usize = 0;
    proof {
        assert(lines@.take(0) =~= Seq::<Span>::empty());
    }
    while i < lines.len()
        invariant
            i <= lines.len(),
            out@ == sort_spans(lines@.take(i as int)),
            spans_sorted(out@),
        decreases lines.len() - i,
    {
        let x = lines[i];
        let mut j: usize = out.len();
        while j > 0 && x.0 < out[j - 1].0
            invariant
                j <= out.len(),
                spans_sorted(out@),
                forall|k: int| j <= k < out.len() ==> x.0 < out@[k].0,
            decreases j,
        {
            j = j - 1;
        }
        proof {
            lemma_insert_span_at(out@, x, j as int);
            assert(lines@.take(i as int) =~= lines@.take(i + 1).drop_last());
            assert(lines@.take(i + 1).last() == x);
        }
        out.insert(j, x);
        proof {
            assert(out@ =~= sort_spans(lines@.take(i as int)).take(j as int) + seq![x] + sort_spans(
                lines@.take(i as int),
            ).skip(j as int));
        }
        i = i + 1;
    }
    proof {
        assert(lines@.take(lines@.len() as int) =~= lines@);
    }
    out
}

/// Whether a segment from `min` to `max` is long enough to be a border.
pub open spec fn long_enough(min: u32, max: u32, l: u32) -> bool {
    max - min >= l
}

pub open spec fn emit_if_long(min: u32, max: u32, l: u32) -> Seq<Span> {
    if long_enough(min, max, l) {
        seq![(min, max)]
    } else {
        Seq::empty()
    }
}

/// Left fold of the merge over a sorted run sequence, from position `i` with
/// the open segment `(min, max)`: a run starting within `t` of `max` extends
/// the segment, any other run closes it.
pub open spec fn clean_fold(s: Seq<Span>, i: int, min: u32, max: u32, t: u32, l: u32) -> Seq<Span>
    decreases s.len() - i,
{
    if i < 0 || i >= s.len() {
        emit_if_long(min, max, l)
    } else {
        let (st, en) = s[i];
        if st - max < t {
            clean_fold(s, i + 1, min, en, t, l)
        } else {
            emit_if_long(min, max, l) + clean_fold(s, i + 1, st, en, t, l)
        }
    }
}

/// The segments that merging leaves of a run sequence (after sorting it by
/// start): merge gap `t`, minimum length `l`.
pub open spec fn clean_spec(s: Seq<Span>, t: u32, l: u32) -> Seq<Span> {
    if s.len() == 0 {
        Seq::empty()
    } else {
        clean_fold(s, 1, s[0].0, s[0].1, t, l)
    }
}

/// Merges runs that share one scan index into border segments: runs are
/// sorted by start, a run whose start is within `threshold` of the current
/// segment's end extends it, and a closed segment is kept only when its
/// length is at least `min_length`.
pub fn clean_lines(lines: Vec<Span>, threshold: u32, min_length: u32) -> (r: Vec<Span>)
    ensures
        r@ == clean_spec(sort_spans(lines@), threshold, min_length),
{
    let mut cleaned: Vec<Span> = Vec::new();

    if lines.is_empty() {
        return cleaned;
    }

    let sorted = sorted_spans(&lines);
    let ghost s = sorted@;
    proof {
        assert(s.len() == lines@.len()) by {
            lemma_sort_spans_len(lines@);
        }
    }

    let mut min: u32 = sorted[0].0;
    let mut max: u32 = sorted[0].1;

    let mut i: usize = 1;
    while i < sorted.len()
        invariant
            1 <= i <= sorted.len(),
            sorted@ == s,
            clean_spec(s, threshold, min_length) == cleaned@ + clean_fold(
                s,
                i as int,
                min,
                max,
                threshold,
                min_length,
            ),
        decreases sorted.len() - i,
    {
        let (start, end) = sorted[i];
        if start < max || start - max < threshold {
            max = end;
        } else {
            if max >= min && max - min >= min_length {
                cleaned.push((min, max));
            }
            min = start;
            max = end;
        }
        proof {
            assert(clean_spec(s, threshold, min_length) == cleaned@ + clean_fold(
                s,
                i + 1,
                min,
                max,
                threshold,
                min_length,
            ));
        }
        i = i + 1;
    }

    if max >= min && max - min >= min_length {
        cleaned.push((min, max));
    }
    cleaned
}

/// The length filter is a sharp boundary: a lone run of length exactly
/// `min_length` survives the merge, while one a single pixel shorter is
/// discarded.
pub proof fn lemma_length_filter_boundary(st: u32, threshold: u32, min_length: u32)
    requires
        min_length >= 1,
        st + min_length <= u32::MAX,
    ensures
        clean_spec(sort_spans(seq![(st, (st + min_length) as u32)]), threshold, min_length)
            == seq![(st, (st + min_length) as u32)],
        clean_spec(sort_spans(seq![(st, (st + min_length - 1) as u32)]), threshold, min_length)
            == Seq::<Span>::empty(),
{
    lemma_sort_single((st, (st + min_length) as u32));
    lemma_sort_single((st, (st + min_length - 1) as u32));
    assert(clean_spec(seq![(st, (st + min_length) as u32)], threshold, min_length) =~= seq![
        (st, (st + min_length) as u32),
    ]);
    assert(clean_spec(seq![(st, (st + min_length - 1) as u32)], threshold, min_length) =~= Seq::<
        Span,
    >::empty());
}

pub proof fn lemma_sort_single(x: Span)
    ensures
        sort_spans(seq![x]) == seq![x],
{
    assert(seq![x].drop_last() =~= Seq::<Span>::empty());
    assert(sort_spans(Seq::<Span>::empty()) =~= Seq::<Span>::empty());
    assert(seq![x].last() == x);
    assert(insert_span(Seq::<Span>::empty(), x) =~= seq![x]);
    assert(sort_spans(seq![x]) =~= insert_span(sort_spans(seq![x].drop_last()), seq![x].last()));
}

/// A sequence already in order sorts to itself.
pub proof fn lemma_sort_spans_id(s: Seq<Span>)
    requires
        spans_sorted(s),
    ensures
        sort_spans(s) == s,
    decreases s.len(),
{
    if s.len() == 0 {
        assert(sort_spans(s) =~= s);
    } else {
        assert(spans_sorted(s.drop_last()));
        lemma_sort_spans_id(s.drop_last());
        if s.len() == 1 {
            assert(insert_span(s.drop_last(), s.last()) =~= s);
        } else {
            assert(s.drop_last().last().0 <= s.last().0);
            assert(insert_span(s.drop_last(), s.last()) =~= s);
        }
    }
}

/// Every segment is at least `l` long.
pub open spec fn segs_long(c: Seq<Span>, l: u32) -> bool {
    forall|k: int| 0 <= k < c.len() ==> (#[trigger] c[k]).1 - c[k].0 >= l
}

/// Consecutive segments sit at least `t` apart.
pub open spec fn segs_gapped(c: Seq<Span>, t: u32) -> bool {
    forall|k: int| 0 < k < c.len() ==> (#[trigger] c[k]).0 - c[k - 1].1 >= t
}

/// Shape of everything the merge fold emits: every segment is long enough,
/// consecutive segments are at least the merge gap apart, and no segment
/// starts before the open one.
pub proof fn lemma_clean_fold_props(s: Seq<Span>, i: int, min: u32, max: u32, t: u32, l: u32)
    requires
        spans_sorted(s),
        0 <= i,
        forall|j: int| i <= j < s.len() ==> min <= (#[trigger] s[j]).0,
    ensures
        segs_long(clean_fold(s, i, min, max, t, l), l),
        segs_gapped(clean_fold(s, i, min, max, t, l), t),
        clean_fold(s, i, min, max, t, l).len() > 0 ==> clean_fold(s, i, min, max, t, l)[0].0
            >= min,
    decreases s.len() - i,
{
    let o = clean_fold(s, i, min, max, t, l);
    if i >= s.len() {
    } else {
        let (st, en) = s[i];
        if st - max < t {
            lemma_clean_fold_props(s, i + 1, min, en, t, l);
        } else {
            lemma_clean_fold_props(s, i + 1, st, en, t, l);
            let rest = clean_fold(s, i + 1, st, en, t, l);
            if long_enough(min, max, l) {
                assert(o == seq![(min, max)] + rest);
                assert forall|k: int| 0 < k < o.len() implies (#[trigger] o[k]).0 - o[k - 1].1
                    >= t by {
                    assert(o[k] == rest[k - 1]);
                    if k == 1 {
                        assert(rest[0].0 >= st);
                        assert(o[0] == (min, max));
                    } else {
                        assert(o[k - 1] == rest[k - 2]);
                        assert(rest[k - 1].0 - rest[k - 2].1 >= t);
                    }
                }
                assert forall|k: int| 0 <= k < o.len() implies (#[trigger] o[k]).1 - o[k].0
                    >= l by {
                    if k > 0 {
                        assert(o[k] == rest[k - 1]);
                        assert(rest[k - 1].1 - rest[k - 1].0 >= l);
                    }
                }
            } else {
                assert(o =~= rest);
            }
        }
    }
}

/// Segments that already meet the length floor and sit at least the merge
/// gap apart pass through the fold unchanged.
pub proof fn lemma_clean_fold_id(c: Seq<Span>, i: int, t: u32, l: u32)
    requires
        1 <= i <= c.len(),
        segs_long(c, l),
        segs_gapped(c, t),
    ensures
        clean_fold(c, i, c[i - 1].0, c[i - 1].1, t, l) == c.skip(i - 1),
    decreases c.len() - i,
{
    if i == c.len() {
        assert(c[i - 1].1 - c[i - 1].0 >= l);
        assert(clean_fold(c, i, c[i - 1].0, c[i - 1].1, t, l) =~= c.skip(i - 1));
    } else {
        assert(c[i].0 - c[i - 1].1 >= t);
        assert(c[i - 1].1 - c[i - 1].0 >= l);
        lemma_clean_fold_id(c, i + 1, t, l);
        assert(clean_fold(c, i, c[i - 1].0, c[i - 1].1, t, l) =~= seq![c[i - 1]] + c.skip(i));
        assert(seq![c[i - 1]] + c.skip(i) =~= c.skip(i - 1));
    }
}

/// Merging is idempotent: feeding the cleaned segments back through the
/// merge with the same gap and length floor returns them unchanged.
pub proof fn lemma_clean_idempotent(runs: Seq<Span>, t: u32, l: u32)
    ensures
        clean_spec(sort_spans(clean_spec(sort_spans(runs), t, l)), t, l) == clean_spec(
            sort_spans(runs),
            t,
            l,
        ),
{
    lemma_sort_spans_sorted(runs);
    let s = sort_spans(runs);
    let c = clean_spec(s, t, l);
    if s.len() == 0 {
        assert(c =~= Seq::<Span>::empty());
        lemma_sort_spans_id(c);
    } else {
        lemma_clean_fold_props(s, 1, s[0].0, s[0].1, t, l);
        assert(spans_sorted(c)) by {
            assert forall|i: int, j: int| 0 <= i < j < c.len() implies c[i].0 <= c[j].0 by {
                lemma_clean_sorted_step(c, i, j, t, l);
            }
        }
        lemma_sort_spans_id(c);
        if c.len() == 0 {
        } else {
            lemma_clean_fold_id(c, 1, t, l);
            assert(c.skip(0) =~= c);
        }
    }
}

/// Chains the gap and length facts into sortedness of the cleaned output.
proof fn lemma_clean_sorted_step(c: Seq<Span>, i: int, j: int, t: u32, l: u32)
    requires
        segs_long(c, l),
        segs_gapped(c, t),
        0 <= i < j < c.len(),
    ensures
        c[i].0 <= c[j].0,
    decreases j - i,
{
    assert(c[i].1 - c[i].0 >= l);
    assert(c[i + 1].0 - c[i].1 >= t);
    if i + 1 < j {
        lemma_clean_sorted_step(c, i + 1, j, t, l);
    }
}

pub proof fn lemma_sort_spans_len(s: Seq<Span>)
    ensures
        sort_spans(s).len() == s.len(),
    decreases s.len(),
{
    if s.len() > 0 {
        lemma_sort_spans_len(s.drop_last());
        lemma_insert_span_len(sort_spans(s.drop_last()), s.last());
    }
}

pub proof fn lemma_insert_span_len(s: Seq<Span>, x: Span)
    ensures
        insert_span(s, x).len() == s.len() + 1,
    decreases s.len(),
{
    if s.len() > 0 && x.0 < s.last().0 {
        lemma_insert_span_len(s.drop_last(), x);
    }
}

} // verus!
