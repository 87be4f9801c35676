//! History recall over a transcript: stepping backward and forward through
//! the prompts that are not blank, from a cursor that is either unset (the
//! live line) or the index of the prompt last recalled.

use vstd::prelude::*;
use crate::transcript::Entry;

verus! {

/// The last recallable index below `s`.
pub open spec fn prev_from(h: Seq<Entry>, s: int) -> Option<int>
    decreases s,
{
    if s <= 0 || s > h.len() {
        None
    } else if h[s - 1].recallable() {
        Some(s - 1)
    } else {
        prev_from(h, s - 1)
    }
}

/// The first recallable index at or above `s`.
pub open spec fn next_from(h: Seq<Entry>, s: int) -> Option<int>
    decreases h.len() - s,
{
    if s < 0 || s >= h.len() {
        None
    } else if h[s].recallable() {
        Some(s)
    } else {
        next_from(h, s + 1)
    }
}

/// Where a backward scan starts: at the cursor, or past the end on the live line.
pub open spec fn scan_start(h: Seq<Entry>, c: Option<int>) -> int {
    match c {
        Some(i) => i,
        None => h.len() as int,
    }
}

/// The cursor after one backward recall; it stays where it was when nothing
/// earlier is recallable.
pub open spec fn prev_step(h: Seq<Entry>, c: Option<int>) -> Option<int> {
    match prev_from(h, scan_start(h, c)) {
        Some(j) => Some(j),
        None => c,
    }
}

/// The cursor after one forward recall; on the live line, or with nothing
/// later recallable, it stays where it was.
pub open spec fn next_step(h: Seq<Entry>, c: Option<int>) -> Option<int> {
    match c {
        Some(i) => match next_from(h, i + 1) {
            Some(j) => Some(j),
            None => c,
        },
        None => None,
    }
}

/// The cursor after `k` backward recalls.
pub open spec fn prev_iter(h: Seq<Entry>, c: Option<int>, k: nat) -> Option<int>
    decreases k,
{
    if k == 0 {
        c
    } else {
        prev_step(h, prev_iter(h, c, (k - 1) as nat))
    }
}

/// The cursor after `k` forward recalls.
pub open spec fn next_iter(h: Seq<Entry>, c: Option<int>, k: nat) -> Option<int>
    decreases k,
{
    if k == 0 {
        c
    } else {
        next_step(h, next_iter(h, c, (k - 1) as nat))
    }
}

/// The recallable indices below `s`, in increasing order.
pub open spec fn points_below(h: Seq<Entry>, s: int) -> Seq<int>
    decreases s,
{
    if s <= 0 || s > h.len() {
        Seq::empty()
    } else if h[s - 1].recallable() {
        points_below(h, s - 1).push(s - 1)
    } else {
        points_below(h, s - 1)
    }
}

/// The indices of all recallable prompts, earliest first.
pub open spec fn recall_points(h: Seq<Entry>) -> Seq<int> {
    points_below(h, h.len() as int)
}

/// The points below `s` increase strictly and lie below `s`.
proof fn lemma_points_shape(h: Seq<Entry>, s: int)
    requires
        0 <= s <= h.len(),
    ensures
        forall|a: int, b: int|
            0 <= a < b < points_below(h, s).len() ==> points_below(h, s)[a] < points_below(h, s)[b],
        forall|a: int| 0 <= a < points_below(h, s).len() ==> 0 <= #[trigger] points_below(h, s)[a] < s,
    decreases s,
{
    if s > 0 {
        lemma_points_shape(h, s - 1);
        let q = points_below(h, s - 1);
        if h[s - 1].recallable() {
            let r = q.push(s - 1);
            assert forall|a: int| 0 <= a < r.len() implies 0 <= #[trigger] r[a] < s by {
                if a < q.len() {
                    assert(r[a] == q[a]);
                }
            }
            assert forall|a: int, b: int| 0 <= a < b < r.len() implies r[a] < r[b] by {
                assert(r[a] == q[a]);
            }
        }
    }
}

/// The points below `s` are the first ones of those below `t >= s`; the
/// others are at least `s`.
proof fn lemma_points_prefix(h: Seq<Entry>, s: int, t: int)
    requires
        0 <= s <= t <= h.len(),
    ensures
        points_below(h, s).len() <= points_below(h, t).len(),
        points_below(h, t).take(points_below(h, s).len() as int) == points_below(h, s),
        forall|a: int|
            points_below(h, s).len() <= a < points_below(h, t).len() ==> points_below(h, t)[a] >= s,
    decreases t - s,
{
    if s < t {
        lemma_points_prefix(h, s, t - 1);
        let ps = points_below(h, s);
        let pt = points_below(h, t - 1);
        if h[t - 1].recallable() {
            assert(pt.push(t - 1).take(ps.len() as int) =~= pt.take(ps.len() as int));
        }
    } else {
        assert(points_below(h, t).take(points_below(h, s).len() as int) =~= points_below(h, s));
    }
}

/// A backward scan from `s` finds the last point below `s`.
proof fn lemma_prev_from_points(h: Seq<Entry>, s: int)
    requires
        0 <= s <= h.len(),
    ensures
        prev_from(h, s) == if points_below(h, s).len() == 0 {
            None
        } else {
            Some(points_below(h, s).last())
        },
    decreases s,
{
    if s > 0 {
        lemma_prev_from_points(h, s - 1);
    }
}

/// A forward scan from `s` finds the first point at or above `s`.
proof fn lemma_next_from_points(h: Seq<Entry>, s: int)
    requires
        0 <= s <= h.len(),
    ensures
        next_from(h, s) == if points_below(h, s).len() < recall_points(h).len() {
            Some(recall_points(h)[points_below(h, s).len() as int])
        } else {
            None
        },
    decreases h.len() - s,
{
    lemma_points_prefix(h, s, h.len() as int);
    if s < h.len() {
        lemma_next_from_points(h, s + 1);
        lemma_points_prefix(h, s + 1, h.len() as int);
        if h[s].recallable() {
            let ps = points_below(h, s);
            let p = recall_points(h);
            assert(points_below(h, s + 1) == ps.push(s));
            assert(p.take(ps.len() as int + 1)[ps.len() as int] == p[ps.len() as int]);
        }
    }
}

/// The points below the `m`-th point are the `m` points before it.
proof fn lemma_points_below_point(h: Seq<Entry>, m: int)
    requires
        0 <= m < recall_points(h).len(),
    ensures
        points_below(h, recall_points(h)[m]) == recall_points(h).take(m),
        points_below(h, recall_points(h)[m] + 1) == recall_points(h).take(m + 1),
{
    let p = recall_points(h);
    let n = h.len() as int;
    lemma_points_shape(h, n);
    let s = p[m];
    lemma_points_prefix(h, s, n);
    lemma_points_shape(h, s);
    let q = points_below(h, s).len() as int;
    if q > m {
        assert(p.take(q)[m] == points_below(h, s)[m]);
    }
    if q < m {
        assert(p[q] >= s);
    }
    assert(q == m);
    assert(h[s].recallable()) by {
        lemma_points_prefix(h, s + 1, n);
        lemma_points_prefix(h, s, s + 1);
        if !h[s].recallable() {
            assert(points_below(h, s + 1) == points_below(h, s));
            assert(p[m] >= s + 1);
        }
    }
    lemma_points_prefix(h, s + 1, n);
    assert(points_below(h, s + 1) == p.take(m).push(s));
    assert(p.take(m + 1) =~= p.take(m).push(s));
}

/// Backward recall from the live line visits the non-blank prompts latest
/// first, one per step, and once at the earliest one stays there; with none,
/// the cursor stays unset.
pub proof fn lemma_recall_previous_walk(h: Seq<Entry>, k: nat)
    ensures
        prev_iter(h, None, k) == if k == 0 || recall_points(h).len() == 0 {
            None
        } else if k <= recall_points(h).len() {
            Some(recall_points(h)[recall_points(h).len() - k])
        } else {
            Some(recall_points(h)[0])
        },
    decreases k,
{
    let p = recall_points(h);
    let n = p.len() as int;
    if k > 0 {
        lemma_recall_previous_walk(h, (k - 1) as nat);
        if k == 1 || n == 0 {
            lemma_prev_from_points(h, h.len() as int);
        } else {
            let m = if k - 1 <= n { n - (k - 1) } else { 0 };
            lemma_points_shape(h, h.len() as int);
            lemma_points_below_point(h, m);
            lemma_prev_from_points(h, p[m]);
        }
    }
}

/// Forward recall from the `m`-th non-blank prompt visits the later ones in
/// order, one per step, and once at the latest one stays there.
pub proof fn lemma_recall_next_walk(h: Seq<Entry>, m: int, k: nat)
    requires
        0 <= m < recall_points(h).len(),
    ensures
        next_iter(h, Some(recall_points(h)[m]), k) == Some(
            recall_points(h)[if m + k < recall_points(h).len() {
                m + k
            } else {
                recall_points(h).len() - 1
            }],
        ),
    decreases k,
{
    let p = recall_points(h);
    let n = p.len() as int;
    if k > 0 {
        lemma_recall_next_walk(h, m, (k - 1) as nat);
        let j = if m + k - 1 < n { m + k - 1 } else { n - 1 };
        lemma_points_shape(h, h.len() as int);
        lemma_points_below_point(h, j);
        lemma_next_from_points(h, p[j] + 1);
    }
}

/// After walking back to the earliest non-blank prompt, forward recall
/// replays the same prompts in their original order and then holds at the
/// latest one instead of returning to the live line.
pub proof fn lemma_recall_back_then_forward(h: Seq<Entry>, k: nat)
    requires
        recall_points(h).len() > 0,
    ensures
        next_iter(h, prev_iter(h, None, recall_points(h).len()), k) == Some(
            recall_points(h)[if k < recall_points(h).len() {
                k as int
            } else {
                recall_points(h).len() - 1
            }],
        ),
{
    lemma_recall_previous_walk(h, recall_points(h).len());
    lemma_recall_next_walk(h, 0, k);
}

} // verus!
