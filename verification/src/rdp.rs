use vstd::prelude::*;

use crate::geom::{Coord, line_wf, ring_wf};

verus! {

/// Largest tolerance value the simplifier accepts, in the same
/// fixed-point units as coordinates.
pub const EPSILON_LIMIT: i64 = 1_000_000_000;

pub open spec fn sq(a: int) -> int {
    a * a
}

/// The chord between a and b collapses to a single point.
pub open spec fn chord_degenerate(a: Coord, b: Coord) -> bool {
    a.x == b.x && a.y == b.y
}

/// Twice the signed area of the triangle (a, b, p); its magnitude is
/// the perpendicular distance of p from the line a-b times |a-b|.
pub open spec fn cross_mag(a: Coord, b: Coord, p: Coord) -> int {
    (b.x - a.x) * (p.y - a.y) - (b.y - a.y) * (p.x - a.x)
}

pub open spec fn chord_len2(a: Coord, b: Coord) -> int {
    sq(b.x - a.x) + sq(b.y - a.y)
}

/// Comparison key ordering interior points by how far they deviate
/// from the chord a-b.  For a degenerate chord the deviation is the
/// distance to the shared endpoint.
pub open spec fn dev_key(a: Coord, b: Coord, p: Coord) -> int {
    if chord_degenerate(a, b) {
        sq(p.x - a.x) + sq(p.y - a.y)
    } else {
        sq(cross_mag(a, b, p))
    }
}

/// Threshold that `dev_key` must strictly pass for a deviation of
/// more than eps: both sides of `dist > eps` are squared, and in the
/// non-degenerate case both are further scaled by |a-b|^2, so the
/// comparison needs no division and no square root.
pub open spec fn dev_threshold(a: Coord, b: Coord, eps: int) -> int {
    if chord_degenerate(a, b) {
        sq(eps)
    } else {
        sq(eps) * chord_len2(a, b)
    }
}

/// Does p deviate from the chord a-b by strictly more than eps?
pub open spec fn exceeds(a: Coord, b: Coord, p: Coord, eps: int) -> bool {
    dev_key(a, b, p) > dev_threshold(a, b, eps)
}

/// Scan of the interior points, keeping the first index of maximal
/// deviation; `best` is the best index seen among 1..i.
pub open spec fn fi_loop(s: Seq<Coord>, best: int, i: int) -> int
    decreases s.len() - i,
{
    if i >= s.len() - 1 {
        best
    } else {
        let next = if dev_key(s[0], s[s.len() - 1], s[i]) > dev_key(
            s[0],
            s[s.len() - 1],
            s[best],
        ) {
            i
        } else {
            best
        };
        fi_loop(s, next, i + 1)
    }
}

/// First interior index whose deviation from the chord joining the
/// endpoints is maximal.
pub open spec fn farthest_index(s: Seq<Coord>) -> int {
    fi_loop(s, 1, 2)
}

/// Recursive point elimination: keep both endpoints; if the interior
/// point of maximal deviation deviates by more than eps, keep it and
/// recurse on the two halves, otherwise drop every interior point.
pub open spec fn dp(s: Seq<Coord>, eps: int) -> Seq<Coord>
    decreases s.len(),
{
    if s.len() <= 2 {
        s
    } else {
        let k = farthest_index(s);
        if 1 <= k < s.len() - 1 && exceeds(s[0], s[s.len() - 1], s[k], eps) {
            dp(s.subrange(0, k + 1), eps) + dp(s.subrange(k, s.len() as int), eps).drop_first()
        } else {
            seq![s[0], s[s.len() - 1]]
        }
    }
}

proof fn lemma_fi_loop(s: Seq<Coord>, best: int, i: int)
    requires
        s.len() >= 3,
        1 <= best < i <= s.len() - 1,
        forall|j: int|
            1 <= j < i ==> dev_key(s[0], s[s.len() - 1], #[trigger] s[j]) <= dev_key(
                s[0],
                s[s.len() - 1],
                s[best],
            ),
        forall|j: int|
            1 <= j < best ==> dev_key(s[0], s[s.len() - 1], #[trigger] s[j]) < dev_key(
                s[0],
                s[s.len() - 1],
                s[best],
            ),
    ensures
        1 <= fi_loop(s, best, i) < s.len() - 1,
        forall|j: int|
            1 <= j < s.len() - 1 ==> dev_key(s[0], s[s.len() - 1], #[trigger] s[j]) <= dev_key(
                s[0],
                s[s.len() - 1],
                s[fi_loop(s, best, i)],
            ),
        forall|j: int|
            1 <= j < fi_loop(s, best, i) ==> dev_key(s[0], s[s.len() - 1], #[trigger] s[j])
                < dev_key(s[0], s[s.len() - 1], s[fi_loop(s, best, i)]),
    decreases s.len() - i,
{
    if i >= s.len() - 1 {
    } else {
        let next = if dev_key(s[0], s[s.len() - 1], s[i]) > dev_key(s[0], s[s.len() - 1], s[best]) {
            i
        } else {
            best
        };
        lemma_fi_loop(s, next, i + 1);
    }
}

/// The chosen split index is the first interior point of maximal
/// deviation.
pub proof fn lemma_farthest(s: Seq<Coord>)
    requires
        s.len() >= 3,
    ensures
        1 <= farthest_index(s) < s.len() - 1,
        forall|j: int|
            1 <= j < s.len() - 1 ==> dev_key(s[0], s[s.len() - 1], #[trigger] s[j]) <= dev_key(
                s[0],
                s[s.len() - 1],
                s[farthest_index(s)],
            ),
        forall|j: int|
            1 <= j < farthest_index(s) ==> dev_key(s[0], s[s.len() - 1], #[trigger] s[j])
                < dev_key(s[0], s[s.len() - 1], s[farthest_index(s)]),
{
    lemma_fi_loop(s, 1, 2);
}

/// Any index with the first-maximum property is the chosen one.
pub proof fn lemma_farthest_unique(s: Seq<Coord>, k: int)
    requires
        s.len() >= 3,
        1 <= k < s.len() - 1,
        forall|j: int|
            1 <= j < s.len() - 1 ==> dev_key(s[0], s[s.len() - 1], #[trigger] s[j]) <= dev_key(
                s[0],
                s[s.len() - 1],
                s[k],
            ),
        forall|j: int|
            1 <= j < k ==> dev_key(s[0], s[s.len() - 1], #[trigger] s[j]) < dev_key(
                s[0],
                s[s.len() - 1],
                s[k],
            ),
    ensures
        k == farthest_index(s),
{
    lemma_farthest(s);
    let f = farthest_index(s);
    if k < f {
        assert(dev_key(s[0], s[s.len() - 1], s[k]) < dev_key(s[0], s[s.len() - 1], s[f]));
        assert(dev_key(s[0], s[s.len() - 1], s[f]) <= dev_key(s[0], s[s.len() - 1], s[k]));
        assert(false);
    } else if f < k {
        assert(dev_key(s[0], s[s.len() - 1], s[f]) < dev_key(s[0], s[s.len() - 1], s[k]));
        assert(dev_key(s[0], s[s.len() - 1], s[k]) <= dev_key(s[0], s[s.len() - 1], s[f]));
        assert(false);
    }
}

/// The simplified sequence never grows, keeps both endpoints, and
/// keeps at least the two endpoints.
pub proof fn lemma_dp_basic(s: Seq<Coord>, eps: int)
    requires
        s.len() >= 2,
    ensures
        2 <= dp(s, eps).len() <= s.len(),
        dp(s, eps)[0] == s[0],
        dp(s, eps)[dp(s, eps).len() - 1] == s[s.len() - 1],
    decreases s.len(),
{
    if s.len() <= 2 {
    } else {
        let k = farthest_index(s);
        lemma_farthest(s);
        if exceeds(s[0], s[s.len() - 1], s[k], eps) {
            let left = s.subrange(0, k + 1);
            let right = s.subrange(k, s.len() as int);
            lemma_dp_basic(left, eps);
            lemma_dp_basic(right, eps);
        }
    }
}

/// idx lists, in strictly increasing order, the positions in s that
/// the simplified sequence t keeps; both endpoints are always kept.
pub open spec fn is_selection(t: Seq<Coord>, s: Seq<Coord>, idx: Seq<int>) -> bool {
    &&& idx.len() == t.len()
    &&& idx.len() >= 2
    &&& forall|i: int| 0 <= i < idx.len() ==> 0 <= #[trigger] idx[i] < s.len()
    &&& forall|i: int| 0 <= i < idx.len() ==> t[i] == s[#[trigger] idx[i]]
    &&& forall|i: int, j: int| 0 <= i < j < idx.len() ==> #[trigger] idx[i] < #[trigger] idx[j]
    &&& idx[0] == 0
    &&& idx[idx.len() - 1] == s.len() - 1
}

/// The simplified sequence is a selection of the input: every kept
/// point is an input point, in input order, endpoints included.
pub proof fn lemma_dp_selection(s: Seq<Coord>, eps: int) -> (idx: Seq<int>)
    requires
        s.len() >= 2,
    ensures
        is_selection(dp(s, eps), s, idx),
        s.len() >= 3 && exceeds(s[0], s[s.len() - 1], s[farthest_index(s)], eps) ==> idx[dp(
            s.subrange(0, farthest_index(s) + 1),
            eps,
        ).len() - 1] == farthest_index(s),
    decreases s.len(),
{
    if s.len() == 2 {
        let idx = seq![0int, 1int];
        assert(dp(s, eps) == s);
        idx
    } else {
        let k = farthest_index(s);
        lemma_farthest(s);
        if exceeds(s[0], s[s.len() - 1], s[k], eps) {
            let sl = s.subrange(0, k + 1);
            let sr = s.subrange(k, s.len() as int);
            let dl = dp(sl, eps);
            let dr = dp(sr, eps);
            lemma_dp_basic(sl, eps);
            lemma_dp_basic(sr, eps);
            let il = lemma_dp_selection(sl, eps);
            let ir = lemma_dp_selection(sr, eps);
            let shifted = ir.drop_first().map_values(|v: int| v + k);
            let idx = il + shifted;
            assert(dp(s, eps) == dl + dr.drop_first());
            assert forall|i: int| 0 <= i < idx.len() implies 0 <= #[trigger] idx[i] < s.len()
                && dp(s, eps)[i] == s[idx[i]] by {
            if i < il.len() {
                    assert(idx[i] == il[i]);
                    assert(dp(s, eps)[i] == dl[i]);
                    assert(dl[i] == sl[il[i]]);
                    assert(sl[il[i]] == s[il[i]]);
                } else {
                    assert(idx[i] == shifted[i - il.len()]);
                    assert(shifted[i - il.len()] == ir[i - il.len() + 1] + k);
                    assert(dp(s, eps)[i] == dr.drop_first()[i - dl.len()]);
                    assert(dr.drop_first()[i - dl.len()] == dr[i - dl.len() + 1]);
                    assert(dr[i - dl.len() + 1] == sr[ir[i - dl.len() + 1]]);
                    assert(sr[ir[i - dl.len() + 1]] == s[ir[i - dl.len() + 1] + k]);
                }
            }
            assert forall|i: int, j: int| 0 <= i < j < idx.len() implies #[trigger] idx[i]
                < #[trigger] idx[j] by {
                if j < il.len() {
                } else if i < il.len() {
                    assert(idx[i] == il[i]);
                    assert(il[i] <= il[il.len() - 1]);
                    assert(il[il.len() - 1] == k);
                    assert(idx[j] == ir[j - il.len() + 1] + k);
                    assert(ir[j - il.len() + 1] >= 1) by {
                        assert(ir[0] == 0);
                        assert(ir[0] < ir[j - il.len() + 1]);
                    }
                } else {
                    assert(idx[i] == ir[i - il.len() + 1] + k);
                    assert(idx[j] == ir[j - il.len() + 1] + k);
                    assert(ir[i - il.len() + 1] < ir[j - il.len() + 1]);
                }
            }
            assert(idx[0] == il[0]);
            assert(idx[idx.len() - 1] == ir[ir.len() - 1] + k);
            assert(idx[dl.len() - 1] == il[il.len() - 1]);
            assert(il[il.len() - 1] == sl.len() - 1);
            idx
        } else {
            let idx = seq![0int, s.len() - 1];
            assert(dp(s, eps) == seq![s[0], s[s.len() - 1]]);
            idx
        }
    }
}

proof fn lemma_threshold_mono(a: Coord, b: Coord, e1: int, e2: int)
    requires
        0 <= e1 <= e2,
    ensures
        dev_threshold(a, b, e1) <= dev_threshold(a, b, e2),
{
    if chord_degenerate(a, b) {
        assert(e1 * e1 <= e2 * e2) by (nonlinear_arith)
            requires
                0 <= e1 <= e2,
        ;
    } else {
        let l2 = chord_len2(a, b);
        lemma_sq_nonneg(b.x - a.x);
        lemma_sq_nonneg(b.y - a.y);
        assert(e1 * e1 * l2 <= e2 * e2 * l2) by (nonlinear_arith)
            requires
                0 <= e1 <= e2,
                l2 >= 0,
        ;
    }
}

/// A looser tolerance never keeps more points: for the same input,
/// raising eps can only shrink the simplified sequence.
pub proof fn lemma_dp_monotone(s: Seq<Coord>, e1: int, e2: int)
    requires
        s.len() >= 2,
        0 <= e1 <= e2,
    ensures
        dp(s, e2).len() <= dp(s, e1).len(),
    decreases s.len(),
{
    if s.len() <= 2 {
    } else {
        let k = farthest_index(s);
        lemma_farthest(s);
        lemma_threshold_mono(s[0], s[s.len() - 1], e1, e2);
        if exceeds(s[0], s[s.len() - 1], s[k], e2) {
            lemma_dp_monotone(s.subrange(0, k + 1), e1, e2);
            lemma_dp_monotone(s.subrange(k, s.len() as int), e1, e2);
            lemma_dp_basic(s.subrange(0, k + 1), e1);
            lemma_dp_basic(s.subrange(k, s.len() as int), e1);
            lemma_dp_basic(s.subrange(0, k + 1), e2);
            lemma_dp_basic(s.subrange(k, s.len() as int), e2);
        } else if exceeds(s[0], s[s.len() - 1], s[k], e1) {
            lemma_dp_basic(s, e1);
        }
    }
}

/// Simplifying is a fixed point: running the elimination a second
/// time with the same tolerance changes nothing.
pub proof fn lemma_dp_idempotent(s: Seq<Coord>, eps: int)
    requires
        s.len() >= 2,
    ensures
        dp(dp(s, eps), eps) == dp(s, eps),
    decreases s.len(),
{
    let t = dp(s, eps);
    if s.len() <= 2 {
    } else {
        let f = farthest_index(s);
        lemma_farthest(s);
        let a = s[0];
        let b = s[s.len() - 1];
        if exceeds(a, b, s[f], eps) {
            let sl = s.subrange(0, f + 1);
            let sr = s.subrange(f, s.len() as int);
            let dl = dp(sl, eps);
            let dr = dp(sr, eps);
            lemma_dp_basic(sl, eps);
            lemma_dp_basic(sr, eps);
            let il = lemma_dp_selection(sl, eps);
            let ir = lemma_dp_selection(sr, eps);
            let p = dl.len() - 1;
            assert(t == dl + dr.drop_first());
            assert(t.len() == dl.len() + dr.len() - 1);
            assert(t[0] == a);
            assert(t[t.len() - 1] == dr[dr.len() - 1]);
            assert(t[t.len() - 1] == b);
            assert(t[p] == dl[p]);
            assert(dl[p] == sl[il[p]]);
            assert(il[p] == f);
            assert(t[p] == s[f]);
            assert forall|j: int| p < j < t.len() implies t[j] == dr[j - p] by {
                assert(t[j] == dr.drop_first()[j - dl.len()]);
            }
            assert forall|j: int| 1 <= j < t.len() - 1 implies dev_key(a, b, #[trigger] t[j])
                <= dev_key(a, b, t[p]) by {
                if j <= p {
                    assert(t[j] == dl[j]);
                    assert(dl[j] == sl[il[j]]);
                    assert(il[0] < il[j]);
                    assert(il[j] <= il[p]);
                    assert(sl[il[j]] == s[il[j]]);
                } else {
                    assert(t[j] == dr[j - p]);
                    assert(dr[j - p] == sr[ir[j - p]]);
                    assert(ir[0] < ir[j - p]);
                    assert(j - p < dr.len() - 1);
                    assert(ir[j - p] < ir[ir.len() - 1]);
                    assert(ir[ir.len() - 1] == sr.len() - 1);
                    assert(sr[ir[j - p]] == s[f + ir[j - p]]);
                    assert(1 <= f + ir[j - p] < s.len() - 1);
                }
            }
            assert forall|j: int| 1 <= j < p implies dev_key(a, b, #[trigger] t[j]) < dev_key(
                a,
                b,
                t[p],
            ) by {
                assert(t[j] == dl[j]);
                assert(dl[j] == sl[il[j]]);
                assert(il[0] < il[j]);
                assert(il[j] < il[p]);
                assert(sl[il[j]] == s[il[j]]);
            }
            assert(1 <= p < t.len() - 1);
            lemma_farthest_unique(t, p);
            assert(exceeds(t[0], t[t.len() - 1], t[p], eps));
            assert(t.subrange(0, p + 1) =~= dl);
            assert(t.subrange(p, t.len() as int) =~= dr);
            lemma_dp_idempotent(sl, eps);
            lemma_dp_idempotent(sr, eps);
            assert(dp(t, eps) == dp(dl, eps) + dp(dr, eps).drop_first());
            assert(dp(t, eps) == t);
        } else {
            assert(t == seq![a, b]);
            assert(dp(t, eps) == t);
        }
    }
}

proof fn lemma_sq_nonneg(a: int) by (nonlinear_arith)
    ensures
        a * a >= 0,
{
}

proof fn lemma_mul_bounds(a: int, b: int, m: int, n: int) by (nonlinear_arith)
    requires
        -m <= a <= m,
        -n <= b <= n,
    ensures
        -(m * n) <= a * b <= m * n,
{
}

/// Compute the deviation key exactly; every intermediate fits in
/// i128 because coordinates are bounded by `COORD_LIMIT`.
fn dev_key_exec(a: Coord, b: Coord, p: Coord) -> (r: i128)
    requires
        a.in_range(),
        b.in_range(),
        p.in_range(),
    ensures
        r as int == dev_key(a, b, p),
        0 <= r,
{
    if a.x == b.x && a.y == b.y {
        let dx: i128 = p.x as i128 - a.x as i128;
        let dy: i128 = p.y as i128 - a.y as i128;
        proof {
            lemma_mul_bounds(dx as int, dx as int, 2_000_000_000, 2_000_000_000);
            lemma_mul_bounds(dy as int, dy as int, 2_000_000_000, 2_000_000_000);
            lemma_sq_nonneg(dx as int);
            lemma_sq_nonneg(dy as int);
        }
        dx * dx + dy * dy
    } else {
        let ux: i128 = b.x as i128 - a.x as i128;
        let uy: i128 = b.y as i128 - a.y as i128;
        let vx: i128 = p.x as i128 - a.x as i128;
        let vy: i128 = p.y as i128 - a.y as i128;
        proof {
            lemma_mul_bounds(ux as int, vy as int, 2_000_000_000, 2_000_000_000);
            lemma_mul_bounds(uy as int, vx as int, 2_000_000_000, 2_000_000_000);
        }
        let cr: i128 = ux * vy - uy * vx;
        proof {
            lemma_mul_bounds(cr as int, cr as int, 8_000_000_000_000_000_000, 8_000_000_000_000_000_000);
            lemma_sq_nonneg(cr as int);
        }
        cr * cr
    }
}

/// Decide `exceeds` exactly in i128 arithmetic.
fn exceeds_exec(a: Coord, b: Coord, p: Coord, eps: i64) -> (r: bool)
    requires
        a.in_range(),
        b.in_range(),
        p.in_range(),
        0 <= eps <= EPSILON_LIMIT,
    ensures
        r == exceeds(a, b, p, eps as int),
{
    let key = dev_key_exec(a, b, p);
    let e: i128 = eps as i128;
    proof {
        lemma_mul_bounds(e as int, e as int, 1_000_000_000, 1_000_000_000);
    }
    let e2: i128 = e * e;
    if a.x == b.x && a.y == b.y {
        key > e2
    } else {
        let ux: i128 = b.x as i128 - a.x as i128;
        let uy: i128 = b.y as i128 - a.y as i128;
        proof {
            lemma_mul_bounds(ux as int, ux as int, 2_000_000_000, 2_000_000_000);
            lemma_mul_bounds(uy as int, uy as int, 2_000_000_000, 2_000_000_000);
            lemma_sq_nonneg(ux as int);
            lemma_sq_nonneg(uy as int);
        }
        let len2: i128 = ux * ux + uy * uy;
        proof {
            lemma_sq_nonneg(e as int);
            lemma_mul_bounds(e2 as int, len2 as int, 1_000_000_000_000_000_000, 8_000_000_000_000_000_000);
        }
        key > e2 * len2
    }
}

/// Simplify the stretch s[lo..hi] of the input, eliminating interior
/// points that deviate from the local chord by at most eps.
fn dp_segment(s: &Vec<Coord>, lo: usize, hi: usize, eps: i64) -> (r: Vec<Coord>)
    requires
        lo + 2 <= hi <= s@.len(),
        forall|i: int| 0 <= i < s@.len() ==> (#[trigger] s@[i]).in_range(),
        0 <= eps <= EPSILON_LIMIT,
    ensures
        r@ == dp(s@.subrange(lo as int, hi as int), eps as int),
    decreases hi - lo,
{
    let ghost sub = s@.subrange(lo as int, hi as int);
    let a = s[lo];
    let b = s[hi - 1];
    if hi - lo == 2 {
        let mut out: Vec<Coord> = Vec::new();
        out.push(a);
        out.push(b);
        proof {
            assert(out@ =~= sub);
        }
        out
    } else {
        let mut best: usize = lo + 1;
        let mut best_key: i128 = dev_key_exec(a, b, s[lo + 1]);
        let mut i: usize = lo + 2;
        while i < hi - 1
            invariant
                lo + 2 <= hi <= s@.len(),
                forall|t: int| 0 <= t < s@.len() ==> (#[trigger] s@[t]).in_range(),
                a == s@[lo as int],
                b == s@[hi - 1],
                lo + 1 <= best < i <= hi - 1,
                best_key as int == dev_key(a, b, s@[best as int]),
                forall|j: int|
                    lo + 1 <= j < i ==> dev_key(a, b, #[trigger] s@[j]) <= best_key as int,
                forall|j: int|
                    lo + 1 <= j < best ==> dev_key(a, b, #[trigger] s@[j]) < best_key as int,
            decreases hi - 1 - i,
        {
            let key = dev_key_exec(a, b, s[i]);
            if key > best_key {
                best = i;
                best_key = key;
            }
            i += 1;
        }
        let ghost k = best - lo;
        proof {
            assert(sub.len() == hi - lo);
            assert(sub[0] == a);
            assert(sub[sub.len() - 1] == b);
            assert forall|j: int| 1 <= j < sub.len() - 1 implies dev_key(
                sub[0],
                sub[sub.len() - 1],
                #[trigger] sub[j],
            ) <= dev_key(sub[0], sub[sub.len() - 1], sub[k]) by {
                assert(sub[j] == s@[lo + j]);
                assert(sub[k] == s@[best as int]);
            }
            assert forall|j: int| 1 <= j < k implies dev_key(
                sub[0],
                sub[sub.len() - 1],
                #[trigger] sub[j],
            ) < dev_key(sub[0], sub[sub.len() - 1], sub[k]) by {
                assert(sub[j] == s@[lo + j]);
                assert(sub[k] == s@[best as int]);
            }
            lemma_farthest_unique(sub, k);
        }
        if exceeds_exec(a, b, s[best], eps) {
            let mut left = dp_segment(s, lo, best + 1, eps);
            let right = dp_segment(s, best, hi, eps);
            proof {
                assert(s@.subrange(lo as int, best + 1) =~= sub.subrange(0, k + 1));
                assert(s@.subrange(best as int, hi as int) =~= sub.subrange(k, sub.len() as int));
            }
            proof {
                lemma_dp_basic(sub.subrange(0, k + 1), eps as int);
                lemma_dp_basic(sub.subrange(k, sub.len() as int), eps as int);
                assert(left@ =~= left@ + right@.subrange(1, 1));
            }
            let ghost left0 = left@;
            let mut j: usize = 1;
            while j < right.len()
                invariant
                    1 <= j <= right@.len(),
                    left@ == left0 + right@.subrange(1, j as int),
                decreases right@.len() - j,
            {
                left.push(right[j]);
                j += 1;
                proof {
                    assert(left@ =~= left0 + right@.subrange(1, j as int));
                }
            }
            proof {
                assert(right@.subrange(1, right@.len() as int) =~= right@.drop_first());
                assert(left@ =~= dp(sub, eps as int));
            }
            left
        } else {
            let mut out: Vec<Coord> = Vec::new();
            out.push(a);
            out.push(b);
            proof {
                assert(out@ =~= dp(sub, eps as int));
            }
            out
        }
    }
}

/// Copy a coordinate sequence.
pub fn copy_line(l: &Vec<Coord>) -> (r: Vec<Coord>)
    ensures
        r@ == l@,
{
    let mut out: Vec<Coord> = Vec::new();
    let mut i: usize = 0;
    while i < l.len()
        invariant
            0 <= i <= l@.len(),
            out@ == l@.subrange(0, i as int),
        decreases l@.len() - i,
    {
        out.push(l[i]);
        i += 1;
    }
    proof {
        assert(l@.subrange(0, l@.len() as int) =~= l@);
    }
    out
}

/// Simplify an open polyline: the result is exactly the recursive
/// point elimination of the input.
pub fn simplify_line_string(l: &Vec<Coord>, eps: i64) -> (r: Vec<Coord>)
    requires
        line_wf(l@),
        0 <= eps <= EPSILON_LIMIT,
    ensures
        r@ == dp(l@, eps as int),
{
    proof {
        assert(l@.subrange(0, l@.len() as int) =~= l@);
    }
    dp_segment(l, 0, l.len(), eps)
}

/// A simplified ring, with the original ring as fallback wherever
/// plain point elimination would leave fewer than four points.
pub open spec fn simplify_ring_spec(r: Seq<Coord>, eps: int) -> Seq<Coord> {
    if dp(r, eps).len() >= 4 {
        dp(r, eps)
    } else {
        r
    }
}

/// Simplify one closed ring; the fallback keeps the ring valid.
pub fn simplify_ring(r: &Vec<Coord>, eps: i64) -> (out: Vec<Coord>)
    requires
        ring_wf(r@),
        0 <= eps <= EPSILON_LIMIT,
    ensures
        out@ == simplify_ring_spec(r@, eps as int),
{
    proof {
        assert(r@.subrange(0, r@.len() as int) =~= r@);
    }
    let d = dp_segment(r, 0, r.len(), eps);
    if d.len() >= 4 {
        d
    } else {
        copy_line(r)
    }
}

/// Every simplified ring is still a well-formed ring: closed, at
/// least four points, all of them points of the input ring, and
/// never more points than the input.
pub proof fn lemma_simplify_ring_valid(r: Seq<Coord>, eps: int)
    requires
        ring_wf(r),
    ensures
        ring_wf(simplify_ring_spec(r, eps)),
        simplify_ring_spec(r, eps).len() <= r.len(),
        simplify_ring_spec(r, eps)[0] == r[0],
{
    let d = dp(r, eps);
    lemma_dp_basic(r, eps);
    if d.len() >= 4 {
        let idx = lemma_dp_selection(r, eps);
        assert forall|i: int| 0 <= i < d.len() implies (#[trigger] d[i]).in_range() by {
            assert(d[i] == r[idx[i]]);
        }
    }
}

/// A simplified open line keeps its endpoints, stays between two
/// points and the input length, and keeps only input points.
pub proof fn lemma_simplify_line_valid(l: Seq<Coord>, eps: int)
    requires
        line_wf(l),
    ensures
        line_wf(dp(l, eps)),
        2 <= dp(l, eps).len() <= l.len(),
        dp(l, eps)[0] == l[0],
        dp(l, eps)[dp(l, eps).len() - 1] == l[l.len() - 1],
{
    lemma_dp_basic(l, eps);
    let d = dp(l, eps);
    let idx = lemma_dp_selection(l, eps);
    assert forall|i: int| 0 <= i < d.len() implies (#[trigger] d[i]).in_range() by {
        assert(d[i] == l[idx[i]]);
    }
}

} // verus!
