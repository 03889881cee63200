//! The largest 8-connected patch of one color in a captured region.
use vstd::prelude::*;
use vstd::set_lib::{set_int_range, lemma_int_range, lemma_len_subset};
use crate::pixels::{PixelFormat, channel_offsets, spec_channel_offsets, dist_sq};

verus! {

/// What a color scan looks at: the frame bytes, the region's shape, where
/// the channels sit in a pixel, and the color with its squared-distance limit.
pub struct ColorScan {
    pub buf: Seq<u8>,
    pub stride: int,
    pub w: int,
    pub h: int,
    pub ro: int,
    pub go: int,
    pub bo: int,
    pub r: u8,
    pub g: u8,
    pub b: u8,
    pub limit: int,
}

pub open spec fn color_scan(
    buf: Seq<u8>,
    stride: usize,
    w: u32,
    h: u32,
    fmt: PixelFormat,
    r: u8,
    g: u8,
    b: u8,
    limit: i64,
) -> ColorScan {
    let (ro, go, bo) = spec_channel_offsets(fmt);
    ColorScan {
        buf,
        stride: stride as int,
        w: w as int,
        h: h as int,
        ro: ro as int,
        go: go as int,
        bo: bo as int,
        r,
        g,
        b,
        limit: limit as int,
    }
}

/// The pixel lies inside the scanned region.
pub open spec fn inb(sc: ColorScan, p: (int, int)) -> bool {
    0 <= p.0 < sc.w && 0 <= p.1 < sc.h
}

/// The pixel's bytes lie in the buffer and its color is within the limit.
pub open spec fn hit(sc: ColorScan, p: (int, int)) -> bool {
    let off = p.1 * sc.stride + p.0 * 4;
    &&& off + 4 <= sc.buf.len()
    &&& dist_sq(sc.buf[off + sc.ro], sc.buf[off + sc.go], sc.buf[off + sc.bo], sc.r, sc.g, sc.b) <= sc.limit
}

pub open spec fn member(sc: ColorScan, p: (int, int)) -> bool {
    inb(sc, p) && hit(sc, p)
}

/// The eight neighbours of a pixel.
pub open spec fn adj(p: (int, int), q: (int, int)) -> bool {
    &&& p != q
    &&& -1 <= p.0 - q.0 <= 1
    &&& -1 <= p.1 - q.1 <= 1
}

/// Distinct matching pixels, each after the first next to an earlier one:
/// an 8-connected patch listed from one of its pixels outwards.
pub open spec fn grown(sc: ColorScan, q: Seq<(int, int)>) -> bool {
    &&& q.len() > 0
    &&& q.no_duplicates()
    &&& forall|k: int| 0 <= k < q.len() ==> #[trigger] member(sc, q[k])
    &&& forall|k: int| 0 < k < q.len() ==> #[trigger] linked(q, k)
}

/// The `k`-th pixel is next to an earlier one.
pub open spec fn linked(q: Seq<(int, int)>, k: int) -> bool {
    exists|j: int| 0 <= j < k && #[trigger] adj(q[j], q[k])
}

/// No matching pixel next to the patch is left out of it.
pub open spec fn closed(sc: ColorScan, q: Seq<(int, int)>) -> bool {
    forall|k: int, p: (int, int)|
        0 <= k < q.len() && member(sc, p) && #[trigger] adj(q[k], p) ==> q.contains(p)
}

/// A whole 8-connected patch of matching pixels.
pub open spec fn region(sc: ColorScan, q: Seq<(int, int)>) -> bool {
    grown(sc, q) && closed(sc, q)
}

pub open spec fn sum_x(q: Seq<(int, int)>) -> int
    decreases q.len(),
{
    if q.len() == 0 {
        0
    } else {
        sum_x(q.drop_last()) + q.last().0
    }
}

pub open spec fn sum_y(q: Seq<(int, int)>) -> int
    decreases q.len(),
{
    if q.len() == 0 {
        0
    } else {
        sum_y(q.drop_last()) + q.last().1
    }
}

pub open spec fn min_x(q: Seq<(int, int)>) -> int
    decreases q.len(),
{
    if q.len() <= 1 {
        q[0].0
    } else if q.last().0 < min_x(q.drop_last()) {
        q.last().0
    } else {
        min_x(q.drop_last())
    }
}

pub open spec fn max_x(q: Seq<(int, int)>) -> int
    decreases q.len(),
{
    if q.len() <= 1 {
        q[0].0
    } else if q.last().0 > max_x(q.drop_last()) {
        q.last().0
    } else {
        max_x(q.drop_last())
    }
}

pub open spec fn min_y(q: Seq<(int, int)>) -> int
    decreases q.len(),
{
    if q.len() <= 1 {
        q[0].1
    } else if q.last().1 < min_y(q.drop_last()) {
        q.last().1
    } else {
        min_y(q.drop_last())
    }
}

pub open spec fn max_y(q: Seq<(int, int)>) -> int
    decreases q.len(),
{
    if q.len() <= 1 {
        q[0].1
    } else if q.last().1 > max_y(q.drop_last()) {
        q.last().1
    } else {
        max_y(q.drop_last())
    }
}

/// The patch's bounding box is at least `min_w` wide and `min_h` tall.
pub open spec fn fits(q: Seq<(int, int)>, min_w: int, min_h: int) -> bool {
    max_x(q) - min_x(q) + 1 >= min_w && max_y(q) - min_y(q) + 1 >= min_h
}

proof fn lemma_bounds(q: Seq<(int, int)>)
    requires
        q.len() > 0,
    ensures
        exists|k: int| 0 <= k < q.len() && q[k].0 == min_x(q),
        exists|k: int| 0 <= k < q.len() && q[k].0 == max_x(q),
        exists|k: int| 0 <= k < q.len() && q[k].1 == min_y(q),
        exists|k: int| 0 <= k < q.len() && q[k].1 == max_y(q),
        forall|k: int| 0 <= k < q.len() ==> min_x(q) <= #[trigger] q[k].0 <= max_x(q),
        forall|k: int| 0 <= k < q.len() ==> min_y(q) <= #[trigger] q[k].1 <= max_y(q),
    decreases q.len(),
{
    if q.len() > 1 {
        let d = q.drop_last();
        lemma_bounds(d);
        let k1 = choose|k: int| 0 <= k < d.len() && d[k].0 == min_x(d);
        let k2 = choose|k: int| 0 <= k < d.len() && d[k].0 == max_x(d);
        let k3 = choose|k: int| 0 <= k < d.len() && d[k].1 == min_y(d);
        let k4 = choose|k: int| 0 <= k < d.len() && d[k].1 == max_y(d);
        let l = q.len() - 1;
        assert(q[k1] == d[k1] && q[k2] == d[k2] && q[k3] == d[k3] && q[k4] == d[k4]);
        assert forall|k: int| 0 <= k < q.len() implies min_x(q) <= #[trigger] q[k].0 <= max_x(q) by {
            if k < l {
                assert(q[k] == d[k]);
            }
        }
        assert forall|k: int| 0 <= k < q.len() implies min_y(q) <= #[trigger] q[k].1 <= max_y(q) by {
            if k < l {
                assert(q[k] == d[k]);
            }
        }
        if q.last().0 < min_x(d) {
            assert(q[l].0 == min_x(q));
        } else {
            assert(q[k1].0 == min_x(q));
        }
        if q.last().0 > max_x(d) {
            assert(q[l].0 == max_x(q));
        } else {
            assert(q[k2].0 == max_x(q));
        }
        if q.last().1 < min_y(d) {
            assert(q[l].1 == min_y(q));
        } else {
            assert(q[k3].1 == min_y(q));
        }
        if q.last().1 > max_y(d) {
            assert(q[l].1 == max_y(q));
        } else {
            assert(q[k4].1 == max_y(q));
        }
    } else {
        assert(q[0].0 == min_x(q));
    }
}

proof fn lemma_reaches_start(sc: ColorScan, q1: Seq<(int, int)>, q2: Seq<(int, int)>, i: int)
    requires
        grown(sc, q1),
        closed(sc, q2),
        0 <= i < q1.len(),
        q2.contains(q1[i]),
    ensures
        q2.contains(q1[0]),
    decreases i,
{
    if i > 0 {
        assert(linked(q1, i));
        let j = choose|j: int| 0 <= j < i && #[trigger] adj(q1[j], q1[i]);
        let k2 = choose|k: int| 0 <= k < q2.len() && q2[k] == q1[i];
        assert(member(sc, q1[j]));
        assert(adj(q2[k2], q1[j]));
        lemma_reaches_start(sc, q1, q2, j);
    }
}

proof fn lemma_covers_prefix(sc: ColorScan, q1: Seq<(int, int)>, q2: Seq<(int, int)>, n: int)
    requires
        grown(sc, q1),
        closed(sc, q2),
        q2.contains(q1[0]),
        0 <= n <= q1.len(),
    ensures
        forall|k: int| 0 <= k < n ==> q2.contains(#[trigger] q1[k]),
    decreases n,
{
    if n > 1 {
        lemma_covers_prefix(sc, q1, q2, n - 1);
        let k = n - 1;
        assert(linked(q1, k));
        let j = choose|j: int| 0 <= j < k && #[trigger] adj(q1[j], q1[k]);
        assert(q2.contains(q1[j]));
        let k2 = choose|m: int| 0 <= m < q2.len() && q2[m] == q1[j];
        assert(member(sc, q1[k]));
        assert(adj(q2[k2], q1[k]));
    }
}

/// A connected patch that shares a pixel with a closed set lies inside it.
proof fn lemma_grown_inside(sc: ColorScan, q1: Seq<(int, int)>, q2: Seq<(int, int)>, i: int)
    requires
        grown(sc, q1),
        closed(sc, q2),
        0 <= i < q1.len(),
        q2.contains(q1[i]),
    ensures
        forall|k: int| 0 <= k < q1.len() ==> q2.contains(#[trigger] q1[k]),
{
    lemma_reaches_start(sc, q1, q2, i);
    lemma_covers_prefix(sc, q1, q2, q1.len() as int);
}

/// Two whole patches that share a pixel are the same patch: same size, same box.
proof fn lemma_same_patch(sc: ColorScan, q1: Seq<(int, int)>, q2: Seq<(int, int)>, i: int)
    requires
        region(sc, q1),
        region(sc, q2),
        0 <= i < q1.len(),
        q2.contains(q1[i]),
    ensures
        q1.len() == q2.len(),
        min_x(q1) == min_x(q2),
        max_x(q1) == max_x(q2),
        min_y(q1) == min_y(q2),
        max_y(q1) == max_y(q2),
{
    lemma_grown_inside(sc, q1, q2, i);
    let j = choose|m: int| 0 <= m < q2.len() && q2[m] == q1[i];
    assert(q1.contains(q2[j]));
    lemma_grown_inside(sc, q2, q1, j);
    assert(q1.to_set() =~= q2.to_set()) by {
        assert forall|p: (int, int)| q1.to_set().contains(p) implies q2.to_set().contains(p) by {
            let k = choose|k: int| 0 <= k < q1.len() && q1[k] == p;
            assert(q2.contains(q1[k]));
        }
        assert forall|p: (int, int)| q2.to_set().contains(p) implies q1.to_set().contains(p) by {
            let k = choose|k: int| 0 <= k < q2.len() && q2[k] == p;
            assert(q1.contains(q2[k]));
        }
    }
    q1.unique_seq_to_set();
    q2.unique_seq_to_set();
    lemma_bounds(q1);
    lemma_bounds(q2);
    lemma_same_bounds(q1, q2);
    lemma_same_bounds(q2, q1);
}

proof fn lemma_same_bounds(q1: Seq<(int, int)>, q2: Seq<(int, int)>)
    requires
        q1.len() > 0,
        q2.len() > 0,
        forall|k: int| 0 <= k < q1.len() ==> q2.contains(#[trigger] q1[k]),
    ensures
        min_x(q2) <= min_x(q1),
        max_x(q1) <= max_x(q2),
        min_y(q2) <= min_y(q1),
        max_y(q1) <= max_y(q2),
{
    lemma_bounds(q1);
    lemma_bounds(q2);
    let a = choose|k: int| 0 <= k < q1.len() && q1[k].0 == min_x(q1);
    let b = choose|k: int| 0 <= k < q1.len() && q1[k].0 == max_x(q1);
    let c = choose|k: int| 0 <= k < q1.len() && q1[k].1 == min_y(q1);
    let d = choose|k: int| 0 <= k < q1.len() && q1[k].1 == max_y(q1);
    assert(q2.contains(q1[a]) && q2.contains(q1[b]) && q2.contains(q1[c]) && q2.contains(q1[d]));
    let a2 = choose|m: int| 0 <= m < q2.len() && q2[m] == q1[a];
    let b2 = choose|m: int| 0 <= m < q2.len() && q2[m] == q1[b];
    let c2 = choose|m: int| 0 <= m < q2.len() && q2[m] == q1[c];
    let d2 = choose|m: int| 0 <= m < q2.len() && q2[m] == q1[d];
    assert(min_x(q2) <= q2[a2].0);
    assert(q2[b2].0 <= max_x(q2));
    assert(min_y(q2) <= q2[c2].1);
    assert(q2[d2].1 <= max_y(q2));
}

/// Position of a pixel in a row-major buffer `w` pixels wide.
pub open spec fn fidx(w: int, p: (int, int)) -> int {
    p.1 * w + p.0
}

proof fn lemma_fidx(w: int, h: int, p: (int, int))
    requires
        0 <= p.0 < w,
        0 <= p.1 < h,
    ensures
        0 <= fidx(w, p) < w * h,
{
    assert(0 <= p.1 * w + p.0 < w * h) by (nonlinear_arith)
        requires
            0 <= p.0 < w,
            0 <= p.1 < h,
    ;
}

proof fn lemma_fidx_inj(w: int, p: (int, int), q: (int, int))
    requires
        0 <= p.0 < w,
        0 <= q.0 < w,
        0 <= p.1,
        0 <= q.1,
        fidx(w, p) == fidx(w, q),
    ensures
        p == q,
{
    if p.1 < q.1 {
        assert(p.1 * w + w <= q.1 * w) by (nonlinear_arith)
            requires
                p.1 < q.1,
                0 <= w,
        ;
    } else if q.1 < p.1 {
        assert(q.1 * w + w <= p.1 * w) by (nonlinear_arith)
            requires
                q.1 < p.1,
                0 <= w,
        ;
    }
}

/// The buffer holds, for each pixel of the region, whether it matches.
pub open spec fn mask_ok(sc: ColorScan, mask: Seq<bool>) -> bool {
    &&& mask.len() == sc.w * sc.h
    &&& forall|p: (int, int)| inb(sc, p) ==> #[trigger] mask[fidx(sc.w, p)] == hit(sc, p)
}

/// Every matching pixel next to a seen matching pixel is seen as well.
pub open spec fn seen_closed(sc: ColorScan, seen: Seq<bool>) -> bool {
    forall|p: (int, int), q: (int, int)|
        member(sc, p) && member(sc, q) && #[trigger] adj(p, q) && seen[fidx(sc.w, p)] ==> seen[fidx(sc.w, q)]
}

/// Queued coordinates as integers.
pub open spec fn pts(v: Seq<(usize, usize)>) -> Seq<(int, int)> {
    Seq::new(v.len(), |k: int| (v[k].0 as int, v[k].1 as int))
}

/// The state of one flood fill: `q` holds the pixels found so far, the first
/// `head` of them with all their neighbours looked at.
pub open spec fn fill_inv(
    sc: ColorScan,
    seen0: Seq<bool>,
    seen: Seq<bool>,
    mask: Seq<bool>,
    q: Seq<(int, int)>,
    head: int,
) -> bool {
    &&& mask_ok(sc, mask)
    &&& seen.len() == seen0.len() == sc.w * sc.h
    &&& seen_closed(sc, seen0)
    &&& 0 <= head <= q.len()
    &&& q.len() >= 1
    &&& q.no_duplicates()
    &&& forall|k: int|
        0 <= k < q.len() ==> member(sc, #[trigger] q[k]) && !seen0[fidx(sc.w, q[k])] && seen[fidx(sc.w, q[k])]
    &&& forall|k: int| 0 < k < q.len() ==> #[trigger] linked(q, k)
    &&& forall|p: (int, int)|
        member(sc, p) && #[trigger] seen[fidx(sc.w, p)] && !seen0[fidx(sc.w, p)] ==> q.contains(p)
    &&& forall|i: int| 0 <= i < seen.len() && #[trigger] seen0[i] ==> seen[i]
    &&& forall|k: int, p: (int, int)| 0 <= k < head && inb(sc, p) && #[trigger] adj(q[k], p) ==> seen[fidx(sc.w, p)]
}

/// Looks at one neighbour `(nx, ny)` of the pixel at `head`: marks it seen and
/// queues it when it matches and was not seen before.
fn visit(
    mask: &Vec<bool>,
    seen: &mut Vec<bool>,
    queue: &mut Vec<(usize, usize)>,
    w: usize,
    h: usize,
    nx: i64,
    ny: i64,
    Ghost(sc): Ghost<ColorScan>,
    Ghost(seen0): Ghost<Seq<bool>>,
    Ghost(head): Ghost<int>,
)
    requires
        fill_inv(sc, seen0, old(seen)@, mask@, pts(old(queue)@), head),
        head < old(queue)@.len(),
        adj(pts(old(queue)@)[head], (nx as int, ny as int)),
        sc.w == w,
        sc.h == h,
        w <= u32::MAX,
        h <= u32::MAX,
        w * h <= usize::MAX,
    ensures
        fill_inv(sc, seen0, final(seen)@, mask@, pts(final(queue)@), head),
        final(queue)@.len() >= old(queue)@.len(),
        forall|k: int| 0 <= k < old(queue)@.len() ==> final(queue)@[k] == old(queue)@[k],
        inb(sc, (nx as int, ny as int)) ==> final(seen)@[fidx(sc.w, (nx as int, ny as int))],
        forall|i: int| 0 <= i < old(seen)@.len() && #[trigger] old(seen)@[i] ==> final(seen)@[i],
{
    if nx < 0 || ny < 0 || nx >= w as i64 || ny >= h as i64 {
        return;
    }
    let ux = nx as usize;
    let uy = ny as usize;
    let ghost p = (ux as int, uy as int);
    proof {
        lemma_fidx(w as int, h as int, p);
        assert(uy * w + ux < w * h);
    }
    let ni = uy * w + ux;
    if seen[ni] {
        return;
    }
    let ghost q0 = pts(queue@);
    let ghost s0 = seen@;
    seen.set(ni, true);
    proof {
        assert forall|k: int| 0 <= k < q0.len() implies q0[k] != p by {
            assert(s0[fidx(sc.w, q0[k])]);
        }
    }
    if mask[ni] {
        queue.push((ux, uy));
        proof {
            let q1 = pts(queue@);
            assert(q1 =~= q0.push(p));
            assert(q1[q1.len() - 1] == p);
            assert(linked(q1, q1.len() - 1)) by {
                assert(adj(q1[head], q1[q1.len() - 1]));
            }
            assert forall|k: int| 0 < k < q1.len() implies #[trigger] linked(q1, k) by {
                if k < q0.len() {
                    assert(linked(q0, k));
                    let j = choose|j: int| 0 <= j < k && #[trigger] adj(q0[j], q0[k]);
                    assert(adj(q1[j], q1[k]));
                }
            }
            assert forall|pp: (int, int)|
                member(sc, pp) && #[trigger] seen@[fidx(sc.w, pp)] && !seen0[fidx(sc.w, pp)] implies q1.contains(pp) by {
                lemma_fidx(sc.w, sc.h, pp);
                if fidx(sc.w, pp) == fidx(sc.w, p) {
                    lemma_fidx_inj(sc.w, pp, p);
                    assert(q1[q1.len() - 1] == pp);
                } else {
                    assert(s0[fidx(sc.w, pp)]);
                    assert(q0.contains(pp));
                    let k = choose|k: int| 0 <= k < q0.len() && q0[k] == pp;
                    assert(q1[k] == pp);
                }
            }
            assert forall|k: int, pp: (int, int)| 0 <= k < head && inb(sc, pp) && #[trigger] adj(q1[k], pp) implies seen@[fidx(
                sc.w,
                pp,
            )] by {
                assert(q1[k] == q0[k]);
                assert(adj(q0[k], pp));
                lemma_fidx(sc.w, sc.h, pp);
            }
            assert(q1.no_duplicates());
            assert forall|k: int| 0 <= k < q1.len() implies member(sc, #[trigger] q1[k]) && !seen0[fidx(sc.w, q1[k])]
                && seen@[fidx(sc.w, q1[k])] by {
                if k < q0.len() {
                    assert(q1[k] == q0[k]);
                    lemma_fidx(sc.w, sc.h, q0[k]);
                }
            }
            assert forall|i: int| 0 <= i < seen@.len() && #[trigger] seen0[i] implies seen@[i] by {
                assert(s0[i]);
            }
            assert(mask_ok(sc, mask@));
            assert(seen@.len() == seen0.len() == sc.w * sc.h);
            assert(seen_closed(sc, seen0));
            assert(forall|k: int| 0 < k < q1.len() ==> #[trigger] linked(q1, k));
            assert(fill_inv(sc, seen0, seen@, mask@, q1, head));
        }
    } else {
        proof {
            assert(!hit(sc, p));
            assert forall|pp: (int, int)|
                member(sc, pp) && #[trigger] seen@[fidx(sc.w, pp)] && !seen0[fidx(sc.w, pp)] implies q0.contains(pp) by {
                lemma_fidx(sc.w, sc.h, pp);
                if fidx(sc.w, pp) == fidx(sc.w, p) {
                    lemma_fidx_inj(sc.w, pp, p);
                } else {
                    assert(s0[fidx(sc.w, pp)]);
                }
            }
            assert forall|k: int, pp: (int, int)| 0 <= k < head && inb(sc, pp) && #[trigger] adj(q0[k], pp) implies seen@[fidx(
                sc.w,
                pp,
            )] by {
                lemma_fidx(sc.w, sc.h, pp);
            }
            assert forall|k: int| 0 <= k < q0.len() implies member(sc, #[trigger] q0[k]) && !seen0[fidx(sc.w, q0[k])]
                && seen@[fidx(sc.w, q0[k])] by {
                lemma_fidx(sc.w, sc.h, q0[k]);
            }
            assert forall|i: int| 0 <= i < seen@.len() && #[trigger] seen0[i] implies seen@[i] by {
                assert(s0[i]);
            }
        }
    }
}

/// Distinct pixels of the region are at most as many as the region has.
proof fn lemma_distinct_bound(sc: ColorScan, q: Seq<(int, int)>)
    requires
        sc.w >= 0,
        sc.h >= 0,
        q.no_duplicates(),
        forall|k: int| 0 <= k < q.len() ==> inb(sc, #[trigger] q[k]),
    ensures
        q.len() <= sc.w * sc.h,
{
    let f = Seq::new(q.len(), |k: int| fidx(sc.w, q[k]));
    assert(f.no_duplicates()) by {
        assert forall|i: int, j: int| 0 <= i < f.len() && 0 <= j < f.len() && i != j implies f[i] != f[j] by {
            if f[i] == f[j] {
                lemma_fidx_inj(sc.w, q[i], q[j]);
            }
        }
    }
    f.unique_seq_to_set();
    assert(sc.w * sc.h >= 0) by (nonlinear_arith)
        requires
            sc.w >= 0,
            sc.h >= 0,
    ;
    lemma_int_range(0, sc.w * sc.h);
    assert(f.to_set().subset_of(set_int_range(0, sc.w * sc.h))) by {
        assert forall|v: int| f.to_set().contains(v) implies set_int_range(0, sc.w * sc.h).contains(v) by {
            let k = choose|k: int| 0 <= k < f.len() && f[k] == v;
            lemma_fidx(sc.w, sc.h, q[k]);
        }
    }
    lemma_len_subset(f.to_set(), set_int_range(0, sc.w * sc.h));
}

proof fn lemma_sum_bound(q: Seq<(int, int)>, bw: int, bh: int)
    requires
        forall|k: int| 0 <= k < q.len() ==> 0 <= (#[trigger] q[k]).0 < bw && 0 <= q[k].1 < bh,
    ensures
        0 <= sum_x(q) <= q.len() * bw,
        0 <= sum_y(q) <= q.len() * bh,
    decreases q.len(),
{
    if q.len() > 0 {
        let d = q.drop_last();
        assert forall|k: int| 0 <= k < d.len() implies 0 <= (#[trigger] d[k]).0 < bw && 0 <= d[k].1 < bh by {
            assert(d[k] == q[k]);
        }
        lemma_sum_bound(d, bw, bh);
        let l = d.len();
        assert(l * bw + bw == (l + 1) * bw) by (nonlinear_arith);
        assert(l * bh + bh == (l + 1) * bh) by (nonlinear_arith);
    }
}

/// What a scan reports of a patch: its size, coordinate sums and bounding box.
#[derive(Debug, Clone, Copy)]
pub struct ColorRegion {
    pub area: u64,
    pub sum_x: u128,
    pub sum_y: u128,
    pub x0: u32,
    pub y0: u32,
    pub x1: u32,
    pub y1: u32,
}

/// `reg` is what the patch `q` adds up to.
pub open spec fn describes(reg: ColorRegion, q: Seq<(int, int)>) -> bool {
    &&& reg.area == q.len()
    &&& reg.sum_x == sum_x(q)
    &&& reg.sum_y == sum_y(q)
    &&& reg.x0 == min_x(q)
    &&& reg.x1 == max_x(q)
    &&& reg.y0 == min_y(q)
    &&& reg.y1 == max_y(q)
}

impl ColorRegion {
    /// Width of the bounding box.
    pub fn width(&self) -> (r: u32)
        requires
            self.x0 <= self.x1,
            self.x1 - self.x0 + 1 <= u32::MAX,
        ensures
            r == self.x1 - self.x0 + 1,
    {
        self.x1 - self.x0 + 1
    }

    /// Height of the bounding box.
    pub fn height(&self) -> (r: u32)
        requires
            self.y0 <= self.y1,
            self.y1 - self.y0 + 1 <= u32::MAX,
        ensures
            r == self.y1 - self.y0 + 1,
    {
        self.y1 - self.y0 + 1
    }
}

/// The prefix of one more pixel adds it to the sums and the box.
proof fn lemma_take_step(q: Seq<(int, int)>, n: int)
    requires
        0 <= n < q.len(),
    ensures
        sum_x(q.take(n + 1)) == sum_x(q.take(n)) + q[n].0,
        sum_y(q.take(n + 1)) == sum_y(q.take(n)) + q[n].1,
        n > 0 ==> min_x(q.take(n + 1)) == (if q[n].0 < min_x(q.take(n)) { q[n].0 } else { min_x(q.take(n)) }),
        n > 0 ==> max_x(q.take(n + 1)) == (if q[n].0 > max_x(q.take(n)) { q[n].0 } else { max_x(q.take(n)) }),
        n > 0 ==> min_y(q.take(n + 1)) == (if q[n].1 < min_y(q.take(n)) { q[n].1 } else { min_y(q.take(n)) }),
        n > 0 ==> max_y(q.take(n + 1)) == (if q[n].1 > max_y(q.take(n)) { q[n].1 } else { max_y(q.take(n)) }),
        n == 0 ==> min_x(q.take(1)) == q[0].0 && max_x(q.take(1)) == q[0].0,
        n == 0 ==> min_y(q.take(1)) == q[0].1 && max_y(q.take(1)) == q[0].1,
{
    let t = q.take(n + 1);
    assert(t.drop_last() =~= q.take(n));
    assert(t.last() == q[n]);
}

/// The box of one more pixel, from the box so far (the first pixel's own when
/// nothing is counted yet).
proof fn lemma_box_step(q: Seq<(int, int)>, n: int, mnx: int, mxx: int, mny: int, mxy: int)
    requires
        0 <= n < q.len(),
        n == 0 ==> mnx == q[0].0 && mxx == q[0].0 && mny == q[0].1 && mxy == q[0].1,
        n > 0 ==> mnx == min_x(q.take(n)) && mxx == max_x(q.take(n)) && mny == min_y(q.take(n)) && mxy == max_y(
            q.take(n),
        ),
    ensures
        (if q[n].0 < mnx { q[n].0 } else { mnx }) == min_x(q.take(n + 1)),
        (if q[n].0 > mxx { q[n].0 } else { mxx }) == max_x(q.take(n + 1)),
        (if q[n].1 < mny { q[n].1 } else { mny }) == min_y(q.take(n + 1)),
        (if q[n].1 > mxy { q[n].1 } else { mxy }) == max_y(q.take(n + 1)),
{
    lemma_take_step(q, n);
}

/// Floods the patch of matching pixels that holds `(sx, sy)`, marking what it
/// looks at in `seen`.
fn grow_patch(
    mask: &Vec<bool>,
    seen: &mut Vec<bool>,
    w: usize,
    h: usize,
    sx: usize,
    sy: usize,
    Ghost(sc): Ghost<ColorScan>,
) -> (res: (ColorRegion, Ghost<Seq<(int, int)>>))
    requires
        mask_ok(sc, mask@),
        old(seen)@.len() == sc.w * sc.h,
        seen_closed(sc, old(seen)@),
        sc.w == w,
        sc.h == h,
        w <= u32::MAX,
        h <= u32::MAX,
        w * h <= usize::MAX,
        member(sc, (sx as int, sy as int)),
        !old(seen)@[fidx(sc.w, (sx as int, sy as int))],
    ensures
        region(sc, res.1@),
        res.1@[0] == (sx as int, sy as int),
        describes(res.0, res.1@),
        final(seen)@.len() == old(seen)@.len(),
        seen_closed(sc, final(seen)@),
        forall|i: int| 0 <= i < old(seen)@.len() && #[trigger] old(seen)@[i] ==> final(seen)@[i],
        forall|k: int|
            0 <= k < res.1@.len() ==> !old(seen)@[fidx(sc.w, #[trigger] res.1@[k])] && final(seen)@[fidx(
                sc.w,
                res.1@[k],
            )],
        forall|p: (int, int)|
            member(sc, p) && #[trigger] final(seen)@[fidx(sc.w, p)] && !old(seen)@[fidx(sc.w, p)] ==> res.1@.contains(p),
{
    let ghost seen0 = seen@;
    let ghost s = (sx as int, sy as int);
    proof {
        lemma_fidx(w as int, h as int, s);
        assert(sy * w + sx < w * h);
    }
    let si = sy * w + sx;
    seen.set(si, true);
    let mut queue: Vec<(usize, usize)> = Vec::new();
    queue.push((sx, sy));
    proof {
        let q = pts(queue@);
        assert(q[0] == s);
        assert(q.no_duplicates());
        assert forall|p: (int, int)| member(sc, p) && #[trigger] seen@[fidx(sc.w, p)] && !seen0[fidx(sc.w, p)] implies q.contains(
            p,
        ) by {
            lemma_fidx(sc.w, sc.h, p);
            if fidx(sc.w, p) == fidx(sc.w, s) {
                lemma_fidx_inj(sc.w, p, s);
                assert(q[0] == p);
            }
        }
        assert forall|i: int| 0 <= i < seen@.len() && #[trigger] seen0[i] implies seen@[i] by {
            if i == fidx(sc.w, s) {
            }
        }
        assert(forall|k: int| 0 <= k < q.len() ==> member(sc, #[trigger] q[k]) && !seen0[fidx(sc.w, q[k])] && seen@[fidx(
            sc.w,
            q[k],
        )]);
        assert(fill_inv(sc, seen0, seen@, mask@, q, 0));
    }
    let mut head: usize = 0;
    let mut sum_x_v: u128 = 0;
    let mut sum_y_v: u128 = 0;
    let mut mnx = sx;
    let mut mxx = sx;
    let mut mny = sy;
    let mut mxy = sy;
    while head < queue.len()
        invariant
            fill_inv(sc, seen0, seen@, mask@, pts(queue@), head as int),
            pts(queue@)[0] == s,
            s == (sx as int, sy as int),
            seen0 == old(seen)@,
            sc.w == w,
            sc.h == h,
            w <= u32::MAX,
            h <= u32::MAX,
            w * h <= usize::MAX,
            sum_x_v == sum_x(pts(queue@).take(head as int)),
            sum_y_v == sum_y(pts(queue@).take(head as int)),
            head == 0 ==> mnx == sx && mxx == sx && mny == sy && mxy == sy,
            queue@.len() >= 1,
            head > 0 ==> mnx == min_x(pts(queue@).take(head as int)) && mxx == max_x(pts(queue@).take(head as int))
                && mny == min_y(pts(queue@).take(head as int)) && mxy == max_y(pts(queue@).take(head as int)),
        decreases w * h - head,
    {
        proof {
            lemma_distinct_bound(sc, pts(queue@));
        }
        let (cx, cy) = queue[head];
        let ghost q0 = pts(queue@);
        let ghost cur = q0[head as int];
        proof {
            assert(member(sc, cur));
            assert(cur.0 == cx && cur.1 == cy);
            lemma_take_step(q0, head as int);
            lemma_box_step(q0, head as int, mnx as int, mxx as int, mny as int, mxy as int);
            lemma_sum_bound(q0.take(head as int), w as int, h as int);
            assert((head as int) * (w as int) + (w as int) <= 0x1_0000_0000_0000_0000 * 0x1_0000_0000) by (nonlinear_arith)
                requires
                    head < 0x1_0000_0000_0000_0000int,
                    w <= u32::MAX,
            ;
            assert((head as int) * (h as int) + (h as int) <= 0x1_0000_0000_0000_0000 * 0x1_0000_0000) by (nonlinear_arith)
                requires
                    head < 0x1_0000_0000_0000_0000int,
                    h <= u32::MAX,
            ;
        }
        sum_x_v = sum_x_v + cx as u128;
        sum_y_v = sum_y_v + cy as u128;
        if cx < mnx {
            mnx = cx;
        }
        if cx > mxx {
            mxx = cx;
        }
        if cy < mny {
            mny = cy;
        }
        if cy > mxy {
            mxy = cy;
        }
        let ix = cx as i64;
        let iy = cy as i64;
        visit(mask, seen, &mut queue, w, h, ix - 1, iy - 1, Ghost(sc), Ghost(seen0), Ghost(head as int));
        let ghost s1 = seen@;
        visit(mask, seen, &mut queue, w, h, ix, iy - 1, Ghost(sc), Ghost(seen0), Ghost(head as int));
        let ghost s2 = seen@;
        visit(mask, seen, &mut queue, w, h, ix + 1, iy - 1, Ghost(sc), Ghost(seen0), Ghost(head as int));
        let ghost s3 = seen@;
        visit(mask, seen, &mut queue, w, h, ix - 1, iy, Ghost(sc), Ghost(seen0), Ghost(head as int));
        let ghost s4 = seen@;
        visit(mask, seen, &mut queue, w, h, ix + 1, iy, Ghost(sc), Ghost(seen0), Ghost(head as int));
        let ghost s5 = seen@;
        visit(mask, seen, &mut queue, w, h, ix - 1, iy + 1, Ghost(sc), Ghost(seen0), Ghost(head as int));
        let ghost s6 = seen@;
        visit(mask, seen, &mut queue, w, h, ix, iy + 1, Ghost(sc), Ghost(seen0), Ghost(head as int));
        let ghost s7 = seen@;
        visit(mask, seen, &mut queue, w, h, ix + 1, iy + 1, Ghost(sc), Ghost(seen0), Ghost(head as int));
        proof {
            let q1 = pts(queue@);
            assert(q1[head as int] == cur);
            assert forall|p: (int, int)| inb(sc, p) && #[trigger] adj(cur, p) implies seen@[fidx(sc.w, p)] by {
                lemma_fidx(sc.w, sc.h, p);
                let f = fidx(sc.w, p);
                if p == (cur.0 - 1, cur.1 - 1) {
                    assert(s1[f] && s2[f] && s3[f] && s4[f] && s5[f] && s6[f] && s7[f]);
                } else if p == (cur.0, cur.1 - 1) {
                    assert(s2[f] && s3[f] && s4[f] && s5[f] && s6[f] && s7[f]);
                } else if p == (cur.0 + 1, cur.1 - 1) {
                    assert(s3[f] && s4[f] && s5[f] && s6[f] && s7[f]);
                } else if p == (cur.0 - 1, cur.1) {
                    assert(s4[f] && s5[f] && s6[f] && s7[f]);
                } else if p == (cur.0 + 1, cur.1) {
                    assert(s5[f] && s6[f] && s7[f]);
                } else if p == (cur.0 - 1, cur.1 + 1) {
                    assert(s6[f] && s7[f]);
                } else if p == (cur.0, cur.1 + 1) {
                    assert(s7[f]);
                } else {
                    assert(p == (cur.0 + 1, cur.1 + 1));
                }
            }
            assert forall|k: int, p: (int, int)| 0 <= k < head + 1 && inb(sc, p) && #[trigger] adj(q1[k], p) implies seen@[fidx(
                sc.w,
                p,
            )] by {
                if k == head {
                    assert(adj(cur, p));
                }
            }
            assert(q1.take(head + 1) =~= q0.take(head + 1));
        }
        head = head + 1;
    }
    let ghost q = pts(queue@);
    proof {
        assert(q.take(head as int) =~= q);
        assert forall|k: int, p: (int, int)| 0 <= k < q.len() && member(sc, p) && #[trigger] adj(q[k], p) implies q.contains(
            p,
        ) by {
            lemma_fidx(sc.w, sc.h, p);
            if seen0[fidx(sc.w, p)] {
                assert(adj(p, q[k]));
                assert(seen0[fidx(sc.w, q[k])]);
            }
        }
        assert forall|p: (int, int), p2: (int, int)|
            member(sc, p) && member(sc, p2) && #[trigger] adj(p, p2) && seen@[fidx(sc.w, p)] implies seen@[fidx(sc.w, p2)] by {
            lemma_fidx(sc.w, sc.h, p2);
            if seen0[fidx(sc.w, p)] {
                assert(seen0[fidx(sc.w, p2)]);
            } else {
                assert(q.contains(p));
                let k = choose|k: int| 0 <= k < q.len() && q[k] == p;
                assert(adj(q[k], p2));
            }
        }
        lemma_bounds(q);
        lemma_sum_bound(q, w as int, h as int);
    }
    let reg = ColorRegion {
        area: head as u64,
        sum_x: sum_x_v,
        sum_y: sum_y_v,
        x0: mnx as u32,
        y0: mny as u32,
        x1: mxx as u32,
        y1: mxy as u32,
    };
    (reg, Ghost(q))
}

/// Whether the pixel `(x, y)` lies in the buffer and matches the color.
fn pixel_hit(
    buf: &Vec<u8>,
    stride: usize,
    ro: u32,
    go: u32,
    bo: u32,
    r: u8,
    g: u8,
    b: u8,
    limit: i64,
    x: usize,
    y: usize,
    Ghost(sc): Ghost<ColorScan>,
) -> (m: bool)
    requires
        sc.buf == buf@,
        sc.stride == stride,
        sc.ro == ro,
        sc.go == go,
        sc.bo == bo,
        sc.r == r,
        sc.g == g,
        sc.b == b,
        sc.limit == limit,
        ro < 4,
        go < 4,
        bo < 4,
        x <= u32::MAX,
        y <= u32::MAX,
    ensures
        m == hit(sc, (x as int, y as int)),
{
    proof {
        assert((y as int) * (stride as int) <= 0x1_0000_0000 * 0x1_0000_0000_0000_0000) by (nonlinear_arith)
            requires
                y <= u32::MAX,
                stride < 0x1_0000_0000_0000_0000int,
        ;
    }
    let off: u128 = (y as u128) * (stride as u128) + (x as u128) * 4;
    if off + 4 > buf.len() as u128 {
        return false;
    }
    let o = off as usize;
    let pr = buf[o + ro as usize];
    let pg = buf[o + go as usize];
    let pb = buf[o + bo as usize];
    let dr = pr as i64 - r as i64;
    let dg = pg as i64 - g as i64;
    let db = pb as i64 - b as i64;
    assert(dr * dr <= 65025 && dg * dg <= 65025 && db * db <= 65025) by (nonlinear_arith)
        requires
            -255 <= dr <= 255,
            -255 <= dg <= 255,
            -255 <= db <= 255,
    ;
    assert(dr * dr >= 0 && dg * dg >= 0 && db * db >= 0) by (nonlinear_arith);
    dr * dr + dg * dg + db * db <= limit
}

/// No pixel of `q2` comes before the first pixel of `q` in row order.
pub open spec fn starts_first(sc: ColorScan, q: Seq<(int, int)>, q2: Seq<(int, int)>) -> bool {
    forall|k: int| 0 <= k < q2.len() ==> fidx(sc.w, q[0]) <= fidx(sc.w, #[trigger] q2[k])
}

/// `q` is a fitting patch described by `bst`, listed from its first pixel.
pub open spec fn candidate(sc: ColorScan, bst: ColorRegion, q: Seq<(int, int)>, min_w: int, min_h: int) -> bool {
    &&& region(sc, q)
    &&& fits(q, min_w, min_h)
    &&& describes(bst, q)
    &&& starts_first(sc, q, q)
}

/// `q` is a candidate, and no fitting patch of its size starts before it.
pub open spec fn leads(sc: ColorScan, bst: ColorRegion, q: Seq<(int, int)>, min_w: int, min_h: int) -> bool {
    &&& candidate(sc, bst, q, min_w, min_h)
    &&& forall|q2: Seq<(int, int)>|
        #[trigger] region(sc, q2) && fits(q2, min_w, min_h) && q2.len() == bst.area ==> starts_first(sc, q, q2)
}

/// `q` is a candidate, and no fitting patch of its size reached from a
/// pixel marked in `seen` starts before it.
pub open spec fn leads_seen(
    sc: ColorScan,
    seen: Seq<bool>,
    bst: ColorRegion,
    q: Seq<(int, int)>,
    min_w: int,
    min_h: int,
) -> bool {
    &&& candidate(sc, bst, q, min_w, min_h)
    &&& forall|q2: Seq<(int, int)>|
        #[trigger] region(sc, q2) && seen[fidx(sc.w, q2[0])] && fits(q2, min_w, min_h) && q2.len() == bst.area
            ==> starts_first(sc, q, q2)
}

/// What the scan has settled about the pixels marked in `seen`: no patch
/// reached from them fits, or `best` describes a fitting patch, met before
/// row-order position `pos`, that none of them outgrows or precedes at equal size.
pub open spec fn best_so_far(
    sc: ColorScan,
    seen: Seq<bool>,
    best: Option<ColorRegion>,
    min_w: int,
    min_h: int,
    pos: int,
) -> bool {
    match best {
        None => forall|q: Seq<(int, int)>|
            #[trigger] region(sc, q) && seen[fidx(sc.w, q[0])] ==> !fits(q, min_w, min_h),
        Some(bst) => {
            &&& exists|q: Seq<(int, int)>|
                fidx(sc.w, q[0]) < pos && #[trigger] leads_seen(sc, seen, bst, q, min_w, min_h)
            &&& forall|q: Seq<(int, int)>|
                #[trigger] region(sc, q) && seen[fidx(sc.w, q[0])] && fits(q, min_w, min_h) ==> q.len() <= bst.area
        },
    }
}

/// The answer of a color scan: `None` when no 8-connected patch of matching
/// pixels has a bounding box of at least `min_w` by `min_h`; otherwise a
/// patch with such a box, of the largest area among all of them, and of
/// those of that area the one whose first pixel comes first in row order.
pub open spec fn largest_patch(sc: ColorScan, min_w: int, min_h: int, res: Option<ColorRegion>) -> bool {
    match res {
        None => forall|q: Seq<(int, int)>| #[trigger] region(sc, q) ==> !fits(q, min_w, min_h),
        Some(reg) => {
            &&& exists|q: Seq<(int, int)>| #[trigger] leads(sc, reg, q, min_w, min_h)
            &&& forall|q: Seq<(int, int)>| #[trigger] region(sc, q) && fits(q, min_w, min_h) ==> q.len() <= reg.area
        },
    }
}

/// Moving on one position in row order keeps what was settled.
proof fn lemma_best_pos(sc: ColorScan, seen: Seq<bool>, best: Option<ColorRegion>, mw: int, mh: int, pos: int)
    requires
        best_so_far(sc, seen, best, mw, mh, pos),
    ensures
        best_so_far(sc, seen, best, mw, mh, pos + 1),
{
    if let Some(b) = best {
        let qb = choose|q: Seq<(int, int)>| fidx(sc.w, q[0]) < pos && #[trigger] leads_seen(sc, seen, b, q, mw, mh);
        assert(fidx(sc.w, qb[0]) < pos + 1);
    }
}

proof fn lemma_best_some(sc: ColorScan, seen: Seq<bool>, bst: ColorRegion, q: Seq<(int, int)>, mw: int, mh: int, pos: int)
    requires
        fidx(sc.w, q[0]) < pos,
        leads_seen(sc, seen, bst, q, mw, mh),
        forall|q2: Seq<(int, int)>|
            #[trigger] region(sc, q2) && seen[fidx(sc.w, q2[0])] && fits(q2, mw, mh) ==> q2.len() <= bst.area,
    ensures
        best_so_far(sc, seen, Some(bst), mw, mh, pos),
{
    assert(exists|q1: Seq<(int, int)>| fidx(sc.w, q1[0]) < pos && #[trigger] leads_seen(sc, seen, bst, q1, mw, mh));
    assert(forall|q2: Seq<(int, int)>|
            #[trigger] region(sc, q2) && seen[fidx(sc.w, q2[0])] && fits(q2, mw, mh) ==> q2.len() <= bst.area);
    let b2 = Some(bst);
    assert(b2 is Some);
    assert(b2->0 == bst);
}

/// A new patch `c`, found at row-order position `pos`, takes the lead when it
/// fits and is larger than the best so far.
proof fn lemma_best_step(
    sc: ColorScan,
    seen0: Seq<bool>,
    seen1: Seq<bool>,
    c: Seq<(int, int)>,
    reg: ColorRegion,
    old_best: Option<ColorRegion>,
    new_best: Option<ColorRegion>,
    mw: int,
    mh: int,
    pos: int,
)
    requires
        best_so_far(sc, seen0, old_best, mw, mh, pos),
        region(sc, c),
        describes(reg, c),
        fidx(sc.w, c[0]) == pos,
        starts_first(sc, c, c),
        forall|p: (int, int)| member(sc, p) && #[trigger] seen1[fidx(sc.w, p)] && !seen0[fidx(sc.w, p)] ==> c.contains(p),
        forall|p: (int, int)| member(sc, p) && #[trigger] seen0[fidx(sc.w, p)] ==> seen1[fidx(sc.w, p)],
        new_best == (if fits(c, mw, mh) && (old_best is None || c.len() > old_best.unwrap().area) {
            Some(reg)
        } else {
            old_best
        }),
    ensures
        best_so_far(sc, seen1, new_best, mw, mh, pos + 1),
{
    assert forall|q: Seq<(int, int)>| #[trigger] region(sc, q) && seen1[fidx(sc.w, q[0])] && !seen0[fidx(sc.w, q[0])] implies q.len()
        == c.len() && fits(q, mw, mh) == fits(c, mw, mh) && starts_first(sc, c, q) by {
        assert(member(sc, q[0]));
        assert(c.contains(q[0]));
        lemma_same_patch(sc, q, c, 0);
        lemma_grown_inside(sc, q, c, 0);
        assert forall|k: int| 0 <= k < q.len() implies fidx(sc.w, c[0]) <= fidx(sc.w, #[trigger] q[k]) by {
            assert(c.contains(q[k]));
            let m = choose|m: int| 0 <= m < c.len() && c[m] == q[k];
            assert(fidx(sc.w, c[0]) <= fidx(sc.w, c[m]));
        }
    }
    assert forall|q: Seq<(int, int)>| #[trigger] region(sc, q) && seen0[fidx(sc.w, q[0])] implies seen1[fidx(sc.w, q[0])] by {
        assert(member(sc, q[0]));
    }
    let upd = fits(c, mw, mh) && (old_best is None || c.len() > old_best.unwrap().area);
    if upd {
        assert(new_best == Some(reg));
        assert forall|q2: Seq<(int, int)>|
            #[trigger] region(sc, q2) && seen1[fidx(sc.w, q2[0])] && fits(q2, mw, mh) && q2.len() == reg.area implies starts_first(
            sc,
            c,
            q2,
        ) by {
        }
        assert(leads_seen(sc, seen1, reg, c, mw, mh));
        assert(fidx(sc.w, c[0]) < pos + 1);
        assert forall|q: Seq<(int, int)>| #[trigger] region(sc, q) && seen1[fidx(sc.w, q[0])] && fits(q, mw, mh) implies q.len()
            <= reg.area by {
            if seen0[fidx(sc.w, q[0])] {
                match old_best {
                    None => {
                    },
                    Some(b) => {
                        assert(q.len() <= b.area);
                    },
                }
            }
        }
        lemma_best_some(sc, seen1, reg, c, mw, mh, pos + 1);
    } else {
        assert(new_best == old_best);
        match old_best {
            None => {
                assert(!fits(c, mw, mh));
                assert forall|q: Seq<(int, int)>| #[trigger] region(sc, q) && seen1[fidx(sc.w, q[0])] implies !fits(q, mw, mh) by {
                    if seen0[fidx(sc.w, q[0])] {
                    }
                }
                assert(best_so_far(sc, seen1, new_best, mw, mh, pos + 1));
            },
            Some(b) => {
                let qb = choose|q: Seq<(int, int)>| fidx(sc.w, q[0]) < pos && #[trigger] leads_seen(sc, seen0, b, q, mw, mh);
                assert forall|q2: Seq<(int, int)>|
                    #[trigger] region(sc, q2) && seen1[fidx(sc.w, q2[0])] && fits(q2, mw, mh) && q2.len() == b.area implies starts_first(
                    sc,
                    qb,
                    q2,
                ) by {
                    if !seen0[fidx(sc.w, q2[0])] {
                        assert(starts_first(sc, c, q2));
                    }
                }
                assert(leads_seen(sc, seen1, b, qb, mw, mh));
                assert(fidx(sc.w, qb[0]) < pos + 1);
                assert forall|q: Seq<(int, int)>| #[trigger] region(sc, q) && seen1[fidx(sc.w, q[0])] && fits(q, mw, mh) implies q.len()
                    <= b.area by {
                    if seen0[fidx(sc.w, q[0])] {
                    }
                }
                assert(best_so_far(sc, seen1, new_best, mw, mh, pos + 1));
            },
        }
    }
    assert(best_so_far(sc, seen1, new_best, mw, mh, pos + 1));
}

/// The largest 8-connected region of pixels whose color lies within squared
/// distance `limit` of `(r, g, b)`, among those whose bounding box is at least
/// `min_width` by `min_height`; `w` by `h` pixels are read from `buf`, rows
/// `stride` bytes apart, in format `fmt`. Of regions of equal area the one
/// met first in row order wins.
pub fn largest_color_region(
    buf: &Vec<u8>,
    stride: usize,
    w: u32,
    h: u32,
    fmt: PixelFormat,
    r: u8,
    g: u8,
    b: u8,
    limit: i64,
    min_width: u32,
    min_height: u32,
) -> (res: Option<ColorRegion>)
    requires
        (w as int) * (h as int) <= usize::MAX,
    ensures
        largest_patch(
            color_scan(buf@, stride, w, h, fmt, r, g, b, limit),
            min_width as int,
            min_height as int,
            res,
        ),
{
    let ghost sc = color_scan(buf@, stride, w, h, fmt, r, g, b, limit);
    let wu = w as usize;
    let hu = h as usize;
    let n = wu * hu;
    if n == 0 {
        proof {
            assert forall|q: Seq<(int, int)>| #[trigger] region(sc, q) implies !fits(q, min_width as int, min_height as int) by {
                assert(member(sc, q[0]));
                assert(sc.w > 0 && sc.h > 0);
                assert(sc.w * sc.h > 0) by (nonlinear_arith)
                    requires
                        sc.w > 0,
                        sc.h > 0,
                ;
            }
        }
        return None;
    }
    let (ro, go, bo) = channel_offsets(fmt);
    proof {
        assert(wu > 0 && hu > 0) by (nonlinear_arith)
            requires
                n == wu * hu,
                n > 0,
        ;
    }
    let mut mask: Vec<bool> = Vec::new();
    let mut any = false;
    let mut x: usize = 0;
    let mut y: usize = 0;
    let mut i: usize = 0;
    while i < n
        invariant
            sc == color_scan(buf@, stride, w, h, fmt, r, g, b, limit),
            (ro, go, bo) == spec_channel_offsets(fmt),
            ro < 4 && go < 4 && bo < 4,
            n == wu * hu,
            wu == w,
            hu == h,
            wu > 0,
            i <= n,
            x < wu,
            i == y * wu + x,
            i < n ==> y < hu,
            mask@.len() == i,
            forall|p: (int, int)| inb(sc, p) && fidx(sc.w, p) < i ==> #[trigger] mask@[fidx(sc.w, p)] == hit(sc, p),
            !any ==> forall|p: (int, int)| inb(sc, p) && fidx(sc.w, p) < i ==> !#[trigger] hit(sc, p),
        decreases n - i,
    {
        let m = pixel_hit(buf, stride, ro, go, bo, r, g, b, limit, x, y, Ghost(sc));
        let ghost cur = (x as int, y as int);
        mask.push(m);
        if m {
            any = true;
        }
        proof {
            assert(fidx(sc.w, cur) == i);
            assert forall|p: (int, int)| inb(sc, p) && fidx(sc.w, p) < i + 1 implies #[trigger] mask@[fidx(sc.w, p)] == hit(
                sc,
                p,
            ) by {
                if fidx(sc.w, p) == i {
                    lemma_fidx_inj(sc.w, p, cur);
                }
            }
            if !any {
                assert forall|p: (int, int)| inb(sc, p) && fidx(sc.w, p) < i + 1 implies !#[trigger] hit(sc, p) by {
                    if fidx(sc.w, p) == i {
                        lemma_fidx_inj(sc.w, p, cur);
                    }
                }
            }
        }
        i = i + 1;
        x = x + 1;
        if x == wu {
            proof {
                assert(y * wu + wu == (y + 1) * wu) by (nonlinear_arith);
                assert(i < n ==> y + 1 < hu) by (nonlinear_arith)
                    requires
                        i == (y + 1) * wu,
                        n == wu * hu,
                        wu > 0,
                ;
            }
            x = 0;
            y = y + 1;
        }
    }
    proof {
        assert forall|p: (int, int)| inb(sc, p) implies fidx(sc.w, p) < i by {
            lemma_fidx(sc.w, sc.h, p);
        }
        assert(mask_ok(sc, mask@));
    }
    if !any {
        proof {
            assert forall|q: Seq<(int, int)>| #[trigger] region(sc, q) implies !fits(q, min_width as int, min_height as int) by {
                assert(member(sc, q[0]));
                lemma_fidx(sc.w, sc.h, q[0]);
            }
        }
        return None;
    }
    let mut seen: Vec<bool> = Vec::new();
    let mut k: usize = 0;
    while k < n
        invariant
            k <= n,
            seen@.len() == k,
            forall|j: int| 0 <= j < k ==> !#[trigger] seen@[j],
        decreases n - k,
    {
        seen.push(false);
        k = k + 1;
    }
    let mut best: Option<ColorRegion> = None;
    proof {
        assert forall|q: Seq<(int, int)>| #[trigger] region(sc, q) && seen@[fidx(sc.w, q[0])] implies !fits(
            q,
            min_width as int,
            min_height as int,
        ) by {
            assert(member(sc, q[0]));
            lemma_fidx(sc.w, sc.h, q[0]);
        }
        assert forall|p: (int, int), q: (int, int)|
            member(sc, p) && member(sc, q) && #[trigger] adj(p, q) && seen@[fidx(sc.w, p)] implies seen@[fidx(sc.w, q)] by {
            lemma_fidx(sc.w, sc.h, p);
        }
    }
    let mut x0: usize = 0;
    let mut y0: usize = 0;
    let mut i: usize = 0;
    while i < n
        invariant
            sc == color_scan(buf@, stride, w, h, fmt, r, g, b, limit),
            mask_ok(sc, mask@),
            seen@.len() == n,
            seen_closed(sc, seen@),
            n == wu * hu,
            wu == w,
            hu == h,
            wu > 0,
            i <= n,
            x0 < wu,
            i == y0 * wu + x0,
            i < n ==> y0 < hu,
            forall|p: (int, int)| member(sc, p) && fidx(sc.w, p) < i ==> #[trigger] seen@[fidx(sc.w, p)],
            best_so_far(sc, seen@, best, min_width as int, min_height as int, i as int),
        decreases n - i,
    {
        let ghost cur = (x0 as int, y0 as int);
        let ghost seen_before = seen@;
        proof {
            assert(fidx(sc.w, cur) == i);
        }
        if !seen[i] && mask[i] {
            proof {
                assert(mask@[fidx(sc.w, cur)] == hit(sc, cur));
            }
            let (reg, Ghost(c)) = grow_patch(&mask, &mut seen, wu, hu, x0, y0, Ghost(sc));
            proof {
                lemma_bounds(c);
                assert(member(sc, c[0]));
                let a = choose|k: int| 0 <= k < c.len() && c[k].0 == max_x(c);
                let bb = choose|k: int| 0 <= k < c.len() && c[k].1 == max_y(c);
                assert(member(sc, c[a]) && member(sc, c[bb]));
            }
            let wd = reg.width();
            let ht = reg.height();
            let better = match &best {
                None => true,
                Some(bst) => reg.area > bst.area,
            };
            let ghost old_best = best;
            if wd >= min_width && ht >= min_height && better {
                best = Some(reg);
            }
            proof {
                let mw = min_width as int;
                let mh = min_height as int;
                assert(fits(c, mw, mh) == (wd >= min_width && ht >= min_height));
                assert forall|k: int| 0 <= k < c.len() implies fidx(sc.w, c[0]) <= fidx(sc.w, #[trigger] c[k]) by {
                    assert(member(sc, c[k]));
                    if fidx(sc.w, c[k]) < i {
                        assert(seen_before[fidx(sc.w, c[k])]);
                    }
                }
                assert forall|p: (int, int)| member(sc, p) && #[trigger] seen_before[fidx(sc.w, p)] implies seen@[fidx(
                    sc.w,
                    p,
                )] by {
                    lemma_fidx(sc.w, sc.h, p);
                }
                lemma_best_step(sc, seen_before, seen@, c, reg, old_best, best, mw, mh, i as int);
            }
        } else {
            proof {
                lemma_best_pos(sc, seen@, best, min_width as int, min_height as int, i as int);
            }
        }
        proof {
            assert forall|p: (int, int)| member(sc, p) && fidx(sc.w, p) < i + 1 implies #[trigger] seen@[fidx(sc.w, p)] by {
                lemma_fidx(sc.w, sc.h, p);
                if fidx(sc.w, p) == i {
                    lemma_fidx_inj(sc.w, p, cur);
                    assert(mask@[fidx(sc.w, cur)] == hit(sc, cur));
                } else {
                    assert(seen_before[fidx(sc.w, p)]);
                }
            }
        }
        i = i + 1;
        x0 = x0 + 1;
        if x0 == wu {
            proof {
                assert(y0 * wu + wu == (y0 + 1) * wu) by (nonlinear_arith);
                assert(i < n ==> y0 + 1 < hu) by (nonlinear_arith)
                    requires
                        i == (y0 + 1) * wu,
                        n == wu * hu,
                        wu > 0,
                ;
            }
            x0 = 0;
            y0 = y0 + 1;
        }
    }
    proof {
        assert forall|q: Seq<(int, int)>| #[trigger] region(sc, q) implies seen@[fidx(sc.w, q[0])] by {
            assert(member(sc, q[0]));
            lemma_fidx(sc.w, sc.h, q[0]);
        }
        if let Some(b) = best {
            let mw = min_width as int;
            let mh = min_height as int;
            let qb = choose|q: Seq<(int, int)>| fidx(sc.w, q[0]) < i && #[trigger] leads_seen(sc, seen@, b, q, mw, mh);
            assert forall|q2: Seq<(int, int)>|
                #[trigger] region(sc, q2) && fits(q2, mw, mh) && q2.len() == b.area implies starts_first(sc, qb, q2) by {
                assert(seen@[fidx(sc.w, q2[0])]);
            }
            assert(leads(sc, b, qb, mw, mh));
        }
    }
    best
}

} // verus!
