//! Shrinking a grayscale image by averaging square blocks.
use vstd::prelude::*;
use crate::integral::{row_sum, rect_sum, weight};

verus! {

proof fn lemma_row_sum_bound(img: Seq<u8>, w: int, yy: int, x0: int, x1: int)
    requires
        x0 <= x1,
    ensures
        0 <= row_sum(img, w, yy, x0, x1, false) <= (x1 - x0) * 255,
    decreases x1 - x0,
{
    if x1 > x0 {
        lemma_row_sum_bound(img, w, yy, x0, x1 - 1);
    }
}

proof fn lemma_rect_sum_bound(img: Seq<u8>, w: int, x0: int, x1: int, y0: int, y1: int)
    requires
        x0 <= x1,
        y0 <= y1,
    ensures
        0 <= rect_sum(img, w, x0, x1, y0, y1, false) <= (y1 - y0) * ((x1 - x0) * 255),
    decreases y1 - y0,
{
    if y1 > y0 {
        lemma_rect_sum_bound(img, w, x0, x1, y0, y1 - 1);
        lemma_row_sum_bound(img, w, y1 - 1, x0, x1);
        assert((y1 - 1 - y0) * ((x1 - x0) * 255) + (x1 - x0) * 255 == (y1 - y0) * ((x1 - x0) * 255)) by (nonlinear_arith);
    }
}

/// The average of the `f` by `f` block at `(x * f, y * f)` of a `w`-wide image.
pub open spec fn block_average(img: Seq<u8>, w: int, f: int, x: int, y: int) -> int {
    rect_sum(img, w, x * f, x * f + f, y * f, y * f + f, false) / (f * f)
}

proof fn lemma_row_sum_uniform(img: Seq<u8>, w: int, yy: int, x0: int, x1: int, v: u8)
    requires
        0 <= x0 <= x1 <= w,
        0 <= yy,
        (yy + 1) * w <= img.len(),
        forall|k: int| 0 <= k < img.len() ==> #[trigger] img[k] == v,
    ensures
        row_sum(img, w, yy, x0, x1, false) == (x1 - x0) * v,
    decreases x1 - x0,
{
    if x1 > x0 {
        lemma_row_sum_uniform(img, w, yy, x0, x1 - 1, v);
        assert(0 <= yy * w + x1 - 1 < img.len()) by (nonlinear_arith)
            requires
                0 <= yy,
                0 <= x0 < x1 <= w,
                (yy + 1) * w <= img.len(),
        ;
        assert(row_sum(img, w, yy, x0, x1, false) == row_sum(img, w, yy, x0, x1 - 1, false) + weight(
            img[yy * w + x1 - 1],
            false,
        ));
        assert(img[yy * w + x1 - 1] == v);
        assert((x1 - 1 - x0) * v + v == (x1 - x0) * v) by (nonlinear_arith);
    } else {
        assert((x1 - x0) * v == 0) by (nonlinear_arith)
            requires
                x1 == x0,
        ;
    }
}

proof fn lemma_rect_sum_uniform(img: Seq<u8>, w: int, x0: int, x1: int, y0: int, y1: int, v: u8)
    requires
        0 <= x0 <= x1 <= w,
        0 <= y0 <= y1,
        y1 * w <= img.len(),
        forall|k: int| 0 <= k < img.len() ==> #[trigger] img[k] == v,
    ensures
        rect_sum(img, w, x0, x1, y0, y1, false) == (y1 - y0) * ((x1 - x0) * v),
    decreases y1 - y0,
{
    if y1 > y0 {
        assert((y1 - 1) * w <= y1 * w) by (nonlinear_arith)
            requires
                w >= 0,
        ;
        lemma_rect_sum_uniform(img, w, x0, x1, y0, y1 - 1, v);
        lemma_row_sum_uniform(img, w, y1 - 1, x0, x1, v);
        assert((y1 - 1 - y0) * ((x1 - x0) * v) + (x1 - x0) * v == (y1 - y0) * ((x1 - x0) * v)) by (nonlinear_arith);
    } else {
        assert((y1 - y0) * ((x1 - x0) * v) == 0) by (nonlinear_arith)
            requires
                y1 == y0,
        ;
    }
}

/// Shrinking by a factor of one keeps every pixel as it is, and every block
/// of an image of one grey averages to that grey.
pub proof fn lemma_block_average_laws(img: Seq<u8>, w: int, h: int, f: int, x: int, y: int, v: u8)
    requires
        w >= 0,
        h >= 0,
        img.len() == w * h,
        f >= 1,
        0 <= x < w / f,
        0 <= y < h / f,
    ensures
        f == 1 ==> block_average(img, w, f, x, y) == img[y * w + x],
        (forall|k: int| 0 <= k < img.len() ==> #[trigger] img[k] == v) ==> block_average(img, w, f, x, y) == v,
{
    lemma_block_index(w, h, f, x, y, 0, 0);
    if f == 1 {
        assert(rect_sum(img, w, x, x + 1, y, y, false) == 0);
        assert(row_sum(img, w, y, x, x, false) == 0);
        assert(rect_sum(img, w, x, x + 1, y, y + 1, false) == row_sum(img, w, y, x, x + 1, false));
        assert(x * f == x && y * f == y && f * f == 1) by (nonlinear_arith)
            requires
                f == 1,
        ;
        assert(row_sum(img, w, y, x, x + 1, false) == img[y * w + x] as int);
    }
    if forall|k: int| 0 <= k < img.len() ==> #[trigger] img[k] == v {
        assert(x * f + f <= w && (y * f + f) * w <= img.len()) by (nonlinear_arith)
            requires
                f >= 1,
                0 <= x < w / f,
                0 <= y < h / f,
                img.len() == w * h,
                w >= 0,
        ;
        assert(0 <= x * f && 0 <= y * f) by (nonlinear_arith)
            requires
                f >= 1,
                0 <= x,
                0 <= y,
        ;
        lemma_rect_sum_uniform(img, w, x * f, x * f + f, y * f, y * f + f, v);
        assert(f * (f * v) / (f * f) == v) by (nonlinear_arith)
            requires
                f >= 1,
        ;
    }
}

proof fn lemma_block_index(w: int, h: int, f: int, x: int, y: int, dx: int, dy: int)
    requires
        f >= 1,
        0 <= x < w / f,
        0 <= y < h / f,
        0 <= dx < f,
        0 <= dy < f,
    ensures
        0 <= (y * f + dy) * w + x * f + dx < w * h,
        x * f + dx < w,
        y * f + dy < h,
{
    assert(x * f + dx < w && y * f + dy < h) by (nonlinear_arith)
        requires
            f >= 1,
            0 <= x < w / f,
            0 <= y < h / f,
            0 <= dx < f,
            0 <= dy < f,
    ;
    assert(0 <= (y * f + dy) * w + x * f + dx < w * h) by (nonlinear_arith)
        requires
            0 <= x * f + dx < w,
            0 <= y * f + dy < h,
    ;
}

/// Shrinks the `w` by `h` image by `factor` in each direction: each output
/// pixel is the average (rounded down) of a `factor` by `factor` block;
/// right and bottom edges that do not fill a block are dropped.
pub fn downsample_box(img: &Vec<u8>, w: u32, h: u32, factor: u32) -> (r: (Vec<u8>, u32, u32))
    requires
        factor >= 1,
        img@.len() == w * h,
        factor * factor * 255 <= u32::MAX,
    ensures
        r.1 == w / factor,
        r.2 == h / factor,
        r.0@.len() == r.1 * r.2,
        forall|y: int, x: int|
            0 <= y < r.2 && 0 <= x < r.1 ==> #[trigger] r.0@[y * r.1 + x] == block_average(
                img@,
                w as int,
                factor as int,
                x,
                y,
            ),
{
    let nw = w / factor;
    let nh = h / factor;
    let area = factor * factor;
    let fu = factor as usize;
    let wu = w as usize;
    let total = img.len();
    proof {
        assert(area >= 1) by (nonlinear_arith)
            requires
                area == factor * factor,
                factor >= 1,
        ;
    }
    let mut out: Vec<u8> = Vec::new();
    let mut y: u32 = 0;
    proof {
        assert(nw * nh <= w * h) by (nonlinear_arith)
            requires
                nw == w / factor,
                nh == h / factor,
                factor >= 1,
        ;
    }
    while y < nh
        invariant
            factor >= 1,
            img@.len() == w * h,
            factor * factor * 255 <= u32::MAX,
            area == factor * factor,
            area >= 1,
            total == w * h,
            nw == w / factor,
            nh == h / factor,
            fu == factor,
            wu == w,
            nw * nh <= w * h,
            y <= nh,
            out@.len() == y * nw,
            forall|yy: int, xx: int|
                0 <= yy < y && 0 <= xx < nw ==> #[trigger] out@[yy * nw + xx] == block_average(img@, w as int, factor as int, xx, yy),
        decreases nh - y,
    {
        let mut x: u32 = 0;
        while x < nw
            invariant
                factor >= 1,
                img@.len() == w * h,
                factor * factor * 255 <= u32::MAX,
                area == factor * factor,
                area >= 1,
                total == w * h,
                nw == w / factor,
                nh == h / factor,
                fu == factor,
                wu == w,
                nw * nh <= w * h,
                y < nh,
                x <= nw,
                out@.len() == y * nw + x,
                forall|yy: int, xx: int|
                    0 <= yy < y && 0 <= xx < nw ==> #[trigger] out@[yy * nw + xx] == block_average(img@, w as int, factor as int, xx, yy),
                forall|xx: int| 0 <= xx < x ==> #[trigger] out@[y * nw + xx] == block_average(img@, w as int, factor as int, xx, y as int),
            decreases nw - x,
        {
            let ghost bx = x * factor;
            let ghost by = y * factor;
            let mut sum: u32 = 0;
            let mut dy: usize = 0;
            while dy < fu
                invariant
                    factor >= 1,
                    img@.len() == w * h,
                    factor * factor * 255 <= u32::MAX,
                    nw == w / factor,
                    nh == h / factor,
                    fu == factor,
                    wu == w,
                    total == w * h,
                    y < nh,
                    x < nw,
                    bx == x * factor,
                    by == y * factor,
                    dy <= fu,
                    sum == rect_sum(img@, w as int, bx, bx + factor, by, by + dy, false),
                decreases fu - dy,
            {
                let mut dx: usize = 0;
                let ghost row_start = sum;
                while dx < fu
                    invariant
                        factor >= 1,
                        img@.len() == w * h,
                        factor * factor * 255 <= u32::MAX,
                        nw == w / factor,
                        nh == h / factor,
                        fu == factor,
                        wu == w,
                        total == w * h,
                        y < nh,
                        x < nw,
                        bx == x * factor,
                        by == y * factor,
                        dy < fu,
                        dx <= fu,
                        row_start == rect_sum(img@, w as int, bx, bx + factor, by, by + dy, false),
                        sum == row_start + row_sum(img@, w as int, by + dy, bx, bx + dx, false),
                    decreases fu - dx,
                {
                    proof {
                        lemma_block_index(w as int, h as int, factor as int, x as int, y as int, dx as int, dy as int);
                        lemma_rect_sum_bound(img@, w as int, bx, bx + factor, by, by + dy);
                        lemma_row_sum_bound(img@, w as int, by + dy, bx, bx + dx);
                        assert(dy * (factor * 255) + (dx + 1) * 255 <= factor * factor * 255) by (nonlinear_arith)
                            requires
                                dy < factor,
                                dx < factor,
                        ;
                        assert((y * factor + dy) * w + (x * factor + dx) == (y * factor + dy) * w + x * factor + dx);
                        assert((y * factor + dy) * w <= (y * factor + dy) * w + (x * factor + dx));
                        assert(y * factor <= y * factor + dy);
                        assert(x * factor <= x * factor + dx);
                    }
                    let idx = (y as usize * fu + dy) * wu + (x as usize * fu + dx);
                    sum = sum + img[idx] as u32;
                    dx = dx + 1;
                }
                dy = dy + 1;
            }
            proof {
                lemma_rect_sum_bound(img@, w as int, bx, bx + factor, by, by + factor);
                assert(factor * (factor * 255) == factor * factor * 255) by (nonlinear_arith);
                assert(sum / area <= 255) by (nonlinear_arith)
                    requires
                        sum <= area * 255,
                        area >= 1,
                ;
                assert(y * nw + x < nw * nh) by (nonlinear_arith)
                    requires
                        y < nh,
                        x < nw,
                ;
            }
            let ghost before = out@;
            out.push((sum / area) as u8);
            proof {
                assert forall|yy: int, xx: int|
                    0 <= yy < y && 0 <= xx < nw implies #[trigger] out@[yy * nw + xx] == block_average(img@, w as int, factor as int, xx, yy) by {
                    assert(yy * nw + xx < y * nw) by (nonlinear_arith)
                        requires
                            0 <= yy < y,
                            0 <= xx < nw,
                    ;
                    assert(before[yy * nw + xx] == out@[yy * nw + xx]);
                }
                assert forall|xx: int| 0 <= xx < x + 1 implies #[trigger] out@[y * nw + xx] == block_average(img@, w as int, factor as int, xx, y as int) by {
                    if xx < x {
                        assert(before[y * nw + xx] == out@[y * nw + xx]);
                    }
                }
            }
            x = x + 1;
        }
        proof {
            assert(y * nw + nw == (y + 1) * nw) by (nonlinear_arith);
            assert forall|yy: int, xx: int|
                0 <= yy < y + 1 && 0 <= xx < nw implies #[trigger] out@[yy * nw + xx] == block_average(img@, w as int, factor as int, xx, yy) by {
                if yy == y {
                    assert(out@[y * nw + xx] == block_average(img@, w as int, factor as int, xx, y as int));
                }
            }
        }
        y = y + 1;
    }
    proof {
        assert(nh * nw == nw * nh) by (nonlinear_arith);
    }
    (out, nw, nh)
}

} // verus!
