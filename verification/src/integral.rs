//! Summed-area tables of a grayscale image: any rectangle's sum and sum of
//! squares in four lookups.
use vstd::prelude::*;

verus! {

/// A pixel's contribution: its value, or its square.
pub open spec fn weight(v: u8, sq: bool) -> int {
    if sq {
        v * v
    } else {
        v as int
    }
}

/// The pixels `x0..x1` of row `yy` of a `w`-wide image, summed.
pub open spec fn row_sum(img: Seq<u8>, w: int, yy: int, x0: int, x1: int, sq: bool) -> int
    decreases x1 - x0,
{
    if x1 <= x0 {
        0
    } else {
        row_sum(img, w, yy, x0, x1 - 1, sq) + weight(img[yy * w + x1 - 1], sq)
    }
}

/// The rectangle of columns `x0..x1` and rows `y0..y1`, summed.
pub open spec fn rect_sum(img: Seq<u8>, w: int, x0: int, x1: int, y0: int, y1: int, sq: bool) -> int
    decreases y1 - y0,
{
    if y1 <= y0 {
        0
    } else {
        rect_sum(img, w, x0, x1, y0, y1 - 1, sq) + row_sum(img, w, y1 - 1, x0, x1, sq)
    }
}

proof fn lemma_row_split(img: Seq<u8>, w: int, yy: int, x0: int, x1: int, sq: bool)
    requires
        0 <= x0 <= x1,
    ensures
        row_sum(img, w, yy, 0, x1, sq) == row_sum(img, w, yy, 0, x0, sq) + row_sum(img, w, yy, x0, x1, sq),
    decreases x1 - x0,
{
    if x1 > x0 {
        lemma_row_split(img, w, yy, x0, x1 - 1, sq);
    }
}

proof fn lemma_rect_split_rows(img: Seq<u8>, w: int, x0: int, x1: int, y0: int, y1: int, sq: bool)
    requires
        0 <= y0 <= y1,
    ensures
        rect_sum(img, w, x0, x1, 0, y1, sq) == rect_sum(img, w, x0, x1, 0, y0, sq) + rect_sum(img, w, x0, x1, y0, y1, sq),
    decreases y1 - y0,
{
    if y1 > y0 {
        lemma_rect_split_rows(img, w, x0, x1, y0, y1 - 1, sq);
    }
}

proof fn lemma_rect_split_cols(img: Seq<u8>, w: int, x0: int, x1: int, y0: int, y1: int, sq: bool)
    requires
        0 <= x0 <= x1,
    ensures
        rect_sum(img, w, x0, x1, y0, y1, sq) == rect_sum(img, w, 0, x1, y0, y1, sq) - rect_sum(img, w, 0, x0, y0, y1, sq),
    decreases y1 - y0,
{
    if y1 > y0 {
        lemma_rect_split_cols(img, w, x0, x1, y0, y1 - 1, sq);
        lemma_row_split(img, w, y1 - 1, x0, x1, sq);
    }
}

/// The sum of a rectangle from four corner sums of the table.
pub proof fn lemma_rect_from_corners(img: Seq<u8>, w: int, x: int, y: int, qw: int, qh: int, sq: bool)
    requires
        0 <= x,
        0 <= y,
        0 <= qw,
        0 <= qh,
    ensures
        rect_sum(img, w, x, x + qw, y, y + qh, sq) == rect_sum(img, w, 0, x + qw, 0, y + qh, sq) - rect_sum(
            img,
            w,
            0,
            x + qw,
            0,
            y,
            sq,
        ) - rect_sum(img, w, 0, x, 0, y + qh, sq) + rect_sum(img, w, 0, x, 0, y, sq),
{
    lemma_rect_split_cols(img, w, x, x + qw, y, y + qh, sq);
    lemma_rect_split_rows(img, w, 0, x + qw, y, y + qh, sq);
    lemma_rect_split_rows(img, w, 0, x, y, y + qh, sq);
}

proof fn lemma_row_bound(img: Seq<u8>, w: int, yy: int, x1: int, sq: bool)
    requires
        0 <= x1,
    ensures
        0 <= row_sum(img, w, yy, 0, x1, sq) <= x1 * 65025,
    decreases x1,
{
    if x1 > 0 {
        lemma_row_bound(img, w, yy, x1 - 1, sq);
        let v = img[yy * w + x1 - 1];
        assert(0 <= weight(v, sq) <= 65025) by (nonlinear_arith)
            requires
                0 <= v <= 255,
                weight(v, sq) == (if sq { v * v } else { v as int }),
        ;
    }
}

proof fn lemma_rect_bound(img: Seq<u8>, w: int, x1: int, y1: int, sq: bool)
    requires
        0 <= x1,
        0 <= y1,
    ensures
        0 <= rect_sum(img, w, 0, x1, 0, y1, sq) <= y1 * (x1 * 65025),
    decreases y1,
{
    if y1 > 0 {
        lemma_rect_bound(img, w, x1, y1 - 1, sq);
        lemma_row_bound(img, w, y1 - 1, x1, sq);
        assert((y1 - 1) * (x1 * 65025) + x1 * 65025 == y1 * (x1 * 65025)) by (nonlinear_arith);
    }
}

proof fn lemma_pixel_index(w: int, h: int, yy: int, xx: int)
    requires
        0 <= yy < h,
        0 <= xx < w,
    ensures
        0 <= yy * w <= yy * w + xx < w * h,
{
    assert(0 <= yy * w <= yy * w + xx < w * h) by (nonlinear_arith)
        requires
            0 <= yy < h,
            0 <= xx < w,
    ;
}

proof fn lemma_row_fits(w: int, h: int, x: int)
    requires
        1 <= x <= w,
        1 <= h,
    ensures
        x * 65025 <= w * h * 65025,
{
    assert(x * 65025 <= w * h * 65025) by (nonlinear_arith)
        requires
            1 <= x <= w,
            1 <= h,
    ;
}

proof fn lemma_above_index(w: int, y: int, x: int)
    requires
        1 <= y,
        0 <= x <= w,
    ensures
        0 <= (y - 1) * (w + 1) <= (y - 1) * (w + 1) + x < y * (w + 1) + x,
{
    assert(0 <= (y - 1) * (w + 1) <= (y - 1) * (w + 1) + x < y * (w + 1) + x) by (nonlinear_arith)
        requires
            1 <= y,
            0 <= x <= w,
    ;
}

proof fn lemma_cell_fits(w: int, h: int, y: int, x: int)
    requires
        1 <= y <= h,
        0 <= x <= w,
    ensures
        (y - 1) * (x * 65025) + x * 65025 <= w * h * 65025,
{
    assert((y - 1) * (x * 65025) + x * 65025 <= w * h * 65025) by (nonlinear_arith)
        requires
            1 <= y <= h,
            0 <= x <= w,
    ;
}

proof fn lemma_row_before(w: int, y: int, yy: int, xx: int)
    requires
        0 <= yy < y,
        0 <= xx <= w,
    ensures
        0 <= yy * (w + 1) + xx < y * (w + 1),
{
    assert(0 <= yy * (w + 1) + xx < y * (w + 1)) by (nonlinear_arith)
        requires
            0 <= yy < y,
            0 <= xx <= w,
    ;
}

/// Running sums over the image: entry `y * stride + x` holds the sum (and
/// the sum of squares) of the pixels above and left of `(x, y)`.
pub struct IntegralImage {
    pub stride: usize,
    pub sum: Vec<i64>,
    pub sum_sq: Vec<i64>,
    pub img: Ghost<Seq<u8>>,
    pub rows: Ghost<int>,
}

/// The table is the summed-area table of the `w` by `h` image `img`.
pub open spec fn tables_of(t: IntegralImage, img: Seq<u8>, w: int, h: int) -> bool {
    &&& t.stride == w + 1
    &&& 0 <= w && 0 <= h
    &&& w * h * 65025 <= i64::MAX
    &&& t.sum@.len() == (h + 1) * (w + 1)
    &&& t.sum_sq@.len() == (h + 1) * (w + 1)
    &&& forall|y: int, x: int|
        0 <= y <= h && 0 <= x <= w ==> #[trigger] t.sum@[y * (w + 1) + x] == rect_sum(img, w, 0, x, 0, y, false)
            && t.sum_sq@[y * (w + 1) + x] == rect_sum(img, w, 0, x, 0, y, true)
}

proof fn lemma_cell(w: int, h: int, y: int, x: int)
    requires
        0 <= y <= h,
        0 <= x <= w,
    ensures
        0 <= y * (w + 1) + x < (h + 1) * (w + 1),
{
    assert(0 <= y * (w + 1) + x < (h + 1) * (w + 1)) by (nonlinear_arith)
        requires
            0 <= y <= h,
            0 <= x <= w,
    ;
}

impl IntegralImage {
    /// The image the tables were built from.
    pub open spec fn image(&self) -> Seq<u8> {
        self.img@
    }

    /// Its height in rows.
    pub open spec fn rows(&self) -> int {
        self.rows@
    }

    pub open spec fn wf(&self) -> bool {
        tables_of(*self, self.image(), self.stride - 1, self.rows())
    }

    /// The summed-area tables of the `w` by `h` image `img` (row-major bytes).
    pub fn build(img: &Vec<u8>, w: usize, h: usize) -> (t: IntegralImage)
        requires
            img@.len() == w * h,
            (w + 1) * (h + 1) <= usize::MAX,
            w * h * 65025 <= i64::MAX,
        ensures
            t.wf(),
            t.image() == img@,
            t.rows() == h,
            t.stride == w + 1,
    {
        proof {
            assert(w + 1 <= (w + 1) * (h + 1)) by (nonlinear_arith);
            assert(h + 1 <= (w + 1) * (h + 1)) by (nonlinear_arith);
            assert(w * h <= (w + 1) * (h + 1)) by (nonlinear_arith);
        }
        let stride = w + 1;
        let mut sum: Vec<i64> = Vec::new();
        let mut sum_sq: Vec<i64> = Vec::new();
        let mut y: usize = 0;
        while y <= h
            invariant
                stride == w + 1,
                img@.len() == w * h,
                w * h <= (w + 1) * (h + 1) <= usize::MAX,
                h + 1 <= usize::MAX,
                w * h * 65025 <= i64::MAX,
                y <= h + 1,
                sum@.len() == y * (w + 1),
                sum_sq@.len() == y * (w + 1),
                forall|yy: int, xx: int|
                    0 <= yy < y && 0 <= xx <= w ==> #[trigger] sum@[yy * (w + 1) + xx] == rect_sum(img@, w as int, 0, xx, 0, yy, false)
                        && sum_sq@[yy * (w + 1) + xx] == rect_sum(img@, w as int, 0, xx, 0, yy, true),
            decreases h + 1 - y,
        {
            let mut x: usize = 0;
            let mut run: i64 = 0;
            let mut run_sq: i64 = 0;
            let ghost start = sum@.len();
            while x <= w
                invariant
                    stride == w + 1,
                    img@.len() == w * h,
                    w * h <= (w + 1) * (h + 1) <= usize::MAX,
                    w * h * 65025 <= i64::MAX,
                    y <= h,
                    x <= w + 1,
                    start == y * (w + 1),
                    sum@.len() == start + x,
                    sum_sq@.len() == start + x,
                    y > 0 ==> run == (if x == 0 { 0 } else { row_sum(img@, w as int, y - 1, 0, x - 1, false) }),
                    y > 0 ==> run_sq == (if x == 0 { 0 } else { row_sum(img@, w as int, y - 1, 0, x - 1, true) }),
                    y == 0 ==> run == 0 && run_sq == 0,
                    forall|yy: int, xx: int|
                        0 <= yy < y && 0 <= xx <= w ==> #[trigger] sum@[yy * (w + 1) + xx] == rect_sum(img@, w as int, 0, xx, 0, yy, false)
                            && sum_sq@[yy * (w + 1) + xx] == rect_sum(img@, w as int, 0, xx, 0, yy, true),
                    forall|xx: int|
                        0 <= xx < x ==> #[trigger] sum@[start + xx] == rect_sum(img@, w as int, 0, xx, 0, y as int, false)
                            && sum_sq@[start + xx] == rect_sum(img@, w as int, 0, xx, 0, y as int, true),
                decreases w + 1 - x,
            {
                let ghost old_sum = sum@;
                let ghost old_sq = sum_sq@;
                if y == 0 {
                    sum.push(0);
                    sum_sq.push(0);
                } else {
                    if x > 0 {
                        proof {
                            lemma_pixel_index(w as int, h as int, (y - 1) as int, (x - 1) as int);
                            lemma_row_bound(img@, w as int, y - 1, x - 1, false);
                            lemma_row_bound(img@, w as int, y - 1, x - 1, true);
                            lemma_row_fits(w as int, h as int, x as int);
                        }
                        let p = img[(y - 1) * w + (x - 1)] as i64;
                        proof {
                            assert(p * p <= 65025 && p * p >= 0) by (nonlinear_arith)
                                requires
                                    0 <= p <= 255,
                            ;
                            assert(row_sum(img@, w as int, y - 1, 0, x as int, false) == run + p);
                        }
                        run = run + p;
                        run_sq = run_sq + p * p;
                    }
                    proof {
                        lemma_above_index(w as int, y as int, x as int);
                        lemma_rect_bound(img@, w as int, x as int, (y - 1) as int, false);
                        lemma_rect_bound(img@, w as int, x as int, (y - 1) as int, true);
                        lemma_row_bound(img@, w as int, (y - 1) as int, x as int, false);
                        lemma_row_bound(img@, w as int, (y - 1) as int, x as int, true);
                        lemma_cell_fits(w as int, h as int, y as int, x as int);
                        lemma_cell(w as int, h as int, y as int, x as int);
                        assert(sum@[(y - 1) * (w + 1) + x] == rect_sum(img@, w as int, 0, x as int, 0, y - 1, false));
                        assert(sum_sq@[(y - 1) * (w + 1) + x] == rect_sum(img@, w as int, 0, x as int, 0, y - 1, true));
                    }
                    let above = sum[(y - 1) * stride + x];
                    let above_sq = sum_sq[(y - 1) * stride + x];
                    sum.push(above + run);
                    sum_sq.push(above_sq + run_sq);
                }
                proof {
                    assert forall|yy: int, xx: int|
                        0 <= yy < y && 0 <= xx <= w implies #[trigger] sum@[yy * (w + 1) + xx] == rect_sum(img@, w as int, 0, xx, 0, yy, false)
                            && sum_sq@[yy * (w + 1) + xx] == rect_sum(img@, w as int, 0, xx, 0, yy, true) by {
                        lemma_row_before(w as int, y as int, yy, xx);
                        assert(old_sum[yy * (w + 1) + xx] == sum@[yy * (w + 1) + xx]);
                        assert(old_sq[yy * (w + 1) + xx] == sum_sq@[yy * (w + 1) + xx]);
                    }
                    assert forall|xx: int| 0 <= xx < x + 1 implies #[trigger] sum@[start + xx] == rect_sum(img@, w as int, 0, xx, 0, y as int, false)
                        && sum_sq@[start + xx] == rect_sum(img@, w as int, 0, xx, 0, y as int, true) by {
                        if xx < x {
                            assert(old_sum[start + xx] == sum@[start + xx]);
                            assert(old_sq[start + xx] == sum_sq@[start + xx]);
                        }
                    }
                }
                x = x + 1;
            }
            proof {
                assert(y * (w + 1) + (w + 1) == (y + 1) * (w + 1)) by (nonlinear_arith);
                assert forall|yy: int, xx: int|
                    0 <= yy < y + 1 && 0 <= xx <= w implies #[trigger] sum@[yy * (w + 1) + xx] == rect_sum(img@, w as int, 0, xx, 0, yy, false)
                        && sum_sq@[yy * (w + 1) + xx] == rect_sum(img@, w as int, 0, xx, 0, yy, true) by {
                    if yy == y {
                        assert(sum@[start + xx] == rect_sum(img@, w as int, 0, xx, 0, y as int, false));
                    }
                }
            }
            y = y + 1;
        }
        proof {
            assert(sum@.len() == (h + 1) * (w + 1)) by (nonlinear_arith)
                requires
                    sum@.len() == (h + 1) * (w + 1),
            ;
        }
        IntegralImage { stride, sum, sum_sq, img: Ghost(img@), rows: Ghost(h as int) }
    }

    /// The sum and the sum of squares of the `qw` by `qh` rectangle at `(x, y)`.
    pub fn query(&self, x: usize, y: usize, qw: usize, qh: usize) -> (r: (i64, i64))
        requires
            self.wf(),
            x + qw <= self.stride - 1,
            y + qh <= self.rows(),
        ensures
            r.0 == rect_sum(self.image(), self.stride - 1, x as int, x + qw, y as int, y + qh, false),
            r.1 == rect_sum(self.image(), self.stride - 1, x as int, x + qw, y as int, y + qh, true),
    {
        let ghost img = self.image();
        let ghost h = self.rows();
        let s = self.stride;
        let ghost w: int = s - 1;
        let total = self.sum.len();
        proof {
            lemma_cell(w, h, y as int, x as int);
            lemma_cell(w, h, y as int, x + qw);
            lemma_cell(w, h, y + qh, x as int);
            lemma_cell(w, h, y + qh, x + qw);
        }
        proof {
            assert(h + 1 <= (h + 1) * (w + 1)) by (nonlinear_arith)
                requires
                    h >= 0,
                    w >= 0,
            ;
        }
        let tl = y * s + x;
        let tr = y * s + (x + qw);
        let yb = y + qh;
        proof {
            assert(yb * s + x < total);
            assert(yb * s <= yb * s + x);
        }
        let bl = yb * s + x;
        let br = (y + qh) * s + (x + qw);
        proof {
            lemma_rect_from_corners(img, w, x as int, y as int, qw as int, qh as int, false);
            lemma_rect_from_corners(img, w, x as int, y as int, qw as int, qh as int, true);
            lemma_query_bounds(img, w, h, x as int, y as int, qw as int, qh as int, false);
            lemma_query_bounds(img, w, h, x as int, y as int, qw as int, qh as int, true);
            assert(self.sum@[br as int] == rect_sum(img, w, 0, x + qw, 0, y + qh, false));
            assert(self.sum@[tr as int] == rect_sum(img, w, 0, x + qw, 0, y as int, false));
            assert(self.sum@[bl as int] == rect_sum(img, w, 0, x as int, 0, y + qh, false));
            assert(self.sum@[tl as int] == rect_sum(img, w, 0, x as int, 0, y as int, false));
            assert(self.sum_sq@[br as int] == rect_sum(img, w, 0, x + qw, 0, y + qh, true));
            assert(self.sum_sq@[tr as int] == rect_sum(img, w, 0, x + qw, 0, y as int, true));
            assert(self.sum_sq@[bl as int] == rect_sum(img, w, 0, x as int, 0, y + qh, true));
            assert(self.sum_sq@[tl as int] == rect_sum(img, w, 0, x as int, 0, y as int, true));
        }
        (
            self.sum[br] - self.sum[tr] - self.sum[bl] + self.sum[tl],
            self.sum_sq[br] - self.sum_sq[tr] - self.sum_sq[bl] + self.sum_sq[tl],
        )
    }
}

proof fn lemma_row_nonneg(img: Seq<u8>, w: int, yy: int, x0: int, x1: int, sq: bool)
    ensures
        row_sum(img, w, yy, x0, x1, sq) >= 0,
    decreases x1 - x0,
{
    if x1 > x0 {
        lemma_row_nonneg(img, w, yy, x0, x1 - 1, sq);
        let v = img[yy * w + x1 - 1];
        assert(weight(v, sq) >= 0) by (nonlinear_arith)
            requires
                0 <= v <= 255,
                weight(v, sq) == (if sq { v * v } else { v as int }),
        ;
    }
}

proof fn lemma_rect_nonneg(img: Seq<u8>, w: int, x0: int, x1: int, y0: int, y1: int, sq: bool)
    ensures
        rect_sum(img, w, x0, x1, y0, y1, sq) >= 0,
    decreases y1 - y0,
{
    if y1 > y0 {
        lemma_rect_nonneg(img, w, x0, x1, y0, y1 - 1, sq);
        lemma_row_nonneg(img, w, y1 - 1, x0, x1, sq);
    }
}

/// The corner sums and their partial differences stay within the i64 range.
proof fn lemma_query_bounds(img: Seq<u8>, w: int, h: int, x: int, y: int, qw: int, qh: int, sq: bool)
    requires
        0 <= x,
        0 <= y,
        0 <= qw,
        0 <= qh,
        x + qw <= w,
        y + qh <= h,
        w * h * 65025 <= i64::MAX,
    ensures
        0 <= rect_sum(img, w, 0, x + qw, 0, y + qh, sq) <= i64::MAX,
        0 <= rect_sum(img, w, 0, x + qw, 0, y, sq) <= rect_sum(img, w, 0, x + qw, 0, y + qh, sq),
        0 <= rect_sum(img, w, 0, x, 0, y + qh, sq) <= i64::MAX,
        0 <= rect_sum(img, w, 0, x, 0, y, sq) <= rect_sum(img, w, 0, x, 0, y + qh, sq),
        0 <= rect_sum(img, w, x, x + qw, y, y + qh, sq),
{
    lemma_rect_split_rows(img, w, 0, x, y, y + qh, sq);
    lemma_rect_nonneg(img, w, 0, x, y, y + qh, sq);
    lemma_rect_nonneg(img, w, x, x + qw, y, y + qh, sq);
    lemma_rect_bound(img, w, x + qw, y + qh, sq);
    lemma_rect_bound(img, w, x, y + qh, sq);
    lemma_rect_bound(img, w, x, y, sq);
    lemma_rect_bound(img, w, x + qw, y, sq);
    lemma_rect_split_rows(img, w, 0, x + qw, y, y + qh, sq);
    lemma_rect_nonneg(img, w, 0, x + qw, y, y + qh, sq);
    assert((y + qh) * ((x + qw) * 65025) <= h * (w * 65025)) by (nonlinear_arith)
        requires
            0 <= x + qw <= w,
            0 <= y + qh <= h,
    ;
    assert((y + qh) * (x * 65025) <= h * (w * 65025)) by (nonlinear_arith)
        requires
            0 <= x <= w,
            0 <= y + qh <= h,
    ;
    assert(y * (x * 65025) <= h * (w * 65025)) by (nonlinear_arith)
        requires
            0 <= x <= w,
            0 <= y <= h,
    ;
    assert(h * (w * 65025) == w * h * 65025) by (nonlinear_arith);
}

} // verus!
