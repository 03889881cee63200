//! The retained frame: the last region read back from the capture stream,
//! and the geometry that decides which requests it can answer.
//!
//! Rectangles here are in frame pixels, `(x0, y0, x1, y1)` with exclusive
//! right and bottom edges; the scaling from logical coordinates into the
//! frame happens before these functions are reached.
use vstd::prelude::*;
use crate::blob::{ColorRegion, color_scan, largest_patch, largest_color_region};
use crate::pixels::{
    PixelFormat, channel_offsets, spec_channel_offsets, convert_region, copy_region_rgba, region_fits, row_in_frame, row_offset,
    pixel_luma, rgba_byte,
};

verus! {

/// The last frame region read back, in the stream's native byte order.
pub struct RetainedFrame {
    pub data: Vec<u8>,
    pub stride: usize,
    pub w: u32,
    pub h: u32,
    pub origin_x: u32,
    pub origin_y: u32,
    pub fmt: PixelFormat,
}

impl RetainedFrame {
    /// Every byte offset inside the retained rows fits the machine's integers.
    pub open spec fn fits(self) -> bool {
        &&& self.h * self.stride + 4 * self.w <= usize::MAX
        &&& 4 * self.w * self.h <= usize::MAX
    }

    /// The buffer holds pixel data.
    pub open spec fn has_data(self) -> bool {
        self.w != 0 && self.h != 0
    }
}

pub open spec fn clamp(v: int, lo: int, hi: int) -> int {
    if v < lo {
        lo
    } else if v > hi {
        hi
    } else {
        v
    }
}

fn clamp_exec(v: i64, hi: u32) -> (r: i64)
    ensures
        r == clamp(v as int, 0, hi as int),
{
    if v < 0 {
        0
    } else if v > hi as i64 {
        hi as i64
    } else {
        v
    }
}

/// The part of a frame rectangle that lies inside a `fw` x `fh` frame, when
/// it has any area.
pub open spec fn spec_visible_rect(r: (i64, i64, i64, i64), fw: u32, fh: u32) -> Option<(i64, i64, i64, i64)> {
    let x0 = clamp(r.0 as int, 0, fw as int);
    let x1 = clamp(r.2 as int, 0, fw as int);
    let y0 = clamp(r.1 as int, 0, fh as int);
    let y1 = clamp(r.3 as int, 0, fh as int);
    if x1 > x0 && y1 > y0 {
        Some((x0 as i64, y0 as i64, x1 as i64, y1 as i64))
    } else {
        None
    }
}

/// The visible part of a rectangle lies inside both the frame and the
/// rectangle, has area, and is the rectangle itself when that lies inside
/// the frame; clipping it again changes nothing. A pixel is read only
/// inside the retained area.
pub proof fn lemma_visible_rect_laws(r: (i64, i64, i64, i64), fw: u32, fh: u32, f: RetainedFrame, fx: int, fy: int)
    ensures
        spec_visible_rect(r, fw, fh) matches Some(v) ==> 0 <= v.0 < v.2 <= fw && 0 <= v.1 < v.3 <= fh && r.0 <= v.0
            && r.1 <= v.1 && v.2 <= r.2 && v.3 <= r.3,
        spec_visible_rect(r, fw, fh) matches Some(v) ==> spec_visible_rect(v, fw, fh) == Some(v),
        0 <= r.0 < r.2 <= fw && 0 <= r.1 < r.3 <= fh ==> spec_visible_rect(r, fw, fh) == Some(r),
        spec_retained_pixel(f, fx, fy) is Some ==> spec_covered(f, fx, fy, fx + 1, fy + 1),
{
}

/// Clips a frame rectangle to the frame; `None` when nothing of it is visible.
pub fn visible_region_rect(rect: (i64, i64, i64, i64), fw: u32, fh: u32) -> (r: Option<(i64, i64, i64, i64)>)
    ensures
        r == spec_visible_rect(rect, fw, fh),
{
    let x0 = clamp_exec(rect.0, fw);
    let x1 = clamp_exec(rect.2, fw);
    let y0 = clamp_exec(rect.1, fh);
    let y1 = clamp_exec(rect.3, fh);
    if x1 > x0 && y1 > y0 {
        Some((x0, y0, x1, y1))
    } else {
        None
    }
}

/// The retained buffer holds data and its area contains the rectangle.
pub open spec fn spec_covered(f: RetainedFrame, x0: int, y0: int, x1: int, y1: int) -> bool {
    &&& f.has_data()
    &&& x0 >= f.origin_x
    &&& y0 >= f.origin_y
    &&& x1 <= f.origin_x + f.w
    &&& y1 <= f.origin_y + f.h
}

/// Whether the retained buffer holds data for the whole rectangle.
pub fn retained_rect_covered(f: &RetainedFrame, x0: i64, y0: i64, x1: i64, y1: i64) -> (r: bool)
    ensures
        r == spec_covered(*f, x0 as int, y0 as int, x1 as int, y1 as int),
{
    if f.w == 0 || f.h == 0 {
        return false;
    }
    let ox = f.origin_x as i64;
    let oy = f.origin_y as i64;
    x0 >= ox && y0 >= oy && x1 <= ox + f.w as i64 && y1 <= oy + f.h as i64
}

/// Offset in the retained buffer of frame pixel `(fx, fy)`.
pub open spec fn retained_offset(f: RetainedFrame, fx: int, fy: int) -> int {
    (fy - f.origin_y) * f.stride + (fx - f.origin_x) * 4
}

proof fn lemma_offset_bounds(f: RetainedFrame, fx: int, fy: int, n: int)
    requires
        f.fits(),
        f.origin_x <= fx,
        f.origin_y <= fy < f.origin_y + f.h,
        fx - f.origin_x + n <= f.w,
        0 <= n,
    ensures
        0 <= retained_offset(f, fx, fy),
        retained_offset(f, fx, fy) + 4 * n <= usize::MAX,
{
    let dy = fy - f.origin_y;
    let dx = fx - f.origin_x;
    assert(0 <= dy * f.stride) by (nonlinear_arith)
        requires
            0 <= dy,
    ;
    assert(dy * f.stride <= (f.h - 1) * f.stride) by (nonlinear_arith)
        requires
            0 <= dy < f.h,
    ;
    assert((f.h - 1) * f.stride + f.stride == f.h * f.stride) by (nonlinear_arith);
}

/// The copy of rows `[y0, y1)` and columns `[x0, x1)` of the retained
/// buffer: byte `k` of row `row`, or zero where the row runs past the end.
pub open spec fn snapshot_byte(f: RetainedFrame, x0: int, y0: int, x1: int, row: int, k: int) -> u8 {
    let off = retained_offset(f, x0, y0 + row);
    if off + 4 * (x1 - x0) <= f.data.len() {
        f.data@[off + k]
    } else {
        0
    }
}

proof fn lemma_row_step(out: Seq<u8>, before: Seq<u8>, f: RetainedFrame, x0: int, y0: int, x1: int, row: int, need: int)
    requires
        0 <= row,
        need == 4 * (x1 - x0),
        need >= 0,
        before.len() == row * need,
        out.len() == before.len() + need,
        forall|j: int| 0 <= j < before.len() ==> out[j] == before[j],
        forall|rr: int, kk: int|
            0 <= rr < row && 0 <= kk < need ==> #[trigger] before[rr * need + kk] == snapshot_byte(f, x0, y0, x1, rr, kk),
        forall|kk: int| 0 <= kk < need ==> #[trigger] out[before.len() + kk] == snapshot_byte(f, x0, y0, x1, row, kk),
    ensures
        out.len() == (row + 1) * need,
        forall|rr: int, kk: int|
            0 <= rr < row + 1 && 0 <= kk < need ==> #[trigger] out[rr * need + kk] == snapshot_byte(f, x0, y0, x1, rr, kk),
{
    assert forall|rr: int, kk: int| 0 <= rr < row + 1 && 0 <= kk < need implies #[trigger] out[rr * need + kk] == snapshot_byte(f, x0, y0, x1, rr, kk) by {
        if rr < row {
            assert(rr * need + kk < row * need) by (nonlinear_arith)
                requires
                    0 <= rr,
                    rr + 1 <= row,
                    0 <= kk < need,
            ;
            assert(0 <= rr * need) by (nonlinear_arith)
                requires
                    0 <= rr,
                    0 <= need,
            ;
            assert(out[rr * need + kk] == before[rr * need + kk]);
        } else {
            assert(rr * need + kk == before.len() + kk);
        }
    }
    assert((row + 1) * need == row * need + need) by (nonlinear_arith);
}

/// Copies the rectangle out of the retained buffer in its native format,
/// row after row; rows past the end of the buffer come out as zeros, so the
/// copy always has the rectangle's size.
pub fn retained_snapshot(f: &RetainedFrame, x0: i64, y0: i64, x1: i64, y1: i64) -> (r: (Vec<u8>, u32, u32))
    requires
        f.fits(),
        spec_covered(*f, x0 as int, y0 as int, x1 as int, y1 as int),
        x0 <= x1,
        y0 <= y1,
    ensures
        r.1 == x1 - x0,
        r.2 == y1 - y0,
        r.0@.len() == 4 * r.1 * r.2,
        forall|row: int, k: int|
            0 <= row < r.2 && 0 <= k < 4 * r.1 ==> #[trigger] r.0@[row * (4 * r.1) + k] == snapshot_byte(*f, x0 as int, y0 as int, x1 as int, row, k),
{
    let w = (x1 - x0) as usize;
    let h = (y1 - y0) as usize;
    let need = w * 4;
    let mut out: Vec<u8> = Vec::new();
    let ox = f.origin_x as i64;
    let oy = f.origin_y as i64;
    let mut fy = y0;
    while fy < y1
        invariant
            f.fits(),
            spec_covered(*f, x0 as int, y0 as int, x1 as int, y1 as int),
            x0 <= x1,
            y0 <= fy <= y1,
            w == x1 - x0,
            need == 4 * w,
            ox == f.origin_x,
            oy == f.origin_y,
            out@.len() == (fy - y0) * need,
            forall|row: int, k: int|
                0 <= row < fy - y0 && 0 <= k < need ==> #[trigger] out@[row * need + k] == snapshot_byte(*f, x0 as int, y0 as int, x1 as int, row, k),
        decreases y1 - fy,
    {
        proof {
            lemma_offset_bounds(*f, x0 as int, fy as int, w as int);
        }
        let off = (fy - oy) as usize * f.stride + (x0 - ox) as usize * 4;
        let ghost before = out@;
        let ghost row = fy - y0;
        assert(off == retained_offset(*f, x0 as int, (y0 + row) as int));
        if off + need <= f.data.len() {
            let mut k: usize = 0;
            while k < need
                invariant
                    k <= need,
                    off + need <= f.data.len(),
                    out@.len() == before.len() + k,
                    forall|j: int| 0 <= j < before.len() ==> out@[j] == before[j],
                    forall|j: int| 0 <= j < k ==> #[trigger] out@[before.len() + j] == f.data@[off + j],
                decreases need - k,
            {
                out.push(f.data[off + k]);
                k = k + 1;
            }
            proof {
                assert forall|kk: int| 0 <= kk < need implies #[trigger] out@[before.len() + kk] == snapshot_byte(*f, x0 as int, y0 as int, x1 as int, row, kk) by {}
                lemma_row_step(out@, before, *f, x0 as int, y0 as int, x1 as int, row, need as int);
            }
        } else {
            let mut k: usize = 0;
            while k < need
                invariant
                    k <= need,
                    out@.len() == before.len() + k,
                    forall|j: int| 0 <= j < before.len() ==> out@[j] == before[j],
                    forall|j: int| 0 <= j < k ==> #[trigger] out@[before.len() + j] == 0u8,
                decreases need - k,
            {
                out.push(0u8);
                k = k + 1;
            }
            proof {
                assert forall|kk: int| 0 <= kk < need implies #[trigger] out@[before.len() + kk] == snapshot_byte(*f, x0 as int, y0 as int, x1 as int, row, kk) by {}
                lemma_row_step(out@, before, *f, x0 as int, y0 as int, x1 as int, row, need as int);
            }
        }
        fy = fy + 1;
    }
    proof {
        assert(h * (4 * w) == 4 * w * h) by (nonlinear_arith);
        assert(w <= f.w);
    }
    (out, w as u32, h as u32)
}

/// The red, green and blue bytes of frame pixel `(fx, fy)` in the retained
/// buffer, when the buffer holds that pixel.
pub open spec fn spec_retained_pixel(f: RetainedFrame, fx: int, fy: int) -> Option<(u8, u8, u8)> {
    let off = retained_offset(f, fx, fy);
    let (ro, go, bo) = spec_channel_offsets(f.fmt);
    if !f.has_data() || fx < f.origin_x || fx >= f.origin_x + f.w || fy < f.origin_y || fy >= f.origin_y + f.h {
        None
    } else if off + 4 > f.data.len() {
        None
    } else {
        Some((f.data@[off + ro], f.data@[off + go], f.data@[off + bo]))
    }
}

/// Reads one pixel, given in frame coordinates, out of the retained buffer;
/// `None` when the buffer has no data for it.
pub fn retained_pixel(f: &RetainedFrame, fx: i64, fy: i64) -> (r: Option<(u8, u8, u8)>)
    requires
        f.fits(),
    ensures
        r == spec_retained_pixel(*f, fx as int, fy as int),
{
    if f.w == 0 || f.h == 0 {
        return None;
    }
    let ox = f.origin_x as i64;
    let oy = f.origin_y as i64;
    if fx < ox || fx >= ox + f.w as i64 || fy < oy || fy >= oy + f.h as i64 {
        return None;
    }
    proof {
        lemma_offset_bounds(*f, fx as int, fy as int, 1);
    }
    let off = (fy - oy) as usize * f.stride + (fx - ox) as usize * 4;
    if off + 4 > f.data.len() {
        return None;
    }
    let (ro, go, bo) = channel_offsets(f.fmt);
    Some((f.data[off + ro as usize], f.data[off + go as usize], f.data[off + bo as usize]))
}

/// A pending capture request as the frame sees it: whether it asks for the
/// whole output, and its rectangle in frame pixels (`None` while the
/// output's geometry is unknown).
pub struct PendingRegion {
    pub full: bool,
    pub rect: Option<(i64, i64, i64, i64)>,
}

/// Some pending request asks for the whole output.
pub open spec fn any_full(p: Seq<PendingRegion>) -> bool {
    exists|i: int| 0 <= i < p.len() && #[trigger] p[i].full
}

/// The visible part of one pending request, if it has any.
pub open spec fn visible_part(q: PendingRegion, fw: u32, fh: u32) -> Option<(i64, i64, i64, i64)> {
    match q.rect {
        Some(r) => spec_visible_rect(r, fw, fh),
        None => None,
    }
}

pub open spec fn min_i64(a: i64, b: i64) -> i64 {
    if a <= b {
        a
    } else {
        b
    }
}

pub open spec fn max_i64(a: i64, b: i64) -> i64 {
    if a >= b {
        a
    } else {
        b
    }
}

/// The bounding box of the visible parts of the pending requests, when any
/// of them has one.
pub open spec fn union_box(p: Seq<PendingRegion>, fw: u32, fh: u32) -> Option<(i64, i64, i64, i64)>
    decreases p.len(),
{
    if p.len() == 0 {
        None
    } else {
        let prev = union_box(p.drop_last(), fw, fh);
        match visible_part(p.last(), fw, fh) {
            None => prev,
            Some(v) => match prev {
                None => Some(v),
                Some(b) => Some((min_i64(b.0, v.0), min_i64(b.1, v.1), max_i64(b.2, v.2), max_i64(b.3, v.3))),
            },
        }
    }
}

/// The frame area `(x, y, w, h)` to read back for the pending requests;
/// `None` means the whole frame.
pub open spec fn spec_request_union(p: Seq<PendingRegion>, fw: u32, fh: u32) -> Option<(u32, u32, u32, u32)> {
    if any_full(p) {
        None
    } else {
        match union_box(p, fw, fh) {
            None => None,
            Some(b) => Some((b.0 as u32, b.1 as u32, (b.2 - b.0) as u32, (b.3 - b.1) as u32)),
        }
    }
}

/// A box inside the `fw` x `fh` frame with positive area.
pub open spec fn in_frame(b: (i64, i64, i64, i64), fw: u32, fh: u32) -> bool {
    0 <= b.0 < b.2 <= fw && 0 <= b.1 < b.3 <= fh
}

/// `inner` lies inside `outer`.
pub open spec fn within(inner: (i64, i64, i64, i64), outer: (i64, i64, i64, i64)) -> bool {
    outer.0 <= inner.0 && outer.1 <= inner.1 && inner.2 <= outer.2 && inner.3 <= outer.3
}

/// The union box lies inside the frame, holds the visible part of every
/// pending request, and exists exactly when some request has a visible part.
pub proof fn lemma_union_box_covers(p: Seq<PendingRegion>, fw: u32, fh: u32)
    ensures
        union_box(p, fw, fh) is Some <==> exists|i: int| 0 <= i < p.len() && #[trigger] visible_part(p[i], fw, fh) is Some,
        union_box(p, fw, fh) matches Some(b) ==> in_frame(b, fw, fh) && forall|i: int|
            0 <= i < p.len() ==> (#[trigger] visible_part(p[i], fw, fh) matches Some(v) ==> within(v, b)),
    decreases p.len(),
{
    if p.len() > 0 {
        let q = p.drop_last();
        lemma_union_box_covers(q, fw, fh);
        assert forall|i: int| 0 <= i < q.len() implies #[trigger] q[i] == p[i] by {}
        if let Some(v) = visible_part(p.last(), fw, fh) {
            assert(visible_part(p[p.len() - 1], fw, fh) is Some);
        }
        if exists|i: int| 0 <= i < q.len() && #[trigger] visible_part(q[i], fw, fh) is Some {
            let i = choose|i: int| 0 <= i < q.len() && #[trigger] visible_part(q[i], fw, fh) is Some;
            assert(visible_part(p[i], fw, fh) is Some);
        }
        if exists|i: int| 0 <= i < p.len() && #[trigger] visible_part(p[i], fw, fh) is Some {
            let i = choose|i: int| 0 <= i < p.len() && #[trigger] visible_part(p[i], fw, fh) is Some;
            if i < q.len() {
                assert(visible_part(q[i], fw, fh) is Some);
            }
        }
        if let Some(b) = union_box(p, fw, fh) {
            assert forall|i: int| 0 <= i < p.len() implies (#[trigger] visible_part(p[i], fw, fh) matches Some(v) ==> within(v, b)) by {
                if i < q.len() {
                    assert(q[i] == p[i]);
                }
            }
        }
    }
}

/// The frame area to read back for the pending requests: the bounding box of
/// their visible parts, or `None` (the whole frame) when one asks for the
/// whole output or none has a visible part.
pub fn request_union(pending: &Vec<PendingRegion>, fw: u32, fh: u32) -> (r: Option<(u32, u32, u32, u32)>)
    ensures
        r == spec_request_union(pending@, fw, fh),
{
    let mut x0: i64 = fw as i64;
    let mut y0: i64 = fh as i64;
    let mut x1: i64 = 0;
    let mut y1: i64 = 0;
    let mut valid = false;
    let mut i: usize = 0;
    while i < pending.len()
        invariant
            i <= pending@.len(),
            !any_full(pending@.take(i as int)),
            valid <==> union_box(pending@.take(i as int), fw, fh) is Some,
            valid ==> union_box(pending@.take(i as int), fw, fh) == Some((x0, y0, x1, y1)),
            !valid ==> x0 == fw && y0 == fh && x1 == 0 && y1 == 0,
        decreases pending@.len() - i,
    {
        let ghost t = pending@.take(i as int);
        let ghost t1 = pending@.take(i + 1);
        proof {
            assert(t1.drop_last() =~= t);
            assert(t1.last() == pending@[i as int]);
        }
        let req = &pending[i];
        if req.full {
            proof {
                assert(pending@[i as int].full);
            }
            return None;
        }
        match req.rect {
            Some(rect) => {
                match visible_region_rect(rect, fw, fh) {
                    Some(v) => {
                        valid = true;
                        if v.0 < x0 {
                            x0 = v.0;
                        }
                        if v.1 < y0 {
                            y0 = v.1;
                        }
                        if v.2 > x1 {
                            x1 = v.2;
                        }
                        if v.3 > y1 {
                            y1 = v.3;
                        }
                    },
                    None => {},
                }
            },
            None => {},
        }
        proof {
            assert forall|j: int| 0 <= j < t1.len() implies !(#[trigger] t1[j].full) by {
                if j < t.len() {
                    assert(t1[j] == t[j]);
                }
            }
        }
        i = i + 1;
    }
    proof {
        assert(pending@.take(pending@.len() as int) =~= pending@);
        lemma_union_box_covers(pending@, fw, fh);
    }
    if !valid {
        return None;
    }
    Some((x0 as u32, y0 as u32, (x1 - x0) as u32, (y1 - y0) as u32))
}

/// Whether a request can be answered from the retained buffer: a whole-output
/// request when the buffer holds the whole frame, a region when the buffer
/// holds it or when it has no area at all.
pub open spec fn spec_request_coverable(
    frame: Option<(u32, u32)>,
    f: RetainedFrame,
    full: bool,
    rect: Option<(i64, i64, i64, i64)>,
) -> bool {
    match frame {
        None => false,
        Some((fw, fh)) => {
            if !f.has_data() {
                false
            } else if full {
                f.w == fw && f.h == fh
            } else {
                match rect {
                    None => false,
                    Some(r) => {
                        if r.2 <= r.0 || r.3 <= r.1 {
                            true
                        } else {
                            r.0 >= f.origin_x && r.2 <= f.origin_x + f.w && r.1 >= f.origin_y && r.3 <= f.origin_y + f.h
                        }
                    },
                }
            }
        },
    }
}

/// Whether the retained buffer can answer a request; `frame` is the size of
/// the stream's frames and `rect` the request's rectangle in frame pixels.
pub fn request_coverable(frame: Option<(u32, u32)>, f: &RetainedFrame, full: bool, rect: Option<(i64, i64, i64, i64)>) -> (r: bool)
    ensures
        r == spec_request_coverable(frame, *f, full, rect),
{
    let (fw, fh) = match frame {
        Some(fr) => fr,
        None => {
            return false;
        },
    };
    if f.w == 0 || f.h == 0 {
        return false;
    }
    if full {
        return f.w == fw && f.h == fh;
    }
    let (x0, y0, x1, y1) = match rect {
        Some(r) => r,
        None => {
            return false;
        },
    };
    if x1 <= x0 || y1 <= y0 {
        return true;
    }
    let ox = f.origin_x as i64;
    let oy = f.origin_y as i64;
    x0 >= ox && x1 <= ox + f.w as i64 && y0 >= oy && y1 <= oy + f.h as i64
}

/// The box `(x, y, w, h)` of the retained buffer that answers a request; the
/// request's rectangle is clipped to the buffer and an empty clip gives an
/// empty box. `None` when the request's rectangle is unknown.
pub open spec fn spec_serve_box(f: RetainedFrame, full: bool, rect: Option<(i64, i64, i64, i64)>) -> Option<(u32, u32, u32, u32)> {
    if full {
        Some((0u32, 0u32, f.w, f.h))
    } else {
        match rect {
            None => None,
            Some(r) => {
                let x0 = clamp(r.0 - f.origin_x, 0, f.w as int);
                let x1 = clamp(r.2 - f.origin_x, 0, f.w as int);
                let y0 = clamp(r.1 - f.origin_y, 0, f.h as int);
                let y1 = clamp(r.3 - f.origin_y, 0, f.h as int);
                if x1 <= x0 || y1 <= y0 {
                    Some((0u32, 0u32, 0u32, 0u32))
                } else {
                    Some((x0 as u32, y0 as u32, (x1 - x0) as u32, (y1 - y0) as u32))
                }
            },
        }
    }
}

fn clamp_wide(v: i128, hi: u32) -> (r: i128)
    ensures
        r == clamp(v as int, 0, hi as int),
{
    if v < 0 {
        0
    } else if v > hi as i128 {
        hi as i128
    } else {
        v
    }
}

/// The box of the retained buffer that answers a request.
pub fn serve_box(f: &RetainedFrame, full: bool, rect: Option<(i64, i64, i64, i64)>) -> (r: Option<(u32, u32, u32, u32)>)
    ensures
        r == spec_serve_box(*f, full, rect),
        r matches Some(b) ==> b.0 + b.2 <= f.w && b.1 + b.3 <= f.h,
{
    if full {
        return Some((0, 0, f.w, f.h));
    }
    let rr = match rect {
        Some(r) => r,
        None => {
            return None;
        },
    };
    let ox = f.origin_x as i128;
    let oy = f.origin_y as i128;
    let x0 = clamp_wide(rr.0 as i128 - ox, f.w);
    let x1 = clamp_wide(rr.2 as i128 - ox, f.w);
    let y0 = clamp_wide(rr.1 as i128 - oy, f.h);
    let y1 = clamp_wide(rr.3 as i128 - oy, f.h);
    if x1 <= x0 || y1 <= y0 {
        Some((0, 0, 0, 0))
    } else {
        Some((x0 as u32, y0 as u32, (x1 - x0) as u32, (y1 - y0) as u32))
    }
}

/// A capture request as the frame sees it: whole output or a rectangle in
/// frame pixels (`None` while the output's geometry is unknown), in color
/// (RGBA) or as luma.
pub struct ServeRequest {
    pub full: bool,
    pub color: bool,
    pub rect: Option<(i64, i64, i64, i64)>,
}

/// An image cut out of the retained buffer: `w` x `h` pixels, four RGBA bytes
/// each when `color`, else one luma byte each.
#[derive(Debug)]
pub struct ServedImage {
    pub w: u32,
    pub h: u32,
    pub color: bool,
    pub pixels: Vec<u8>,
}

/// `img` is the answer to `req` from the retained buffer: the request's box
/// converted pixel by pixel; rows past the end of the buffer stay zero.
pub open spec fn serves(f: RetainedFrame, req: ServeRequest, img: ServedImage) -> bool {
    match spec_serve_box(f, req.full, req.rect) {
        None => false,
        Some(b) => {
            let (ro, go, bo) = spec_channel_offsets(f.fmt);
            &&& img.w == b.2
            &&& img.h == b.3
            &&& img.color == req.color
            &&& if req.color {
                &&& img.pixels@.len() == 4 * b.2 * b.3
                &&& forall|row: int, c: int, k: int|
                    0 <= row < b.3 && 0 <= c < b.2 && 0 <= k < 4 ==> #[trigger] img.pixels@[4 * (row * b.2 + c) + k] == (if row_in_frame(
                        f.data.len() as int,
                        f.stride,
                        b.0,
                        b.1,
                        b.2,
                        row,
                    ) {
                        rgba_byte(f.data@, f.stride, f.fmt, b.0, b.1, row, c, k)
                    } else {
                        0u8
                    })
            } else {
                &&& img.pixels@.len() == b.2 * b.3
                &&& forall|row: int, c: int|
                    0 <= row < b.3 && 0 <= c < b.2 ==> #[trigger] img.pixels@[row * b.2 + c] == (if row_in_frame(
                        f.data.len() as int,
                        f.stride,
                        b.0,
                        b.1,
                        b.2,
                        row,
                    ) {
                        pixel_luma(f.data@, row_offset(f.stride, b.0, b.1, row) + 4 * c, ro, go, bo)
                    } else {
                        0u8
                    })
            }
        },
    }
}

proof fn lemma_box_fits(f: RetainedFrame, b: (u32, u32, u32, u32))
    requires
        f.fits(),
        b.0 + b.2 <= f.w,
        b.1 + b.3 <= f.h,
    ensures
        region_fits(f.stride, b.0, b.1, b.2, b.3),
        4 * b.2 * b.3 <= usize::MAX,
{
    assert((b.1 + b.3) * f.stride <= f.h * f.stride) by (nonlinear_arith)
        requires
            b.1 + b.3 <= f.h,
    ;
    assert(b.2 * b.3 <= f.w * f.h) by (nonlinear_arith)
        requires
            b.2 <= f.w,
            b.3 <= f.h,
    ;
    assert(4 * b.2 * b.3 <= 4 * f.w * f.h) by (nonlinear_arith)
        requires
            b.2 * b.3 <= f.w * f.h,
    ;
    assert(b.2 * b.3 <= 4 * b.2 * b.3) by (nonlinear_arith);
    assert(b.0 * 4 + 4 * b.2 <= 4 * f.w);
}

fn zero_bytes(n: usize) -> (v: Vec<u8>)
    ensures
        v@.len() == n,
        forall|i: int| 0 <= i < n ==> #[trigger] v@[i] == 0u8,
{
    let mut v: Vec<u8> = Vec::new();
    let mut i: usize = 0;
    while i < n
        invariant
            i <= n,
            v@.len() == i,
            forall|j: int| 0 <= j < i ==> #[trigger] v@[j] == 0u8,
        decreases n - i,
    {
        v.push(0u8);
        i = i + 1;
    }
    v
}

/// Answers one request from the retained buffer; `None` when the request's
/// rectangle is unknown, and it then gets no answer.
pub fn serve_one(f: &RetainedFrame, req: &ServeRequest) -> (r: Option<ServedImage>)
    requires
        f.fits(),
    ensures
        r is None <==> spec_serve_box(*f, req.full, req.rect) is None,
        r matches Some(img) ==> serves(*f, *req, img),
{
    let b = match serve_box(f, req.full, req.rect) {
        Some(b) => b,
        None => {
            return None;
        },
    };
    proof {
        lemma_box_fits(*f, b);
    }
    if req.color {
        let n = 4 * (b.2 as usize) * (b.3 as usize);
        let mut px = zero_bytes(n);
        let ghost zeros = px@;
        copy_region_rgba(&f.data, f.stride, f.fmt, b.0, b.1, b.2, b.3, &mut px);
        let img = ServedImage { w: b.2, h: b.3, color: true, pixels: px };
        proof {
            assert forall|row: int, c: int, k: int| 0 <= row < b.3 && 0 <= c < b.2 && 0 <= k < 4 implies #[trigger] img.pixels@[4 * (row * b.2 + c) + k] == (if row_in_frame(f.data.len() as int, f.stride, b.0, b.1, b.2, row) {
                rgba_byte(f.data@, f.stride, f.fmt, b.0, b.1, row, c, k)
            } else {
                0u8
            }) by {
                assert(0 <= 4 * (row * b.2 + c) + k < 4 * b.2 * b.3) by (nonlinear_arith)
                    requires
                        0 <= row < b.3,
                        0 <= c < b.2,
                        0 <= k < 4,
                ;
                assert(zeros[4 * (row * b.2 + c) + k] == 0u8);
            }
        }
        Some(img)
    } else {
        proof {
            assert(b.2 * b.3 <= 4 * b.2 * b.3) by (nonlinear_arith);
        }
        let n = (b.2 as usize) * (b.3 as usize);
        let mut px = zero_bytes(n);
        let ghost zeros = px@;
        convert_region(&f.data, f.stride, f.fmt, b.0, b.1, b.2, b.3, &mut px);
        let img = ServedImage { w: b.2, h: b.3, color: false, pixels: px };
        proof {
            let (ro, go, bo) = spec_channel_offsets(f.fmt);
            assert forall|row: int, c: int| 0 <= row < b.3 && 0 <= c < b.2 implies #[trigger] img.pixels@[row * b.2 + c] == (if row_in_frame(f.data.len() as int, f.stride, b.0, b.1, b.2, row) {
                pixel_luma(f.data@, row_offset(f.stride, b.0, b.1, row) + 4 * c, ro, go, bo)
            } else {
                0u8
            }) by {
                assert(0 <= row * b.2 + c < b.2 * b.3) by (nonlinear_arith)
                    requires
                        0 <= row < b.3,
                        0 <= c < b.2,
                ;
                assert(zeros[row * b.2 + c] == 0u8);
            }
        }
        Some(img)
    }
}

/// The answer given to every request while the retained buffer is empty.
pub open spec fn no_frame_message() -> Seq<char> {
    "no frame data available"@
}

/// Answers a batch of requests from the retained buffer: each gets its
/// image, or an error when the buffer holds no data; a request whose
/// rectangle is unknown gets no answer (`None`).
pub fn serve_requests(f: &RetainedFrame, requests: &Vec<ServeRequest>) -> (r: Vec<Option<Result<ServedImage, String>>>)
    requires
        f.fits(),
    ensures
        r@.len() == requests@.len(),
        forall|i: int|
            0 <= i < r@.len() ==> if !f.has_data() {
                #[trigger] r@[i] matches Some(Err(e)) && e@ == no_frame_message()
            } else {
                &&& (r@[i] is None <==> spec_serve_box(*f, requests@[i].full, requests@[i].rect) is None)
                &&& (r@[i] matches Some(x) ==> x matches Ok(img) && serves(*f, requests@[i], img))
            },
{
    let mut out: Vec<Option<Result<ServedImage, String>>> = Vec::new();
    let empty = f.w == 0 || f.h == 0;
    let mut i: usize = 0;
    while i < requests.len()
        invariant
            f.fits(),
            empty == !f.has_data(),
            i <= requests@.len(),
            out@.len() == i,
            forall|j: int|
                0 <= j < i ==> if !f.has_data() {
                    #[trigger] out@[j] matches Some(Err(e)) && e@ == no_frame_message()
                } else {
                    &&& (out@[j] is None <==> spec_serve_box(*f, requests@[j].full, requests@[j].rect) is None)
                    &&& (out@[j] matches Some(x) ==> x matches Ok(img) && serves(*f, requests@[j], img))
                },
        decreases requests@.len() - i,
    {
        if empty {
            out.push(Some(Err(String::from_str("no frame data available"))));
        } else {
            match serve_one(f, &requests[i]) {
                Some(img) => out.push(Some(Ok(img))),
                None => out.push(None),
            }
        }
        i = i + 1;
    }
    out
}

/// The retained rectangle `v` copied out row by row, as `retained_snapshot`
/// gives it.
pub open spec fn spec_snapshot(f: RetainedFrame, v: (i64, i64, i64, i64)) -> Seq<u8> {
    let n = 4 * (v.2 - v.0);
    Seq::new((n * (v.3 - v.1)) as nat, |i: int| snapshot_byte(f, v.0 as int, v.1 as int, v.2 as int, i / n, i % n))
}

proof fn lemma_split_index(i: int, d: int, h: int)
    requires
        d > 0,
        0 <= i < d * h,
    ensures
        0 <= i / d < h,
        0 <= i % d < d,
        (i / d) * d + i % d == i,
{
    vstd::arithmetic::div_mod::lemma_fundamental_div_mod(i, d);
    assert(0 <= i % d < d);
    assert((i / d) * d == d * (i / d)) by (nonlinear_arith);
    assert(0 <= i / d < h) by (nonlinear_arith)
        requires
            i == d * (i / d) + i % d,
            0 <= i % d < d,
            0 <= i < d * h,
            d > 0,
    ;
}

/// What a color-region scan of the retained buffer came to.
#[derive(Debug)]
pub enum RetainedScan {
    /// The scan ran: the largest fitting region, in pixels of the scanned
    /// snapshot, with the frame position `(x, y)` where the snapshot starts.
    Done(Option<(i64, i64, ColorRegion)>),
    /// The retained buffer was stale or did not hold the whole region.
    Refresh,
}

pub open spec fn found_region(found: Option<(i64, i64, ColorRegion)>) -> Option<ColorRegion> {
    match found {
        Some(x) => Some(x.2),
        None => None,
    }
}

/// The outcome owed by a scan of the retained buffer for the region `rect`
/// (frame pixels) of a `frame`-sized stream: a stale buffer, when freshness
/// is required, or one that does not hold the visible part of the region
/// asks for a refresh; a region with no visible part finds nothing; else
/// the largest fitting region of the visible part, as `largest_color_region`
/// finds it in the snapshot.
pub open spec fn scan_outcome(
    f: RetainedFrame,
    frame: Option<(u32, u32)>,
    rect: Option<(i64, i64, i64, i64)>,
    fresh: bool,
    require_fresh: bool,
    r: u8,
    g: u8,
    b: u8,
    limit: i64,
    min_width: u32,
    min_height: u32,
    res: RetainedScan,
) -> bool {
    if require_fresh && !fresh {
        res is Refresh
    } else {
        match (frame, rect) {
            (Some(fr), Some(rc)) => match spec_visible_rect(rc, fr.0, fr.1) {
                None => res == RetainedScan::Done(None),
                Some(v) => if !spec_covered(f, v.0 as int, v.1 as int, v.2 as int, v.3 as int) {
                    res is Refresh
                } else {
                    &&& res matches RetainedScan::Done(found)
                    &&& found matches Some(x) ==> x.0 == v.0 && x.1 == v.1
                    &&& largest_patch(
                        color_scan(
                            spec_snapshot(f, v),
                            (4 * (v.2 - v.0)) as usize,
                            (v.2 - v.0) as u32,
                            (v.3 - v.1) as u32,
                            f.fmt,
                            r,
                            g,
                            b,
                            limit,
                        ),
                        min_width as int,
                        min_height as int,
                        found_region(found),
                    )
                },
            },
            _ => res == RetainedScan::Done(None),
        }
    }
}

/// Scans the retained buffer for the largest region of pixels that match
/// `(r, g, b)` within `limit` (see `is_color_match`) inside `rect`, without
/// a new frame: only when the buffer is fresh enough (if asked) and holds
/// the rectangle's visible part.
pub fn scan_retained(
    f: &RetainedFrame,
    frame: Option<(u32, u32)>,
    rect: Option<(i64, i64, i64, i64)>,
    fresh: bool,
    require_fresh: bool,
    r: u8,
    g: u8,
    b: u8,
    limit: i64,
    min_width: u32,
    min_height: u32,
) -> (res: RetainedScan)
    requires
        f.fits(),
    ensures
        scan_outcome(*f, frame, rect, fresh, require_fresh, r, g, b, limit, min_width, min_height, res),
{
    if require_fresh && !fresh {
        return RetainedScan::Refresh;
    }
    let (fw, fh) = match frame {
        Some(fr) => fr,
        None => {
            return RetainedScan::Done(None);
        },
    };
    let rc = match rect {
        Some(rc) => rc,
        None => {
            return RetainedScan::Done(None);
        },
    };
    let v = match visible_region_rect(rc, fw, fh) {
        Some(v) => v,
        None => {
            return RetainedScan::Done(None);
        },
    };
    if !retained_rect_covered(f, v.0, v.1, v.2, v.3) {
        return RetainedScan::Refresh;
    }
    let (snap, sw, sh) = retained_snapshot(f, v.0, v.1, v.2, v.3);
    proof {
        let n = 4 * (v.2 - v.0);
        assert(n > 0);
        assert(snap@.len() == n * (v.3 - v.1)) by (nonlinear_arith)
            requires
                snap@.len() == 4 * sw * sh,
                sw == v.2 - v.0,
                sh == v.3 - v.1,
                n == 4 * (v.2 - v.0),
        ;
        assert forall|i: int| 0 <= i < snap@.len() implies #[trigger] snap@[i] == spec_snapshot(*f, v)[i] by {
            lemma_split_index(i, n, v.3 - v.1);
            let row = i / n;
            let k = i % n;
            assert(row * (4 * sw) + k == i);
        }
        assert(snap@ =~= spec_snapshot(*f, v));
        assert(sw as int * sh as int <= 4 * f.w * f.h) by (nonlinear_arith)
            requires
                sw <= f.w,
                sh <= f.h,
        ;
    }
    let stride = sw as usize * 4;
    match largest_color_region(&snap, stride, sw, sh, f.fmt, r, g, b, limit, min_width, min_height) {
        Some(reg) => RetainedScan::Done(Some((v.0, v.1, reg))),
        None => RetainedScan::Done(None),
    }
}

/// A request that the retained buffer can cover is served whole: a region
/// with area gets exactly its own rectangle, moved to the buffer's origin,
/// and a whole-output request gets the whole frame.
pub proof fn lemma_coverable_served_whole(
    fr: (u32, u32),
    f: RetainedFrame,
    full: bool,
    rect: Option<(i64, i64, i64, i64)>,
)
    requires
        spec_request_coverable(Some(fr), f, full, rect),
    ensures
        full ==> spec_serve_box(f, full, rect) == Some((0u32, 0u32, fr.0, fr.1)),
        !full ==> match rect {
            Some(r) => r.0 < r.2 && r.1 < r.3 ==> spec_serve_box(f, full, rect) == Some(
                ((r.0 - f.origin_x) as u32, (r.1 - f.origin_y) as u32, (r.2 - r.0) as u32, (r.3 - r.1) as u32),
            ),
            None => true,
        },
{
}

} // verus!
