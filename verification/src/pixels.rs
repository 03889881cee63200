//! Captured frames: channel layouts, Rec.601 luma, RGBA copies and color matching.
use vstd::prelude::*;

verus! {

/// The in-memory byte order of a captured 4-byte pixel.
#[derive(Debug, Clone, Copy, PartialEq, Eq, Structural)]
pub enum PixelFormat {
    Bgra,
    Bgrx,
    Rgba,
    Rgbx,
    Argb,
    Abgr,
}

pub open spec fn spec_channel_offsets(fmt: PixelFormat) -> (u32, u32, u32) {
    match fmt {
        PixelFormat::Bgra | PixelFormat::Bgrx => (2, 1, 0),
        PixelFormat::Rgba | PixelFormat::Rgbx => (0, 1, 2),
        PixelFormat::Argb => (1, 2, 3),
        PixelFormat::Abgr => (3, 2, 1),
    }
}

/// Byte index of the red, green and blue channel inside a pixel.
pub fn channel_offsets(fmt: PixelFormat) -> (r: (u32, u32, u32))
    ensures
        r == spec_channel_offsets(fmt),
        r.0 < 4 && r.1 < 4 && r.2 < 4,
{
    match fmt {
        PixelFormat::Bgra | PixelFormat::Bgrx => (2, 1, 0),
        PixelFormat::Rgba | PixelFormat::Rgbx => (0, 1, 2),
        PixelFormat::Argb => (1, 2, 3),
        PixelFormat::Abgr => (3, 2, 1),
    }
}

/// Rec.601 luma of a pixel's channels, in integer weights out of 256.
pub open spec fn luma(r: u8, g: u8, b: u8) -> u8 {
    ((r as int * 77 + g as int * 150 + b as int * 29) / 256) as u8
}

/// The red, green and blue bytes of every layout are three different bytes
/// of the pixel; a layout that stores blue first is the mirror of the one
/// that stores red first, and a layout led by alpha is the other one moved
/// up by a byte.
pub proof fn lemma_channel_offsets_laws(fmt: PixelFormat)
    ensures
        spec_channel_offsets(fmt).0 != spec_channel_offsets(fmt).1,
        spec_channel_offsets(fmt).1 != spec_channel_offsets(fmt).2,
        spec_channel_offsets(fmt).0 != spec_channel_offsets(fmt).2,
        spec_channel_offsets(PixelFormat::Bgra) == spec_channel_offsets(PixelFormat::Bgrx),
        spec_channel_offsets(PixelFormat::Rgba) == spec_channel_offsets(PixelFormat::Rgbx),
        spec_channel_offsets(PixelFormat::Rgba).0 == 0,
        spec_channel_offsets(PixelFormat::Bgra).0 == spec_channel_offsets(PixelFormat::Rgba).2,
        spec_channel_offsets(PixelFormat::Bgra).1 == spec_channel_offsets(PixelFormat::Rgba).1,
        spec_channel_offsets(PixelFormat::Bgra).2 == spec_channel_offsets(PixelFormat::Rgba).0,
        spec_channel_offsets(PixelFormat::Argb).0 == spec_channel_offsets(PixelFormat::Rgba).0 + 1,
        spec_channel_offsets(PixelFormat::Argb).1 == spec_channel_offsets(PixelFormat::Rgba).1 + 1,
        spec_channel_offsets(PixelFormat::Argb).2 == spec_channel_offsets(PixelFormat::Rgba).2 + 1,
        spec_channel_offsets(PixelFormat::Abgr).0 == spec_channel_offsets(PixelFormat::Bgra).0 + 1,
        spec_channel_offsets(PixelFormat::Abgr).1 == spec_channel_offsets(PixelFormat::Bgra).1 + 1,
        spec_channel_offsets(PixelFormat::Abgr).2 == spec_channel_offsets(PixelFormat::Bgra).2 + 1,
{
}

/// The luma of a grey is that grey, since the weights add up to the whole;
/// a brighter channel never gives a darker luma.
pub proof fn lemma_luma_laws(v: u8, r: u8, g: u8, b: u8, r2: u8, g2: u8, b2: u8)
    requires
        r <= r2,
        g <= g2,
        b <= b2,
    ensures
        luma(v, v, v) == v,
        luma(r, g, b) <= luma(r2, g2, b2),
        luma(r, g, b) <= 255,
{
    assert((v as int * 77 + v as int * 150 + v as int * 29) / 256 == v as int) by (nonlinear_arith);
    assert((r as int * 77 + g as int * 150 + b as int * 29) / 256 <= (r2 as int * 77 + g2 as int * 150 + b2 as int * 29)
        / 256) by (nonlinear_arith)
        requires
            r <= r2,
            g <= g2,
            b <= b2,
    {
    }
    assert(0 <= (r2 as int * 77 + g2 as int * 150 + b2 as int * 29) / 256 <= 255) by (nonlinear_arith)
        requires
            r2 <= 255,
            g2 <= 255,
            b2 <= 255,
    {
    }
    assert(0 <= (r as int * 77 + g as int * 150 + b as int * 29) / 256 <= 255) by (nonlinear_arith)
        requires
            r <= 255,
            g <= 255,
            b <= 255,
    {
    }
}

/// The pixel word made of four little-endian bytes.
pub open spec fn word_of(b0: u8, b1: u8, b2: u8, b3: u8) -> u32 {
    (b0 as u32) | ((b1 as u32) << 8u32) | ((b2 as u32) << 16u32) | ((b3 as u32) << 24u32)
}

/// Byte `k` of a little-endian pixel word.
pub open spec fn word_byte(px: u32, k: u32) -> u8 {
    ((px >> (k * 8)) & 0xff) as u8
}

proof fn lemma_word_bytes(b0: u8, b1: u8, b2: u8, b3: u8)
    ensures
        word_byte(word_of(b0, b1, b2, b3), 0) == b0,
        word_byte(word_of(b0, b1, b2, b3), 1) == b1,
        word_byte(word_of(b0, b1, b2, b3), 2) == b2,
        word_byte(word_of(b0, b1, b2, b3), 3) == b3,
{
    let w = word_of(b0, b1, b2, b3);
    assert(((w >> 0u32) & 0xff) as u8 == b0) by (bit_vector)
        requires
            w == (b0 as u32) | ((b1 as u32) << 8u32) | ((b2 as u32) << 16u32) | ((b3 as u32) << 24u32),
    {
    }
    assert(((w >> 8u32) & 0xff) as u8 == b1) by (bit_vector)
        requires
            w == (b0 as u32) | ((b1 as u32) << 8u32) | ((b2 as u32) << 16u32) | ((b3 as u32) << 24u32),
    {
    }
    assert(((w >> 16u32) & 0xff) as u8 == b2) by (bit_vector)
        requires
            w == (b0 as u32) | ((b1 as u32) << 8u32) | ((b2 as u32) << 16u32) | ((b3 as u32) << 24u32),
    {
    }
    assert(((w >> 24u32) & 0xff) as u8 == b3) by (bit_vector)
        requires
            w == (b0 as u32) | ((b1 as u32) << 8u32) | ((b2 as u32) << 16u32) | ((b3 as u32) << 24u32),
    {
    }
}

proof fn lemma_byte_fits(px: u32, k: u32)
    requires
        k < 4,
    ensures
        ((px >> (k * 8)) & 0xff) < 256,
        ((px >> (k * 8)) & 0xff) as u8 == word_byte(px, k),
{
    assert(((px >> (k * 8)) & 0xff) < 256) by (bit_vector)
        requires
            k < 4,
    {
    }
}

/// The luma of a pixel word, its channels at byte offsets `ro`, `go`, `bo`.
pub fn luma_word(px: u32, ro: u32, go: u32, bo: u32) -> (y: u8)
    requires
        ro < 4,
        go < 4,
        bo < 4,
    ensures
        y == luma(word_byte(px, ro), word_byte(px, go), word_byte(px, bo)),
{
    proof {
        lemma_byte_fits(px, ro);
        lemma_byte_fits(px, go);
        lemma_byte_fits(px, bo);
    }
    let r = (px >> (ro * 8)) & 0xff;
    let g = (px >> (go * 8)) & 0xff;
    let b = (px >> (bo * 8)) & 0xff;
    let sum = r * 77 + g * 150 + b * 29;
    assert(sum >> 8 == sum / 256) by (bit_vector)
        requires
            sum < 0x1_0000_0000,
    {
    }
    (sum >> 8) as u8
}

/// The pixel at byte `p` of `src`: the channel at offset `k`.
pub open spec fn channel(src: Seq<u8>, p: int, k: u32) -> u8 {
    src[p + k]
}

fn load_word(src: &Vec<u8>, p: usize) -> (w: u32)
    requires
        p + 4 <= src.len(),
    ensures
        w == word_of(src@[p as int], src@[p + 1], src@[p + 2], src@[p + 3]),
{
    (src[p] as u32) | ((src[p + 1] as u32) << 8) | ((src[p + 2] as u32) << 16) | ((src[p + 3] as u32) << 24)
}

proof fn lemma_channel_of_word(src: Seq<u8>, p: int, k: u32)
    requires
        0 <= p,
        p + 4 <= src.len(),
        k < 4,
    ensures
        word_byte(word_of(src[p], src[p + 1], src[p + 2], src[p + 3]), k) == channel(src, p, k),
{
    lemma_word_bytes(src[p], src[p + 1], src[p + 2], src[p + 3]);
}

/// The luma of the pixel at byte `p` of `src`.
pub open spec fn pixel_luma(src: Seq<u8>, p: int, ro: u32, go: u32, bo: u32) -> u8 {
    luma(channel(src, p, ro), channel(src, p, go), channel(src, p, bo))
}

/// Converts one row of `w` pixels starting at byte `src_off` into luma bytes
/// at the start of `out`.
pub fn convert_row(src: &Vec<u8>, src_off: usize, w: u32, out: &mut Vec<u8>, ro: u32, go: u32, bo: u32)
    requires
        src_off + 4 * w <= src.len(),
        w <= old(out).len(),
        ro < 4 && go < 4 && bo < 4,
    ensures
        final(out).len() == old(out).len(),
        forall|c: int| 0 <= c < w ==> #[trigger] final(out)@[c] == pixel_luma(src@, src_off + 4 * c, ro, go, bo),
        forall|c: int| w <= c < old(out).len() ==> #[trigger] final(out)@[c] == old(out)@[c],
{
    let mut col: u32 = 0;
    while col < w
        invariant
            col <= w,
            src_off + 4 * w <= src.len(),
            w <= out.len(),
            out.len() == old(out).len(),
            ro < 4 && go < 4 && bo < 4,
            forall|c: int| 0 <= c < col ==> #[trigger] out@[c] == pixel_luma(src@, src_off + 4 * c, ro, go, bo),
            forall|c: int| col <= c < old(out).len() ==> #[trigger] out@[c] == old(out)@[c],
        decreases w - col,
    {
        let p = src_off + col as usize * 4;
        let px = load_word(src, p);
        proof {
            lemma_channel_of_word(src@, p as int, ro);
            lemma_channel_of_word(src@, p as int, go);
            lemma_channel_of_word(src@, p as int, bo);
        }
        let y = luma_word(px, ro, go, bo);
        out.set(col as usize, y);
        col = col + 1;
    }
}

/// Copies one row of `w` pixels starting at byte `src_off` into RGBA bytes
/// at the start of `out`, alpha set opaque.
pub fn copy_row(src: &Vec<u8>, src_off: usize, w: u32, out: &mut Vec<u8>, ro: u32, go: u32, bo: u32)
    requires
        src_off + 4 * w <= src.len(),
        4 * w <= old(out).len(),
        ro < 4 && go < 4 && bo < 4,
    ensures
        final(out).len() == old(out).len(),
        forall|c: int| 0 <= c < w ==> {
            &&& #[trigger] final(out)@[4 * c] == channel(src@, src_off + 4 * c, ro)
            &&& final(out)@[4 * c + 1] == channel(src@, src_off + 4 * c, go)
            &&& final(out)@[4 * c + 2] == channel(src@, src_off + 4 * c, bo)
            &&& final(out)@[4 * c + 3] == 255
        },
        forall|i: int| 4 * w <= i < old(out).len() ==> #[trigger] final(out)@[i] == old(out)@[i],
{
    let mut col: u32 = 0;
    while col < w
        invariant
            col <= w,
            src_off + 4 * w <= src.len(),
            4 * w <= out.len(),
            out.len() == old(out).len(),
            ro < 4 && go < 4 && bo < 4,
            forall|c: int| 0 <= c < col ==> {
                &&& #[trigger] out@[4 * c] == channel(src@, src_off + 4 * c, ro)
                &&& out@[4 * c + 1] == channel(src@, src_off + 4 * c, go)
                &&& out@[4 * c + 2] == channel(src@, src_off + 4 * c, bo)
                &&& out@[4 * c + 3] == 255
            },
            forall|i: int| 4 * col <= i < old(out).len() ==> #[trigger] out@[i] == old(out)@[i],
        decreases w - col,
    {
        let p = src_off + col as usize * 4;
        let px = load_word(src, p);
        proof {
            lemma_channel_of_word(src@, p as int, ro);
            lemma_channel_of_word(src@, p as int, go);
            lemma_channel_of_word(src@, p as int, bo);
            lemma_byte_fits(px, ro);
            lemma_byte_fits(px, go);
            lemma_byte_fits(px, bo);
        }
        let o = col as usize * 4;
        let ghost before = out@;
        out.set(o, ((px >> (ro * 8)) & 0xff) as u8);
        out.set(o + 1, ((px >> (go * 8)) & 0xff) as u8);
        out.set(o + 2, ((px >> (bo * 8)) & 0xff) as u8);
        out.set(o + 3, 255);
        proof {
            assert forall|c: int| 0 <= c < col + 1 implies {
                &&& #[trigger] out@[4 * c] == channel(src@, src_off + 4 * c, ro)
                &&& out@[4 * c + 1] == channel(src@, src_off + 4 * c, go)
                &&& out@[4 * c + 2] == channel(src@, src_off + 4 * c, bo)
                &&& out@[4 * c + 3] == 255
            } by {
                if c < col {
                    assert(out@[4 * c] == before[4 * c]);
                    assert(out@[4 * c + 1] == before[4 * c + 1]);
                    assert(out@[4 * c + 2] == before[4 * c + 2]);
                    assert(out@[4 * c + 3] == before[4 * c + 3]);
                }
            }
        }
        col = col + 1;
    }
}

/// Byte offset of row `row` of a region at `(x0, y0)` in a frame of `stride` bytes per row.
pub open spec fn row_offset(stride: usize, x0: u32, y0: u32, row: int) -> int {
    (y0 + row) * stride + x0 * 4
}

/// Whether a `w`-pixel row of the region lies inside the frame.
pub open spec fn row_in_frame(src_len: int, stride: usize, x0: u32, y0: u32, w: u32, row: int) -> bool {
    row_offset(stride, x0, y0, row) + 4 * w <= src_len
}

/// The region's offsets fit the machine's integers.
pub open spec fn region_fits(stride: usize, x0: u32, y0: u32, w: u32, h: u32) -> bool {
    &&& y0 + h <= u32::MAX + 1
    &&& row_offset(stride, x0, y0, h as int) + 4 * w <= usize::MAX
    &&& w * h <= usize::MAX
    &&& 4 * w * h <= usize::MAX
}

proof fn lemma_row_offset_grows(stride: usize, x0: u32, y0: u32, a: int, b: int)
    requires
        0 <= a <= b,
    ensures
        row_offset(stride, x0, y0, a) <= row_offset(stride, x0, y0, b),
{
    assert((y0 + a) * stride <= (y0 + b) * stride) by (nonlinear_arith)
        requires
            y0 + a <= y0 + b,
            0 <= stride,
    {
    }
}

proof fn lemma_row_start(w: u32, h: u32, row: int)
    requires
        0 <= row < h,
    ensures
        0 <= row * w,
        row * w + w <= w * h,
{
    assert(row * w + w <= w * h) by (nonlinear_arith)
        requires
            0 <= row < h,
    {
    }
    assert(0 <= row * w) by (nonlinear_arith)
        requires
            0 <= row,
    {
    }
}

proof fn lemma_row_index(w: u32, h: u32, row: int, c: int)
    requires
        0 <= row < h,
        0 <= c < w,
    ensures
        0 <= row * w + c < w * h,
        row * w <= (h - 1) * w,
{
    assert(row * w + c < w * h) by (nonlinear_arith)
        requires
            0 <= row < h,
            0 <= c < w,
    {
    }
    assert(row * w <= (h - 1) * w) by (nonlinear_arith)
        requires
            0 <= row < h,
    {
    }
    assert(0 <= row * w) by (nonlinear_arith)
        requires
            0 <= row,
    {
    }
}

/// Converts the region `(x0, y0, w, h)` of a frame into luma bytes, row
/// after row into `dst`; rows that lie past the end of the frame are left
/// as they were.
pub fn convert_region(src: &Vec<u8>, stride: usize, fmt: PixelFormat, x0: u32, y0: u32, w: u32, h: u32, dst: &mut Vec<u8>)
    requires
        old(dst).len() == w * h,
        region_fits(stride, x0, y0, w, h),
    ensures
        final(dst).len() == old(dst).len(),
        forall|row: int, c: int| 0 <= row < h && 0 <= c < w ==> #[trigger] final(dst)@[row * w + c] == (if row_in_frame(src.len() as int, stride, x0, y0, w, row) {
            pixel_luma(src@, row_offset(stride, x0, y0, row) + 4 * c, spec_channel_offsets(fmt).0, spec_channel_offsets(fmt).1, spec_channel_offsets(fmt).2)
        } else {
            old(dst)@[row * w + c]
        }),
{
    let (ro, go, bo) = channel_offsets(fmt);
    let mut row: u32 = 0;
    while row < h
        invariant
            row <= h,
            dst.len() == old(dst).len(),
            old(dst).len() == w * h,
            region_fits(stride, x0, y0, w, h),
            (ro, go, bo) == spec_channel_offsets(fmt),
            ro < 4 && go < 4 && bo < 4,
            forall|rr: int, c: int| 0 <= rr < row && 0 <= c < w ==> #[trigger] dst@[rr * w + c] == (if row_in_frame(src.len() as int, stride, x0, y0, w, rr) {
                pixel_luma(src@, row_offset(stride, x0, y0, rr) + 4 * c, ro, go, bo)
            } else {
                old(dst)@[rr * w + c]
            }),
            forall|i: int| row * w <= i < w * h ==> #[trigger] dst@[i] == old(dst)@[i],
        decreases h - row,
    {
        proof {
            lemma_row_offset_grows(stride, x0, y0, row as int, h as int);
        }
        let src_off = (y0 + row) as usize * stride + x0 as usize * 4;
        if src_off + w as usize * 4 > src.len() {
            proof {
                assert forall|rr: int| row <= rr < h implies !#[trigger] row_in_frame(src.len() as int, stride, x0, y0, w, rr) by {
                    lemma_row_offset_grows(stride, x0, y0, row as int, rr);
                }
                assert forall|rr: int, c: int| 0 <= rr < h && 0 <= c < w implies #[trigger] dst@[rr * w + c] == (if row_in_frame(src.len() as int, stride, x0, y0, w, rr) {
                    pixel_luma(src@, row_offset(stride, x0, y0, rr) + 4 * c, ro, go, bo)
                } else {
                    old(dst)@[rr * w + c]
                }) by {
                    lemma_row_index(w, h, rr, c);
                    if rr >= row {
                        lemma_row_offset_grows(stride, x0, y0, row as int, rr);
                        assert(rr * w >= row * w) by (nonlinear_arith)
                            requires
                                rr >= row,
                        {
                        }
                    }
                }
            }
            return;
        }
        proof {
            lemma_row_start(w, h, row as int);
        }
        let r0 = row as usize * w as usize;
        let mut out_row: Vec<u8> = Vec::new();
        let mut k: usize = 0;
        while k < w as usize
            invariant
                k <= w,
                out_row.len() == k,
            decreases w - k,
        {
            out_row.push(0);
            k = k + 1;
        }
        convert_row(src, src_off, w, &mut out_row, ro, go, bo);
        let mut c: usize = 0;
        while c < w as usize
            invariant
                c <= w,
                row < h,
                r0 == row * w,
                out_row.len() == w,
                dst.len() == old(dst).len(),
                old(dst).len() == w * h,
                forall|cc: int| 0 <= cc < w ==> #[trigger] out_row@[cc] == pixel_luma(src@, src_off + 4 * cc, ro, go, bo),
                forall|rr: int, cc: int| 0 <= rr < row && 0 <= cc < w ==> #[trigger] dst@[rr * w + cc] == (if row_in_frame(src.len() as int, stride, x0, y0, w, rr) {
                    pixel_luma(src@, row_offset(stride, x0, y0, rr) + 4 * cc, ro, go, bo)
                } else {
                    old(dst)@[rr * w + cc]
                }),
                forall|cc: int| 0 <= cc < c ==> #[trigger] dst@[r0 + cc] == out_row@[cc],
                forall|i: int| r0 + c <= i < w * h ==> #[trigger] dst@[i] == old(dst)@[i],
            decreases w - c,
        {
            proof {
                lemma_row_index(w, h, row as int, c as int);
            }
            dst.set(r0 + c, out_row[c]);
            proof {
                assert forall|rr: int, cc: int| 0 <= rr < row && 0 <= cc < w implies #[trigger] dst@[rr * w + cc] == (if row_in_frame(src.len() as int, stride, x0, y0, w, rr) {
                    pixel_luma(src@, row_offset(stride, x0, y0, rr) + 4 * cc, ro, go, bo)
                } else {
                    old(dst)@[rr * w + cc]
                }) by {
                    lemma_row_index(w, h, rr, cc);
                    assert(rr * w + cc < r0) by (nonlinear_arith)
                        requires
                            rr < row,
                            cc < w,
                            r0 == row * w,
                    {
                    }
                }
            }
            c = c + 1;
        }
        proof {
            assert forall|cc: int| 0 <= cc < w implies #[trigger] dst@[row * w + cc] == pixel_luma(src@, row_offset(stride, x0, y0, row as int) + 4 * cc, ro, go, bo) by {
                assert(dst@[r0 + cc] == out_row@[cc]);
            }
            assert((row + 1) * w == row * w + w) by (nonlinear_arith);
        }
        row = row + 1;
    }
}

/// Byte `k` of the RGBA copy of pixel `c` of row `row` of the region: the
/// red, green and blue channels, then an opaque alpha.
pub open spec fn rgba_byte(src: Seq<u8>, stride: usize, fmt: PixelFormat, x0: u32, y0: u32, row: int, c: int, k: int) -> u8 {
    let off = row_offset(stride, x0, y0, row) + 4 * c;
    let (ro, go, bo) = spec_channel_offsets(fmt);
    if k == 0 {
        channel(src, off, ro)
    } else if k == 1 {
        channel(src, off, go)
    } else if k == 2 {
        channel(src, off, bo)
    } else {
        255
    }
}

/// The RGBA copy of a pixel reads the frame pixel at column `x0 + c` of row
/// `y0 + row`: an RGBA frame's bytes are kept, a BGRA frame's red and blue
/// are swapped into place, green stays, and the alpha is always opaque.
pub proof fn lemma_rgba_copy_laws(src: Seq<u8>, stride: usize, x0: u32, y0: u32, row: int, c: int, fmt: PixelFormat)
    ensures
        ({
            let off = (y0 + row) * stride + (x0 + c) * 4;
            &&& rgba_byte(src, stride, PixelFormat::Rgba, x0, y0, row, c, 0) == src[off]
            &&& rgba_byte(src, stride, PixelFormat::Rgba, x0, y0, row, c, 1) == src[off + 1]
            &&& rgba_byte(src, stride, PixelFormat::Rgba, x0, y0, row, c, 2) == src[off + 2]
            &&& rgba_byte(src, stride, PixelFormat::Bgra, x0, y0, row, c, 0) == src[off + 2]
            &&& rgba_byte(src, stride, PixelFormat::Bgra, x0, y0, row, c, 1) == src[off + 1]
            &&& rgba_byte(src, stride, PixelFormat::Bgra, x0, y0, row, c, 2) == src[off]
            &&& rgba_byte(src, stride, fmt, x0, y0, row, c, 3) == 255
        }),
{
    assert((y0 + row) * stride + x0 * 4 + 4 * c == (y0 + row) * stride + (x0 + c) * 4) by (nonlinear_arith);
}

proof fn lemma_rgba_index(w: u32, h: u32, row: int, c: int, k: int)
    requires
        0 <= row < h,
        0 <= c < w,
        0 <= k < 4,
    ensures
        0 <= 4 * (row * w + c) + k < 4 * w * h,
        4 * (row * w) <= 4 * (row * w + c) + k < 4 * (row * w) + 4 * w,
{
    assert(0 <= 4 * (row * w + c) + k < 4 * w * h) by (nonlinear_arith)
        requires
            0 <= row < h,
            0 <= c < w,
            0 <= k < 4,
    ;
    assert(0 <= row * w) by (nonlinear_arith)
        requires
            0 <= row,
    ;
}

/// Copies the region `(x0, y0, w, h)` of a frame into RGBA bytes, row after
/// row into `dst`; rows that lie past the end of the frame are left as
/// they were.
pub fn copy_region_rgba(src: &Vec<u8>, stride: usize, fmt: PixelFormat, x0: u32, y0: u32, w: u32, h: u32, dst: &mut Vec<u8>)
    requires
        old(dst).len() == 4 * w * h,
        region_fits(stride, x0, y0, w, h),
    ensures
        final(dst).len() == old(dst).len(),
        forall|row: int, c: int, k: int|
            0 <= row < h && 0 <= c < w && 0 <= k < 4 ==> #[trigger] final(dst)@[4 * (row * w + c) + k] == (if row_in_frame(
                src.len() as int,
                stride,
                x0,
                y0,
                w,
                row,
            ) {
                rgba_byte(src@, stride, fmt, x0, y0, row, c, k)
            } else {
                old(dst)@[4 * (row * w + c) + k]
            }),
{
    let (ro, go, bo) = channel_offsets(fmt);
    let mut row: u32 = 0;
    while row < h
        invariant
            row <= h,
            dst.len() == old(dst).len(),
            old(dst).len() == 4 * w * h,
            region_fits(stride, x0, y0, w, h),
            (ro, go, bo) == spec_channel_offsets(fmt),
            ro < 4 && go < 4 && bo < 4,
            forall|rr: int, c: int, k: int|
                0 <= rr < row && 0 <= c < w && 0 <= k < 4 ==> #[trigger] dst@[4 * (rr * w + c) + k] == (if row_in_frame(
                    src.len() as int,
                    stride,
                    x0,
                    y0,
                    w,
                    rr,
                ) {
                    rgba_byte(src@, stride, fmt, x0, y0, rr, c, k)
                } else {
                    old(dst)@[4 * (rr * w + c) + k]
                }),
            forall|i: int| 4 * (row * w) <= i < 4 * w * h ==> #[trigger] dst@[i] == old(dst)@[i],
        decreases h - row,
    {
        proof {
            lemma_row_offset_grows(stride, x0, y0, row as int, h as int);
        }
        let src_off = (y0 + row) as usize * stride + x0 as usize * 4;
        if src_off + w as usize * 4 > src.len() {
            proof {
                assert forall|rr: int, c: int, k: int|
                    0 <= rr < h && 0 <= c < w && 0 <= k < 4 implies #[trigger] dst@[4 * (rr * w + c) + k] == (if row_in_frame(
                    src.len() as int,
                    stride,
                    x0,
                    y0,
                    w,
                    rr,
                ) {
                    rgba_byte(src@, stride, fmt, x0, y0, rr, c, k)
                } else {
                    old(dst)@[4 * (rr * w + c) + k]
                }) by {
                    lemma_rgba_index(w, h, rr, c, k);
                    if rr >= row {
                        lemma_row_offset_grows(stride, x0, y0, row as int, rr);
                        assert(4 * (rr * w) >= 4 * (row * w)) by (nonlinear_arith)
                            requires
                                rr >= row,
                        ;
                    }
                }
            }
            return;
        }
        proof {
            lemma_row_start(w, h, row as int);
            assert(4 * (row * w) + 4 * w <= 4 * w * h) by (nonlinear_arith)
                requires
                    row * w + w <= w * h,
            ;
        }
        let r0 = row as usize * w as usize * 4;
        let n = w as usize * 4;
        let mut out_row: Vec<u8> = Vec::new();
        let mut k: usize = 0;
        while k < n
            invariant
                k <= n,
                n == 4 * w,
                out_row.len() == k,
            decreases n - k,
        {
            out_row.push(0);
            k = k + 1;
        }
        copy_row(src, src_off, w, &mut out_row, ro, go, bo);
        let mut i: usize = 0;
        while i < n
            invariant
                i <= n,
                n == 4 * w,
                row < h,
                r0 == 4 * (row * w),
                r0 + n <= 4 * w * h,
                src_off == row_offset(stride, x0, y0, row as int),
                out_row.len() == n,
                dst.len() == old(dst).len(),
                old(dst).len() == 4 * w * h,
                (ro, go, bo) == spec_channel_offsets(fmt),
                forall|c: int| 0 <= c < w ==> {
                    &&& #[trigger] out_row@[4 * c] == channel(src@, src_off + 4 * c, ro)
                    &&& out_row@[4 * c + 1] == channel(src@, src_off + 4 * c, go)
                    &&& out_row@[4 * c + 2] == channel(src@, src_off + 4 * c, bo)
                    &&& out_row@[4 * c + 3] == 255
                },
                forall|rr: int, c: int, kk: int|
                    0 <= rr < row && 0 <= c < w && 0 <= kk < 4 ==> #[trigger] dst@[4 * (rr * w + c) + kk] == (if row_in_frame(
                        src.len() as int,
                        stride,
                        x0,
                        y0,
                        w,
                        rr,
                    ) {
                        rgba_byte(src@, stride, fmt, x0, y0, rr, c, kk)
                    } else {
                        old(dst)@[4 * (rr * w + c) + kk]
                    }),
                forall|j: int| 0 <= j < i ==> #[trigger] dst@[r0 + j] == out_row@[j],
                forall|j: int| r0 + i <= j < 4 * w * h ==> #[trigger] dst@[j] == old(dst)@[j],
            decreases n - i,
        {
            let ghost before = dst@;
            dst.set(r0 + i, out_row[i]);
            proof {
                assert forall|rr: int, c: int, kk: int|
                    0 <= rr < row && 0 <= c < w && 0 <= kk < 4 implies #[trigger] dst@[4 * (rr * w + c) + kk] == (if row_in_frame(
                    src.len() as int,
                    stride,
                    x0,
                    y0,
                    w,
                    rr,
                ) {
                    rgba_byte(src@, stride, fmt, x0, y0, rr, c, kk)
                } else {
                    old(dst)@[4 * (rr * w + c) + kk]
                }) by {
                    lemma_rgba_index(w, h, rr, c, kk);
                    assert(4 * (rr * w) + 4 * w <= r0) by (nonlinear_arith)
                        requires
                            rr < row,
                            r0 == 4 * (row * w),
                    ;
                    assert(before[4 * (rr * w + c) + kk] == dst@[4 * (rr * w + c) + kk]);
                }
                assert forall|j: int| 0 <= j < i + 1 implies #[trigger] dst@[r0 + j] == out_row@[j] by {
                    if j < i {
                        assert(before[r0 + j] == dst@[r0 + j]);
                    }
                }
            }
            i = i + 1;
        }
        proof {
            assert forall|c: int, kk: int| 0 <= c < w && 0 <= kk < 4 implies #[trigger] dst@[4 * (row * w + c) + kk]
                == rgba_byte(src@, stride, fmt, x0, y0, row as int, c, kk) by {
                assert(4 * (row * w + c) + kk == r0 + (4 * c + kk));
                assert(dst@[r0 + (4 * c + kk)] == out_row@[4 * c + kk]);
                assert(out_row@[4 * c] == channel(src@, src_off + 4 * c, ro));
            }
            assert(4 * ((row + 1) * w) == 4 * (row * w) + 4 * w) by (nonlinear_arith);
            assert forall|rr: int, c: int, kk: int|
                0 <= rr < row + 1 && 0 <= c < w && 0 <= kk < 4 implies #[trigger] dst@[4 * (rr * w + c) + kk] == (if row_in_frame(
                src.len() as int,
                stride,
                x0,
                y0,
                w,
                rr,
            ) {
                rgba_byte(src@, stride, fmt, x0, y0, rr, c, kk)
            } else {
                old(dst)@[4 * (rr * w + c) + kk]
            }) by {
                if rr == row {
                    assert(dst@[4 * (row * w + c) + kk] == rgba_byte(src@, stride, fmt, x0, y0, row as int, c, kk));
                }
            }
        }
        row = row + 1;
    }
}

// ---------------------------------------------------------------------------
// color matching
// ---------------------------------------------------------------------------
/// Squared RGB distance between two colors.
pub open spec fn dist_sq(cr: u8, cg: u8, cb: u8, r: u8, g: u8, b: u8) -> int {
    (cr - r) * (cr - r) + (cg - g) * (cg - g) + (cb - b) * (cb - b)
}

/// Whether a color is within the tolerance of a target: exactly equal for a
/// zero tolerance, else within `limit`, the largest squared distance the
/// tolerance admits (see [`crate::pixels`]'s callers for how it is derived).
pub open spec fn spec_color_match(cr: u8, cg: u8, cb: u8, r: u8, g: u8, b: u8, tolerance: u8, limit: i64) -> bool {
    if tolerance == 0 {
        cr == r && cg == g && cb == b
    } else {
        dist_sq(cr, cg, cb, r, g, b) <= limit
    }
}

/// Color matching does not depend on which color is the target: swapping
/// the two colors gives the same answer. A color always matches itself
/// (for any limit that is not negative); with a zero tolerance only the very
/// same color matches; a color that differs in one channel by `d` matches
/// exactly when `d * d` is within the limit; a larger limit admits every
/// color a smaller one does.
pub proof fn lemma_color_match_laws(cr: u8, cg: u8, cb: u8, r: u8, g: u8, b: u8, tolerance: u8, limit: i64, wider: i64)
    requires
        limit <= wider,
    ensures
        spec_color_match(cr, cg, cb, r, g, b, tolerance, limit) == spec_color_match(r, g, b, cr, cg, cb, tolerance, limit),
        limit >= 0 ==> spec_color_match(r, g, b, r, g, b, tolerance, limit),
        tolerance == 0 ==> (spec_color_match(cr, cg, cb, r, g, b, tolerance, limit) <==> (cr == r && cg == g && cb == b)),
        tolerance != 0 && cg == g && cb == b ==> (spec_color_match(cr, cg, cb, r, g, b, tolerance, limit) <==> (cr - r)
            * (cr - r) <= limit),
        tolerance != 0 && cr == r && cb == b ==> (spec_color_match(cr, cg, cb, r, g, b, tolerance, limit) <==> (cg - g)
            * (cg - g) <= limit),
        tolerance != 0 && cr == r && cg == g ==> (spec_color_match(cr, cg, cb, r, g, b, tolerance, limit) <==> (cb - b)
            * (cb - b) <= limit),
        spec_color_match(cr, cg, cb, r, g, b, tolerance, limit) ==> spec_color_match(cr, cg, cb, r, g, b, tolerance, wider),
{
    assert((cr - r) * (cr - r) == (r - cr) * (r - cr)) by (nonlinear_arith);
    assert((cg - g) * (cg - g) == (g - cg) * (g - cg)) by (nonlinear_arith);
    assert((cb - b) * (cb - b) == (b - cb) * (b - cb)) by (nonlinear_arith);
}

pub fn is_color_match(cr: u8, cg: u8, cb: u8, r: u8, g: u8, b: u8, tolerance: u8, limit: i64) -> (m: bool)
    ensures
        m == spec_color_match(cr, cg, cb, r, g, b, tolerance, limit),
{
    if tolerance == 0 {
        return cr == r && cg == g && cb == b;
    }
    let dr = cr as i64 - r as i64;
    let dg = cg as i64 - g as i64;
    let db = cb as i64 - b as i64;
    assert(dr * dr <= 65025 && dg * dg <= 65025 && db * db <= 65025) by (nonlinear_arith)
        requires
            -255 <= dr <= 255,
            -255 <= dg <= 255,
            -255 <= db <= 255,
    {
    }
    assert(dr * dr >= 0 && dg * dg >= 0 && db * db >= 0) by (nonlinear_arith);
    dr * dr + dg * dg + db * db <= limit
}

} // verus!
