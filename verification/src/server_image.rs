use vstd::prelude::*;

use crate::image::{convert_pixels, pixel_byte, to_rgba, ImageType};
use crate::text::{decimal, push_wide_decimal};
use vstd::slice::slice_subrange;

verus! {

/// Index of byte `c` (RGBA) of the pixel in row `r`, column `col` of an RGBA
/// image `w` pixels wide.
pub open spec fn pos(w: int, r: int, col: int, c: int) -> int {
    4 * (r * w + col) + c
}

/// Byte `c` (RGBA) of the pixel in row `r`, column `col` of a source image in
/// layout `t` whose rows start every `stride` bytes of `data`.
pub open spec fn source_rgba(t: ImageType, data: Seq<u8>, stride: int, r: int, col: int, c: int) -> u8 {
    pixel_byte(t, data.subrange(r * stride, data.len() as int), col, c)
}

/// Whether `len` bytes hold a source image of `size` (rows, columns) in
/// layout `t` whose rows start every `stride` bytes.
pub open spec fn source_fits(t: ImageType, len: nat, stride: nat, size: [usize; 2]) -> bool {
    size[0] == 0 || (size[0] - 1) * stride + size[1] * t.spec_bytes_per_pixel() <= len
}

/// The bytes between the starts of two rows of a source image: those given,
/// unless the rows follow each other without gaps (or none are given).
pub open spec fn row_stride(t: ImageType, size: [usize; 2], stride: usize, contiguous: bool) -> nat {
    if contiguous || stride == 0 {
        (size[1] * t.spec_bytes_per_pixel()) as nat
    } else {
        stride as nat
    }
}

/// Index of byte `j` of row `r` of rows of `line` bytes without gaps.
pub open spec fn row_pos(line: int, r: int, j: int) -> int {
    r * line + j
}

/// `img` holds the `rows` rows of `line` bytes that start every `stride`
/// bytes of `data`, one after the other without gaps.
pub open spec fn holds_rows(img: Seq<u8>, data: Seq<u8>, stride: nat, rows: nat, line: nat) -> bool {
    &&& img.len() == rows * line
    &&& forall|r: int, j: int|
        0 <= r < rows && 0 <= j < line ==> #[trigger] img[row_pos(line as int, r, j)] == data[r * stride + j]
}

/// `img` holds exactly the RGBA pixels of a source image of `size`.
pub open spec fn holds_source(img: Seq<u8>, t: ImageType, data: Seq<u8>, stride: nat, size: [usize; 2]) -> bool {
    &&& img.len() == 4 * (size[0] * size[1])
    &&& forall|r: int, col: int, c: int|
        0 <= r < size[0] && 0 <= col < size[1] && 0 <= c < 4 ==> #[trigger] img[pos(size[1] as int, r, col, c)]
            == source_rgba(t, data, stride as int, r, col, c)
}

/// Whether the pixel in row `r`, column `col` lies in the rectangle of `size`
/// at `origin` (row, column).
pub open spec fn in_rect(r: int, col: int, origin: [usize; 2], size: [usize; 2]) -> bool {
    origin[0] <= r < origin[0] + size[0] && origin[1] <= col < origin[1] + size[1]
}

/// `new` is the RGBA image `old` (of `size`) with the rectangle of `rsize`
/// at `origin` overwritten by a source image.
pub open spec fn rect_written(
    old: Seq<u8>,
    new: Seq<u8>,
    size: [usize; 2],
    origin: [usize; 2],
    rsize: [usize; 2],
    t: ImageType,
    data: Seq<u8>,
    stride: nat,
) -> bool {
    &&& new.len() == old.len()
    &&& forall|r: int, col: int, c: int|
        0 <= r < size[0] && 0 <= col < size[1] && 0 <= c < 4 ==> #[trigger] new[pos(size[1] as int, r, col, c)]
            == if in_rect(r, col, origin, rsize) {
            source_rgba(t, data, stride as int, r - origin[0], col - origin[1], c)
        } else {
            old[pos(size[1] as int, r, col, c)]
        }
}

proof fn lemma_pos_unique(w: int, r1: int, c1: int, k1: int, r2: int, c2: int, k2: int)
    requires
        w > 0,
        0 <= c1 < w,
        0 <= c2 < w,
        0 <= k1 < 4,
        0 <= k2 < 4,
        pos(w, r1, c1, k1) == pos(w, r2, c2, k2),
    ensures
        r1 == r2 && c1 == c2 && k1 == k2,
{
    let x = pos(w, r1, c1, k1);
    vstd::arithmetic::div_mod::lemma_fundamental_div_mod_converse(x, 4, r1 * w + c1, k1);
    vstd::arithmetic::div_mod::lemma_fundamental_div_mod_converse(x, 4, r2 * w + c2, k2);
    vstd::arithmetic::div_mod::lemma_fundamental_div_mod_converse(r1 * w + c1, w, r1, c1);
    vstd::arithmetic::div_mod::lemma_fundamental_div_mod_converse(r1 * w + c1, w, r2, c2);
}

proof fn lemma_pos_below(w: int, h: int, r: int, col: int, c: int)
    requires
        0 <= r < h,
        0 <= col < w,
        0 <= c < 4,
    ensures
        0 <= pos(w, r, col, c) < 4 * (h * w),
        pos(w, r, col, c) + 4 - c <= 4 * (h * w),
{
    assert(r * w + col < h * w) by (nonlinear_arith)
        requires
            0 <= r < h,
            0 <= col < w,
    ;
    assert(0 <= r * w) by (nonlinear_arith)
        requires
            0 <= r,
            0 <= w,
    ;
}

proof fn lemma_row_start(r: int, h: int, stride: int)
    requires
        0 <= r < h,
        0 <= stride,
    ensures
        0 <= r * stride <= (h - 1) * stride,
{
    assert(0 <= r * stride <= (h - 1) * stride) by (nonlinear_arith)
        requires
            0 <= r < h,
            0 <= stride,
    ;
}

proof fn lemma_row_pixel(t: ImageType, data: Seq<u8>, a: int, b: int, w: int, col: int, c: int)
    requires
        0 <= a,
        a + w * t.spec_bytes_per_pixel() <= b <= data.len(),
        0 <= col < w,
        0 <= c < 4,
    ensures
        pixel_byte(t, data.subrange(a, b), col, c) == pixel_byte(t, data.subrange(a, data.len() as int), col, c),
{
}

/// The RGBA pixels of a source image of `size` whose rows start every
/// `stride` bytes of `data`.
fn write_all(t: ImageType, data: &[u8], stride: usize, size: [usize; 2]) -> (res: Vec<u8>)
    requires
        source_fits(t, data@.len(), stride as nat, size),
    ensures
        holds_source(res@, t, data@, stride as nat, size),
{
    let h = size[0];
    let w = size[1];
    let bpp = t.bytes_per_pixel();
    let len = data.len();
    let mut res: Vec<u8> = Vec::new();
    let mut r: usize = 0;
    while r < h
        invariant
            r <= h,
            h == size[0],
            w == size[1],
            bpp == t.spec_bytes_per_pixel(),
            len == data@.len(),
            source_fits(t, data@.len(), stride as nat, size),
            res@.len() == 4 * (r * w),
            forall|r2: int, col: int, c: int|
                0 <= r2 < r && 0 <= col < w && 0 <= c < 4 ==> #[trigger] res@[pos(w as int, r2, col, c)]
                    == source_rgba(t, data@, stride as int, r2, col, c),
        decreases h - r,
    {
        proof {
            lemma_row_start(r as int, h as int, stride as int);
            assert(w * bpp == bpp * w) by (nonlinear_arith);
        }
        let start = r * stride;
        let row = slice_subrange(data, start, start + w * bpp);
        let mut conv = convert_pixels(t, row, w);
        let ghost before = res@;
        res.append(&mut conv);
        proof {
            assert((r + 1) * w == r * w + w) by (nonlinear_arith);
            assert forall|r2: int, col: int, c: int|
                0 <= r2 < r + 1 && 0 <= col < w && 0 <= c < 4 implies #[trigger] res@[pos(w as int, r2, col, c)]
                    == source_rgba(t, data@, stride as int, r2, col, c) by {
                if r2 < r {
                    lemma_pos_below(w as int, r as int, r2, col, c);
                    assert(res@[pos(w as int, r2, col, c)] == before[pos(w as int, r2, col, c)]);
                } else {
                    let k = 4 * col + c;
                    assert(pos(w as int, r2, col, c) == before.len() + k);
                    assert(k / 4 == col && k % 4 == c) by {
                        vstd::arithmetic::div_mod::lemma_fundamental_div_mod_converse(k, 4, col, c);
                    }
                    assert(res@[pos(w as int, r2, col, c)] == to_rgba(t, row@, w as nat)[k]);
                    lemma_row_pixel(t, data@, start as int, start + w * bpp, w as int, col, c);
                }
            }
        }
        r += 1;
    }
    res
}

/// Overwrites the rectangle of `rsize` at `origin` of the RGBA image `img`
/// of `size` with a source image whose rows start every `stride` bytes.
fn write_rect(
    img: &mut Vec<u8>,
    size: [usize; 2],
    origin: [usize; 2],
    rsize: [usize; 2],
    t: ImageType,
    data: &[u8],
    stride: usize,
)
    requires
        old(img)@.len() == 4 * (size[0] * size[1]),
        origin[0] + rsize[0] <= size[0],
        origin[1] + rsize[1] <= size[1],
        source_fits(t, data@.len(), stride as nat, rsize),
    ensures
        rect_written(old(img)@, final(img)@, size, origin, rsize, t, data@, stride as nat),
{
    let ghost orig = img@;
    let big_w = size[1];
    let h = rsize[0];
    let w = rsize[1];
    let bpp = t.bytes_per_pixel();
    let len = data.len();
    let img_len = img.len();
    let mut r: usize = 0;
    while r < h
        invariant
            r <= h,
            h == rsize[0],
            w == rsize[1],
            big_w == size[1],
            bpp == t.spec_bytes_per_pixel(),
            len == data@.len(),
            img_len == orig.len(),
            orig.len() == 4 * (size[0] * size[1]),
            origin[0] + rsize[0] <= size[0],
            origin[1] + rsize[1] <= size[1],
            source_fits(t, data@.len(), stride as nat, rsize),
            img@.len() == orig.len(),
            forall|rr: int, cc: int, c: int|
                0 <= rr < size[0] && 0 <= cc < size[1] && 0 <= c < 4 ==> #[trigger] img@[pos(big_w as int, rr, cc, c)]
                    == if in_rect(rr, cc, origin, [r, w]) {
                    source_rgba(t, data@, stride as int, rr - origin[0], cc - origin[1], c)
                } else {
                    orig[pos(big_w as int, rr, cc, c)]
                },
        decreases h - r,
    {
        proof {
            lemma_row_start(r as int, h as int, stride as int);
        }
        let start = r * stride;
        let mut col: usize = 0;
        while col < w
            invariant
                r < h,
                col <= w,
                h == rsize[0],
                w == rsize[1],
                big_w == size[1],
                bpp == t.spec_bytes_per_pixel(),
                len == data@.len(),
                img_len == orig.len(),
                start == r * stride,
                start + w * bpp <= len,
                orig.len() == 4 * (size[0] * size[1]),
                origin[0] + rsize[0] <= size[0],
                origin[1] + rsize[1] <= size[1],
                img@.len() == orig.len(),
                forall|rr: int, cc: int, c: int|
                    0 <= rr < size[0] && 0 <= cc < size[1] && 0 <= c < 4 ==> #[trigger] img@[pos(
                        big_w as int,
                        rr,
                        cc,
                        c,
                    )] == if in_rect(rr, cc, origin, [r, w]) || (rr == origin[0] + r && origin[1] <= cc < origin[1]
                        + col) {
                        source_rgba(t, data@, stride as int, rr - origin[0], cc - origin[1], c)
                    } else {
                        orig[pos(big_w as int, rr, cc, c)]
                    },
            decreases w - col,
        {
            let (p0, p1, p2, p3) = match t {
                ImageType::Color => (data[start + col * 3], data[start + col * 3 + 1], data[start + col * 3 + 2], 255u8),
                ImageType::ColorAlpha => (
                    data[start + col * 4],
                    data[start + col * 4 + 1],
                    data[start + col * 4 + 2],
                    data[start + col * 4 + 3],
                ),
                ImageType::Gray => (data[start + col], data[start + col], data[start + col], 255u8),
                ImageType::GrayAlpha => (data[start + col * 2], data[start + col * 2], data[start + col * 2], data[start
                    + col * 2 + 1]),
            };
            let ghost rr0 = origin[0] + r;
            let ghost cc0 = origin[1] + col;
            proof {
                lemma_pos_below(big_w as int, size[0] as int, rr0, cc0, 0);
            }
            let k = 4 * ((origin[0] + r) * big_w + origin[1] + col);
            let ghost before = img@;
            img.set(k, p0);
            img.set(k + 1, p1);
            img.set(k + 2, p2);
            img.set(k + 3, p3);
            proof {
                assert forall|rr: int, cc: int, c: int|
                    0 <= rr < size[0] && 0 <= cc < size[1] && 0 <= c < 4 implies #[trigger] img@[pos(
                        big_w as int,
                        rr,
                        cc,
                        c,
                    )] == if in_rect(rr, cc, origin, [r, w]) || (rr == origin[0] + r && origin[1] <= cc < origin[1]
                        + col + 1) {
                        source_rgba(t, data@, stride as int, rr - origin[0], cc - origin[1], c)
                    } else {
                        orig[pos(big_w as int, rr, cc, c)]
                    } by {
                    if rr == rr0 && cc == cc0 {
                        assert(img@[pos(big_w as int, rr, cc, c)] == source_rgba(
                            t,
                            data@,
                            stride as int,
                            rr - origin[0],
                            cc - origin[1],
                            c,
                        ));
                    } else {
                        lemma_pos_below(big_w as int, size[0] as int, rr, cc, c);
                        if pos(big_w as int, rr, cc, c) == k as int {
                            lemma_pos_unique(big_w as int, rr, cc, c, rr0, cc0, 0);
                        }
                        if pos(big_w as int, rr, cc, c) == k as int + 1 {
                            lemma_pos_unique(big_w as int, rr, cc, c, rr0, cc0, 1);
                        }
                        if pos(big_w as int, rr, cc, c) == k as int + 2 {
                            lemma_pos_unique(big_w as int, rr, cc, c, rr0, cc0, 2);
                        }
                        if pos(big_w as int, rr, cc, c) == k as int + 3 {
                            lemma_pos_unique(big_w as int, rr, cc, c, rr0, cc0, 3);
                        }
                        assert(img@[pos(big_w as int, rr, cc, c)] == before[pos(big_w as int, rr, cc, c)]);
                    }
                }
            }
            col += 1;
        }
        r += 1;
    }
}

/// `s` with the bytes from `at` on replaced by `chunk`.
pub open spec fn splice_bytes(s: Seq<u8>, at: int, chunk: Seq<u8>) -> Seq<u8> {
    s.subrange(0, at) + chunk + s.subrange(at + chunk.len(), s.len() as int)
}

/// The image `old` after the first `n` rows of a four-byte-per-pixel source
/// image, `line` bytes each and starting every `stride` bytes of `data`, were
/// copied into it one after the other, row `i` at byte `base + i * w`. With
/// `w` the image's width in pixels, rows land `w` bytes apart, so a later row
/// may cover part of an earlier one.
pub open spec fn alpha_rows(old: Seq<u8>, n: nat, base: int, w: int, line: int, data: Seq<u8>, stride: int) -> Seq<u8>
    decreases n,
{
    if n == 0 {
        old
    } else {
        let i = n - 1;
        splice_bytes(
            alpha_rows(old, i as nat, base, w, line, data, stride),
            base + i * w,
            data.subrange(i * stride, i * stride + line),
        )
    }
}

/// What writing a source image of `rsize` at `origin` does to the RGBA image
/// `old` of `size`: pixels with an alpha channel are copied row by row, row
/// `i` to byte `(origin row + i) * width + 4 * origin column` (see
/// [`alpha_rows`]); the other layouts are converted pixel by pixel into the
/// rectangle (see [`rect_written`]).
pub open spec fn rect_result(
    old: Seq<u8>,
    new: Seq<u8>,
    size: [usize; 2],
    origin: [usize; 2],
    rsize: [usize; 2],
    t: ImageType,
    data: Seq<u8>,
    stride: nat,
) -> bool {
    if t is ColorAlpha {
        new == alpha_rows(
            old,
            rsize[0] as nat,
            origin[0] * size[1] + 4 * origin[1],
            size[1] as int,
            4 * rsize[1],
            data,
            stride as int,
        )
    } else {
        rect_written(old, new, size, origin, rsize, t, data, stride)
    }
}

proof fn lemma_alpha_row_fits(hh: int, ww: int, o0: int, o1: int, h: int, w: int, r: int)
    requires
        0 <= o0,
        0 <= o1,
        0 <= r < h,
        o0 + h <= hh,
        o1 + w <= ww,
        0 <= w,
    ensures
        (o0 + r) * ww + 4 * o1 + 4 * w <= 4 * (hh * ww),
        (o0 + r) * ww + 4 * o1 == o0 * ww + 4 * o1 + r * ww,
        0 <= (o0 + r) * ww,
{
    assert((o0 + r) * ww <= (hh - 1) * ww) by (nonlinear_arith)
        requires
            o0 + r <= hh - 1,
            0 <= ww,
    ;
    assert((hh - 1) * ww + 4 * ww <= 4 * (hh * ww)) by (nonlinear_arith)
        requires
            hh >= 1,
            ww >= 0,
    ;
    assert((o0 + r) * ww == o0 * ww + r * ww) by (nonlinear_arith);
    assert(0 <= (o0 + r) * ww) by (nonlinear_arith)
        requires
            0 <= o0 + r,
            0 <= ww,
    ;
}

/// Copies the rows of a source image with an alpha channel into the RGBA
/// image `img` of `size` (see [`alpha_rows`]).
fn write_alpha_rows(img: &mut Vec<u8>, size: [usize; 2], origin: [usize; 2], rsize: [usize; 2], data: &[u8], stride: usize)
    requires
        old(img)@.len() == 4 * (size[0] * size[1]),
        origin[0] + rsize[0] <= size[0],
        origin[1] + rsize[1] <= size[1],
        source_fits(ImageType::ColorAlpha, data@.len(), stride as nat, rsize),
    ensures
        final(img)@ == alpha_rows(
            old(img)@,
            rsize[0] as nat,
            origin[0] * size[1] + 4 * origin[1],
            size[1] as int,
            4 * rsize[1],
            data@,
            stride as int,
        ),
        final(img)@.len() == old(img)@.len(),
{
    let ghost orig = img@;
    let ghost base = origin[0] * size[1] + 4 * origin[1];
    let ghost line = 4 * rsize[1];
    let big_w = size[1];
    let h = rsize[0];
    let len = data.len();
    let img_len = img.len();
    let mut r: usize = 0;
    while r < h
        invariant
            r <= h,
            h == rsize[0],
            line == 4 * rsize[1],
            big_w == size[1],
            len == data@.len(),
            img_len == orig.len(),
            orig.len() == 4 * (size[0] * size[1]),
            base == origin[0] * size[1] + 4 * origin[1],
            origin[0] + rsize[0] <= size[0],
            origin[1] + rsize[1] <= size[1],
            source_fits(ImageType::ColorAlpha, data@.len(), stride as nat, rsize),
            img@.len() == orig.len(),
            img@ == alpha_rows(orig, r as nat, base, big_w as int, line as int, data@, stride as int),
        decreases h - r,
    {
        proof {
            lemma_row_start(r as int, h as int, stride as int);
            lemma_alpha_row_fits(
                size[0] as int,
                big_w as int,
                origin[0] as int,
                origin[1] as int,
                h as int,
                rsize[1] as int,
                r as int,
            );
        }
        proof {
            assert(4 * rsize[1] <= 4 * (size[0] * size[1])) by (nonlinear_arith)
                requires
                    rsize[1] <= size[1],
                    size[0] >= 1,
            ;
        }
        let line = 4 * rsize[1];
        let b = (origin[0] + r) * big_w + 4 * origin[1];
        let rs = r * stride;
        let ghost prev = img@;
        let mut j: usize = 0;
        proof {
            assert(prev =~= splice_bytes(prev, b as int, data@.subrange(rs as int, rs as int)));
        }
        while j < line
            invariant
                j <= line,
                b + line <= prev.len(),
                prev.len() == img_len,
                rs + line <= len,
                len == data@.len(),
                img@ == splice_bytes(prev, b as int, data@.subrange(rs as int, rs + j)),
            decreases line - j,
        {
            img.set(b + j, data[rs + j]);
            j += 1;
            proof {
                assert(img@ =~= splice_bytes(prev, b as int, data@.subrange(rs as int, rs + j)));
            }
        }
        r += 1;
        proof {
            assert(b == base + (r - 1) * big_w);
        }
    }
}

/// The rows of `line` bytes that start every `stride` bytes of `data`, one
/// after the other without gaps.
fn pack(data: &[u8], stride: usize, rows: usize, line: usize) -> (res: Vec<u8>)
    requires
        rows == 0 || (rows - 1) * stride + line <= data@.len(),
    ensures
        holds_rows(res@, data@, stride as nat, rows as nat, line as nat),
{
    let len = data.len();
    let mut res: Vec<u8> = Vec::new();
    let mut r: usize = 0;
    while r < rows
        invariant
            r <= rows,
            len == data@.len(),
            rows == 0 || (rows - 1) * stride + line <= data@.len(),
            res@.len() == r * line,
            forall|r2: int, j: int|
                0 <= r2 < r && 0 <= j < line ==> #[trigger] res@[row_pos(line as int, r2, j)] == data@[r2 * stride + j],
        decreases rows - r,
    {
        proof {
            lemma_row_start(r as int, rows as int, stride as int);
        }
        let start = r * stride;
        let mut row = vstd::slice::slice_to_vec(slice_subrange(data, start, start + line));
        let ghost before = res@;
        res.append(&mut row);
        proof {
            assert((r + 1) * line == r * line + line) by (nonlinear_arith);
            assert forall|r2: int, j: int| 0 <= r2 < r + 1 && 0 <= j < line implies #[trigger] res@[row_pos(
                line as int,
                r2,
                j,
            )] == data@[r2 * stride + j] by {
                if r2 < r {
                    assert(r2 * line + j < r * line) by (nonlinear_arith)
                        requires
                            0 <= r2 < r,
                            0 <= j < line,
                    ;
                    assert(res@[row_pos(line as int, r2, j)] == before[row_pos(line as int, r2, j)]);
                }
            }
        }
        r += 1;
    }
    res
}

/// An image handed to the server: its size (rows, columns), the bytes
/// between the starts of two rows, whether the rows follow each other
/// without gaps, its pixel layout, and its bytes.
pub struct ImageData<'a> {
    pub size: [usize; 2],
    pub stride: usize,
    pub contiguous: bool,
    pub image_type: ImageType,
    pub data: &'a [u8],
}

/// The error of a rectangle at `origin` that does not fit in a stored image
/// of `size`.
pub open spec fn rect_error(origin: [u32; 2], size: [usize; 2]) -> Seq<char> {
    "rectangle ["@ + decimal(origin[0] as nat) + ", "@ + decimal(origin[1] as nat)
        + "] does not fit in the original image with size ["@ + decimal(size[0] as nat) + ", "@ + decimal(
        size[1] as nat,
    ) + "]"@
}

fn rect_error_text(origin: [u32; 2], size: [usize; 2]) -> (e: String)
    ensures
        e@ == rect_error(origin, size),
{
    let mut e = String::from_str("rectangle [");
    push_wide_decimal(&mut e, origin[0] as u128);
    e.append(", ");
    push_wide_decimal(&mut e, origin[1] as u128);
    e.append("] does not fit in the original image with size [");
    push_wide_decimal(&mut e, size[0] as u128);
    e.append(", ");
    push_wide_decimal(&mut e, size[1] as u128);
    e.append("]");
    e
}

/// What storing `image` (at `origin`, when given) does to a stored image
/// (`before` to `after`) and what it returns, for a client `connected` or not.
pub open spec fn image_set_post(
    before: ServerImage,
    after: ServerImage,
    image: ImageData,
    origin: Option<[u32; 2]>,
    connected: bool,
    res: Result<Option<Vec<u8>>, String>,
) -> bool {
    let t = image.image_type;
    let s = row_stride(t, image.size, image.stride, image.contiguous);
    let fits = source_fits(t, image.data@.len(), s, image.size);
    &&& res is Err <==> !fits || (origin matches Some(o) && !(o[0] + image.size[0] <= before.spec_size()[0]
        && o[1] + image.size[1] <= before.spec_size()[1]))
    &&& res matches Err(e) ==> e@ == if !fits {
        "image data is smaller than its size"@
    } else {
        rect_error(origin->0, before.spec_size())
    }
    &&& res is Err ==> after.spec_image() == before.spec_image() && after.spec_size()
        == before.spec_size()
    &&& res is Ok ==> (res->Ok_0 is Some <==> connected && before.spec_enabled())
    &&& res is Ok && res->Ok_0 is Some ==> holds_rows(
        res->Ok_0->0@,
        image.data@,
        s,
        image.size[0] as nat,
        (image.size[1] * t.spec_bytes_per_pixel()) as nat,
    )
    &&& res is Ok ==> match origin {
        None => after.spec_size() == image.size && holds_source(
            after.spec_image(),
            t,
            image.data@,
            s,
            image.size,
        ),
        Some(o) => after.spec_size() == before.spec_size() && rect_result(
            before.spec_image(),
            after.spec_image(),
            before.spec_size(),
            [o[0] as usize, o[1] as usize],
            image.size,
            t,
            image.data@,
            s,
        ),
    }
}

/// An image shared with the client, as the server keeps it: RGBA pixels and
/// size (rows, columns).
pub struct ServerImage {
    id: u64,
    image: Vec<u8>,
    size: [usize; 2],
    enabled: bool,
}

impl ServerImage {
    pub closed spec fn spec_id(&self) -> u64 {
        self.id
    }

    /// The RGBA pixels, row after row.
    pub closed spec fn spec_image(&self) -> Seq<u8> {
        self.image@
    }

    /// Rows and columns.
    pub closed spec fn spec_size(&self) -> [usize; 2] {
        self.size
    }

    pub closed spec fn spec_enabled(&self) -> bool {
        self.enabled
    }

    /// The pixels fill the size exactly.
    pub closed spec fn wf(&self) -> bool {
        self.image@.len() == 4 * (self.size[0] * self.size[1])
    }

    /// An empty image that is not enabled.
    pub fn new(id: u64) -> (s: Self)
        ensures
            s.wf(),
            s.spec_id() == id,
            s.spec_image() == Seq::<u8>::empty(),
            s.spec_size() == [0usize, 0usize],
            !s.spec_enabled(),
    {
        let s = ServerImage { id, image: Vec::new(), size: [0, 0], enabled: false };
        proof {
            assert(s.size[0] * s.size[1] == 0) by (nonlinear_arith)
                requires
                    s.size[0] == 0,
            ;
        }
        s
    }

    /// Rows and columns.
    pub fn get_size(&self) -> (r: [usize; 2])
        ensures
            r == self.spec_size(),
    {
        self.size
    }

    /// The RGBA pixels, row after row.
    pub fn get_image(&self) -> (r: &Vec<u8>)
        ensures
            r@ == self.spec_image(),
    {
        &self.image
    }

    /// Marks the image as shown by the client or not.
    pub fn enable(&mut self, enable: bool)
        ensures
            final(self).spec_enabled() == enable,
            final(self).spec_id() == old(self).spec_id(),
            final(self).spec_image() == old(self).spec_image(),
            final(self).spec_size() == old(self).spec_size(),
            final(self).wf() == old(self).wf(),
    {
        self.enabled = enable;
    }

    /// Stores a new image, or, at `origin` (row, column), a rectangle of the
    /// stored one. When the client is connected and the image enabled, the
    /// source's pixels are returned packed row after row, for sending.
    pub fn set_image(&mut self, image: ImageData, origin: Option<[u32; 2]>, connected: bool) -> (res: Result<
        Option<Vec<u8>>,
        String,
    >)
        requires
            old(self).wf(),
        ensures
            final(self).wf(),
            final(self).spec_id() == old(self).spec_id(),
            final(self).spec_enabled() == old(self).spec_enabled(),
            image_set_post(*old(self), *final(self), image, origin, connected, res),
    {
        let t = image.image_type;
        let bpp = t.bytes_per_pixel();
        let rows = image.size[0];
        let cols = image.size[1];
        let len = image.data.len();
        let line = if rows == 0 {
            0
        } else {
            match cols.checked_mul(bpp) {
                Some(l) => l,
                None => {
                    return Err(String::from_str("image data is smaller than its size"));
                },
            }
        };
        let stride = if image.contiguous || image.stride == 0 {
            line
        } else {
            image.stride
        };
        if rows > 0 {
            let last = match (rows - 1).checked_mul(stride) {
                Some(x) => x,
                None => {
                    return Err(String::from_str("image data is smaller than its size"));
                },
            };
            if last > len || line > len - last {
                return Err(String::from_str("image data is smaller than its size"));
            }
        }
        let payload = if connected && self.enabled {
            Some(pack(image.data, stride, rows, line))
        } else {
            None
        };
        match origin {
            Some(o) => {
                if rows > self.size[0] || o[0] as usize > self.size[0] - rows || cols > self.size[1] || o[1] as usize
                    > self.size[1] - cols {
                    return Err(rect_error_text(o, self.size));
                }
                let origin = [o[0] as usize, o[1] as usize];
                match t {
                    ImageType::ColorAlpha => write_alpha_rows(&mut self.image, self.size, origin, image.size, image.data, stride),
                    _ => write_rect(&mut self.image, self.size, origin, image.size, t, image.data, stride),
                }
            },
            None => {
                self.image = write_all(t, image.data, stride, image.size);
                self.size = image.size;
            },
        }
        Ok(payload)
    }

    /// The pixels to send to a newly connected client, when the image is
    /// enabled and not empty.
    pub fn sync(&self) -> (r: Option<Vec<u8>>)
        ensures
            self.spec_enabled() && self.spec_size()[0] != 0 && self.spec_size()[1] != 0 ==> r is Some && r->0@
                == self.spec_image(),
            !(self.spec_enabled() && self.spec_size()[0] != 0 && self.spec_size()[1] != 0) ==> r is None,
    {
        if !self.enabled || self.size[0] == 0 || self.size[1] == 0 {
            return None;
        }
        Some(vstd::slice::slice_to_vec(self.image.as_slice()))
    }
}

} // verus!
