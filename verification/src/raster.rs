//! Layout of an RGBA raster: row after row of pixels, four channel bytes
//! (red, green, blue, alpha) per pixel, with facts about its indices.
use vstd::prelude::*;

use vstd::arithmetic::div_mod::lemma_fundamental_div_mod_converse;

verus! {

/// Position of channel `c` of the pixel in column `x` and row `y` of a raster
/// `w` pixels wide.
pub open spec fn pixel_index(w: int, x: int, y: int, c: int) -> int {
    (y * w + x) * 4 + c
}

/// Column of the pixel that holds byte `i` of a raster `w` pixels wide.
pub open spec fn column_of(w: int, i: int) -> int {
    (i / 4) % w
}

/// Row of the pixel that holds byte `i` of a raster `w` pixels wide.
pub open spec fn row_of(w: int, i: int) -> int {
    (i / 4) / w
}

/// Channel (0 red, 1 green, 2 blue, 3 alpha) of byte `i`.
pub open spec fn channel_of(i: int) -> int {
    i % 4
}

/// Number of bytes of a `w` by `h` raster.
pub open spec fn raster_len(w: int, h: int) -> int {
    w * h * 4
}

/// Every channel of every pixel has a place of its own inside the raster,
/// and that place gives back its column, row and channel.
pub proof fn lemma_pixel_index(w: int, h: int, x: int, y: int, c: int)
    requires
        0 <= x < w,
        0 <= y < h,
        0 <= c < 4,
    ensures
        0 <= pixel_index(w, x, y, c) < raster_len(w, h),
        pixel_index(w, x, y, 0) + 4 <= raster_len(w, h),
        column_of(w, pixel_index(w, x, y, c)) == x,
        row_of(w, pixel_index(w, x, y, c)) == y,
        channel_of(pixel_index(w, x, y, c)) == c,
{
    let p = y * w + x;
    assert(0 <= y * w) by (nonlinear_arith)
        requires
            0 <= y,
            0 <= w,
    ;
    assert(y * w + x < h * w) by (nonlinear_arith)
        requires
            0 <= x < w,
            0 <= y < h,
    ;
    assert(h * w * 4 == w * h * 4) by (nonlinear_arith);
    lemma_fundamental_div_mod_converse(pixel_index(w, x, y, c), 4, p, c);
    lemma_fundamental_div_mod_converse(p, w, y, x);
}

/// Every byte of the raster is a channel of some pixel of it.
pub proof fn lemma_index_decompose(w: int, h: int, i: int)
    requires
        0 <= i < raster_len(w, h),
        0 < w,
    ensures
        0 <= column_of(w, i) < w,
        0 <= row_of(w, i) < h,
        0 <= channel_of(i) < 4,
        i == pixel_index(w, column_of(w, i), row_of(w, i), channel_of(i)),
{
    let p = i / 4;
    let x = p % w;
    let y = p / w;
    assert(i == p * 4 + i % 4 && 0 <= i % 4 < 4) by (nonlinear_arith)
        requires
            p == i / 4,
    ;
    assert(p == y * w + x && 0 <= x < w) by (nonlinear_arith)
        requires
            x == p % w,
            y == p / w,
            0 < w,
    ;
    assert(0 <= p < w * h) by (nonlinear_arith)
        requires
            0 <= i < w * h * 4,
            i == p * 4 + i % 4,
            0 <= i % 4 < 4,
    ;
    assert(0 <= y < h) by (nonlinear_arith)
        requires
            0 <= p < w * h,
            p == y * w + x,
            0 <= x < w,
            0 < w,
    ;
}

/// The first byte of the row after row `y` is the first byte past row `y`.
pub proof fn lemma_next_row(w: int, y: int)
    ensures
        pixel_index(w, w, y, 0) == pixel_index(w, 0, y + 1, 0),
{
    assert((y + 1) * w == y * w + w) by (nonlinear_arith);
}

/// A raster `w` pixels wide and `h` high holds at least `w` and `h` bytes
/// per row and column, so both fit in a `usize` when the raster does.
pub proof fn lemma_raster_dims(w: int, h: int)
    requires
        0 < w,
        0 < h,
    ensures
        w <= raster_len(w, h),
        h <= raster_len(w, h),
        w * h <= raster_len(w, h),
{
    assert(w <= w * h * 4 && h <= w * h * 4 && w * h <= w * h * 4) by (nonlinear_arith)
        requires
            0 < w,
            0 < h,
    ;
}

} // verus!
