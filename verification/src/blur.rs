//! The box-blur plugin: its parameters (`kernel_size=5,iterations=2`) and
//! the blur itself, on an RGBA buffer of `width * height` pixels.
use vstd::prelude::*;

use crate::raster::{
    column_of, channel_of, lemma_index_decompose, lemma_next_row, lemma_pixel_index,
    lemma_raster_dims, pixel_index, raster_len, row_of,
};
use crate::text::{
    chars_eq_str, chars_of, parse_u32, parse_u32_chars, split_by, split_chars, trim,
    trim_chars,
};

verus! {

/// Settings of the box blur.
#[derive(Debug, Clone, Copy)]
pub struct BlurParams {
    /// Side of the square averaging window; always odd and at least 3.
    pub kernel_size: u32,
    /// How many times the blur is applied; always between 1 and 10.
    pub iterations: u32,
}

/// The settings used when the parameter text names none.
pub open spec fn default_blur_params() -> BlurParams {
    BlurParams { kernel_size: 3, iterations: 1 }
}

/// A requested kernel size made usable: below 3 it becomes 3, an even size
/// becomes the next odd one.
pub open spec fn normalized_kernel_size(size: u32) -> u32 {
    if size < 3 {
        3
    } else if size % 2 == 0 {
        (size + 1) as u32
    } else {
        size
    }
}

/// A requested iteration count held to the range 1..=10.
pub open spec fn clamped_iterations(n: u32) -> u32 {
    if n < 1 {
        1
    } else if n > 10 {
        10
    } else {
        n
    }
}

/// The settings after one `key=value` entry of the parameter text.  An entry
/// that is not exactly one `=` between two parts, names another key, or holds
/// a value that is not a `u32`, changes nothing.
pub open spec fn apply_blur_entry(p: BlurParams, entry: Seq<char>) -> BlurParams {
    let parts = split_by(entry, seq!['=']);
    if parts.len() == 2 {
        let key = trim(parts[0]);
        let value = trim(parts[1]);
        if key == "kernel_size"@ {
            match parse_u32(value) {
                Some(size) => BlurParams {
                    kernel_size: normalized_kernel_size(size),
                    iterations: p.iterations,
                },
                None => p,
            }
        } else if key == "iterations"@ {
            match parse_u32(value) {
                Some(n) => BlurParams { kernel_size: p.kernel_size, iterations: clamped_iterations(n) },
                None => p,
            }
        } else {
            p
        }
    } else {
        p
    }
}

/// The settings after the entries, in order, starting from the defaults.
pub open spec fn blur_params_from(entries: Seq<Seq<char>>) -> BlurParams
    decreases entries.len(),
{
    if entries.len() == 0 {
        default_blur_params()
    } else {
        apply_blur_entry(blur_params_from(entries.drop_last()), entries.last())
    }
}

/// The settings that the parameter text describes: its comma-separated
/// entries applied in order, a later entry overriding an earlier one.
pub open spec fn parsed_blur_params(text: Seq<char>) -> BlurParams {
    blur_params_from(split_by(text, seq![',']))
}

/// The settings keep the kernel size odd and at least 3 and the iteration
/// count within 1..=10.
pub open spec fn blur_params_valid(p: BlurParams) -> bool {
    &&& p.kernel_size >= 3
    &&& p.kernel_size % 2 == 1
    &&& 1 <= p.iterations <= 10
}

/// Every parameter text gives settings whose kernel size is odd and at least
/// 3 and whose iteration count lies within 1..=10.
pub proof fn lemma_parsed_blur_params_valid(text: Seq<char>)
    ensures
        blur_params_valid(parsed_blur_params(text)),
{
    lemma_blur_params_from_valid(split_by(text, seq![',']));
}

/// The entry `e` reads `key=n`: one `=`, with `key` on its left and the
/// number `n` on its right, each side trimmed of whitespace.
pub open spec fn entry_sets(e: Seq<char>, key: Seq<char>, n: u32) -> bool {
    let sides = split_by(e, seq!['=']);
    sides.len() == 2 && trim(sides[0]) == key && parse_u32(trim(sides[1])) == Some(n)
}

/// When the last comma-separated entry of the text is `iterations=n`, the
/// blur runs `n` times if `n` is within 1..=10, once if `n` is 0 and ten
/// times if `n` is above 10; the kernel size is what the earlier entries
/// made it.
pub proof fn lemma_iterations_entry(text: Seq<char>, n: u32)
    requires
        split_by(text, seq![',']).len() > 0,
        entry_sets(split_by(text, seq![',']).last(), "iterations"@, n),
    ensures
        1 <= n <= 10 ==> parsed_blur_params(text).iterations == n,
        n == 0 ==> parsed_blur_params(text).iterations == 1,
        n > 10 ==> parsed_blur_params(text).iterations == 10,
        parsed_blur_params(text).kernel_size == blur_params_from(
            split_by(text, seq![',']).drop_last(),
        ).kernel_size,
{
    reveal_strlit("iterations");
    reveal_strlit("kernel_size");
    let key = trim(split_by(split_by(text, seq![',']).last(), seq!['='])[0]);
    assert(key.len() != "kernel_size"@.len());
}

/// When the last comma-separated entry of the text is `kernel_size=k`, the
/// window side is the smallest odd number that is at least `k` and at least
/// 3: `k` itself when it is odd and at least 3; the iteration count is what
/// the earlier entries made it.
pub proof fn lemma_kernel_size_entry(text: Seq<char>, k: u32)
    requires
        split_by(text, seq![',']).len() > 0,
        entry_sets(split_by(text, seq![',']).last(), "kernel_size"@, k),
    ensures
        parsed_blur_params(text).kernel_size % 2 == 1,
        parsed_blur_params(text).kernel_size >= 3,
        parsed_blur_params(text).kernel_size >= k,
        parsed_blur_params(text).kernel_size - k <= 1 || parsed_blur_params(text).kernel_size
            == 3,
        parsed_blur_params(text).iterations == blur_params_from(
            split_by(text, seq![',']).drop_last(),
        ).iterations,
{
    lemma_blur_params_from_valid(split_by(text, seq![',']).drop_last());
}

proof fn lemma_blur_params_from_valid(entries: Seq<Seq<char>>)
    ensures
        blur_params_valid(blur_params_from(entries)),
    decreases entries.len(),
{
    if entries.len() > 0 {
        lemma_blur_params_from_valid(entries.drop_last());
    }
}

impl Default for BlurParams {
    fn default() -> (r: Self)
        ensures
            r == default_blur_params(),
    {
        BlurParams { kernel_size: 3, iterations: 1 }
    }
}

/// One `key=value` entry applied to the settings `p`.
fn apply_entry(p: BlurParams, entry: &Vec<char>) -> (r: BlurParams)
    ensures
        r == apply_blur_entry(p, entry@),
{
    let eq = vec!['='];
    assert(eq@ =~= seq!['=']);
    let parts = split_chars(entry, &eq);
    if parts.len() != 2 {
        return p;
    }
    let key = trim_chars(&parts[0]);
    let value = trim_chars(&parts[1]);
    if chars_eq_str(&key, "kernel_size") {
        match parse_u32_chars(&value) {
            Some(size) => {
                let k = if size < 3 {
                    3
                } else if size % 2 == 0 {
                    size + 1
                } else {
                    size
                };
                BlurParams { kernel_size: k, iterations: p.iterations }
            },
            None => p,
        }
    } else if chars_eq_str(&key, "iterations") {
        match parse_u32_chars(&value) {
            Some(n) => {
                let it = if n < 1 {
                    1
                } else if n > 10 {
                    10
                } else {
                    n
                };
                BlurParams { kernel_size: p.kernel_size, iterations: it }
            },
            None => p,
        }
    } else {
        p
    }
}

impl BlurParams {
    /// Reads settings from text such as `kernel_size=5,iterations=2`.
    /// Entries are separated by commas and applied in order; a kernel size
    /// below 3 becomes 3 and an even one the next odd size; iterations are
    /// held to 1..=10; anything not understood is ignored.
    pub fn parse(params: &str) -> (r: Self)
        ensures
            r == parsed_blur_params(params@),
            blur_params_valid(r),
    {
        let text = chars_of(params);
        let commas = vec![','];
        assert(commas@ =~= seq![',']);
        let entries = split_chars(&text, &commas);
        let ghost all = split_by(text@, seq![',']);
        let mut result = BlurParams::default();
        let n = entries.len();
        assert(all.take(0) =~= Seq::<Seq<char>>::empty());
        for i in 0..n
            invariant
                n == entries@.len() == all.len(),
                forall|k: int| 0 <= k < n ==> (#[trigger] entries@[k])@ == all[k],
                result == blur_params_from(all.take(i as int)),
        {
            assert(all.take(i + 1).drop_last() =~= all.take(i as int));
            result = apply_entry(result, &entries[i]);
        }
        assert(all.take(n as int) =~= all);
        proof {
            lemma_parsed_blur_params_valid(params@);
        }
        result
    }

    /// Half the kernel size, rounded down: how far the averaging window
    /// reaches from its centre.
    pub fn radius(&self) -> (r: u32)
        ensures
            r == self.kernel_size / 2,
    {
        self.kernel_size / 2
    }
}

/// First row (or column) of the window of radius `r` around `pos`.
pub open spec fn window_start(pos: int, r: int) -> int {
    if pos - r < 0 {
        0
    } else {
        pos - r
    }
}

/// One past the last row (or column) of the window of radius `r` around
/// `pos`, in a raster `size` rows (or columns) long.
pub open spec fn window_end(pos: int, r: int, size: int) -> int {
    if pos + r + 1 > size {
        size
    } else {
        pos + r + 1
    }
}

/// Sum of channel `c` over the pixels of row `y` in columns `x0..x1`.
pub open spec fn row_sum(img: Seq<u8>, w: int, y: int, c: int, x0: int, x1: int) -> int
    decreases x1 - x0,
{
    if x1 <= x0 {
        0
    } else {
        row_sum(img, w, y, c, x0, x1 - 1) + img[pixel_index(w, x1 - 1, y, c)]
    }
}

/// Sum of channel `c` over the pixels in columns `x0..x1` of rows `y0..y1`.
pub open spec fn window_sum(img: Seq<u8>, w: int, c: int, x0: int, x1: int, y0: int, y1: int) -> int
    decreases y1 - y0,
{
    if y1 <= y0 {
        0
    } else {
        window_sum(img, w, c, x0, x1, y0, y1 - 1) + row_sum(img, w, y1 - 1, c, x0, x1)
    }
}

/// The blurred value of channel `c` of the pixel at (x, y): for red, green
/// and blue the mean, rounded down, of that channel over the pixels of the
/// raster within `r` columns and `r` rows of it; alpha keeps its value.
pub open spec fn blurred_channel(img: Seq<u8>, w: int, h: int, r: int, x: int, y: int, c: int) -> u8 {
    if c == 3 {
        img[pixel_index(w, x, y, c)]
    } else {
        let x0 = window_start(x, r);
        let x1 = window_end(x, r, w);
        let y0 = window_start(y, r);
        let y1 = window_end(y, r, h);
        (window_sum(img, w, c, x0, x1, y0, y1) / ((x1 - x0) * (y1 - y0))) as u8
    }
}

/// `img` after one pass of the box blur of radius `r` over its first
/// `w * h` pixels; bytes past the raster stay.
pub open spec fn box_blurred(img: Seq<u8>, w: int, h: int, r: int) -> Seq<u8> {
    Seq::new(
        img.len(),
        |i: int|
            if i < raster_len(w, h) {
                blurred_channel(img, w, h, r, column_of(w, i), row_of(w, i), channel_of(i))
            } else {
                img[i]
            },
    )
}

/// `img` after `n` passes of the box blur of radius `r`.
pub open spec fn box_blurred_times(img: Seq<u8>, w: int, h: int, r: int, n: nat) -> Seq<u8>
    decreases n,
{
    if n == 0 {
        img
    } else {
        box_blurred(box_blurred_times(img, w, h, r, (n - 1) as nat), w, h, r)
    }
}

pub proof fn lemma_row_sum_bound(img: Seq<u8>, w: int, y: int, c: int, x0: int, x1: int)
    requires
        x0 <= x1,
    ensures
        0 <= row_sum(img, w, y, c, x0, x1) <= 255 * (x1 - x0),
    decreases x1 - x0,
{
    if x1 > x0 {
        lemma_row_sum_bound(img, w, y, c, x0, x1 - 1);
    }
}

pub proof fn lemma_window_sum_bound(img: Seq<u8>, w: int, c: int, x0: int, x1: int, y0: int, y1: int)
    requires
        x0 <= x1,
        y0 <= y1,
    ensures
        0 <= window_sum(img, w, c, x0, x1, y0, y1) <= 255 * ((x1 - x0) * (y1 - y0)),
    decreases y1 - y0,
{
    if y1 > y0 {
        lemma_window_sum_bound(img, w, c, x0, x1, y0, y1 - 1);
        lemma_row_sum_bound(img, w, y1 - 1, c, x0, x1);
        let a = window_sum(img, w, c, x0, x1, y0, y1 - 1);
        let b = row_sum(img, w, y1 - 1, c, x0, x1);
        assert(a + b <= 255 * ((x1 - x0) * (y1 - y0))) by (nonlinear_arith)
            requires
                a <= 255 * ((x1 - x0) * (y1 - 1 - y0)),
                b <= 255 * (x1 - x0),
        ;
    }
}

/// The red, green and blue sums over the pixels of row `y` in columns `x0..x1`.
fn row_sums(original: &Vec<u8>, w: usize, h: usize, y: usize, x0: usize, x1: usize) -> (sums: (
    u128,
    u128,
    u128,
))
    requires
        x0 <= x1 <= w,
        y < h,
        raster_len(w as int, h as int) <= original@.len(),
    ensures
        sums.0 == row_sum(original@, w as int, y as int, 0, x0 as int, x1 as int),
        sums.1 == row_sum(original@, w as int, y as int, 1, x0 as int, x1 as int),
        sums.2 == row_sum(original@, w as int, y as int, 2, x0 as int, x1 as int),
{
    let mut red: u128 = 0;
    let mut green: u128 = 0;
    let mut blue: u128 = 0;
    for nx in x0..x1
        invariant
            x0 <= x1 <= w,
            y < h,
            raster_len(w as int, h as int) <= original@.len(),
            red == row_sum(original@, w as int, y as int, 0, x0 as int, nx as int),
            green == row_sum(original@, w as int, y as int, 1, x0 as int, nx as int),
            blue == row_sum(original@, w as int, y as int, 2, x0 as int, nx as int),
    {
        proof {
            lemma_pixel_index(w as int, h as int, nx as int, y as int, 0);
            lemma_row_sum_bound(original@, w as int, y as int, 0, x0 as int, nx as int);
            lemma_row_sum_bound(original@, w as int, y as int, 1, x0 as int, nx as int);
            lemma_row_sum_bound(original@, w as int, y as int, 2, x0 as int, nx as int);
            assert(0 <= y * w <= y * w + nx) by (nonlinear_arith)
                requires
                    0 <= y,
                    0 <= nx,
                    0 <= w,
            ;
        }
        assert(original.len() == original@.len());
        let idx = (y * w + nx) * 4;
        red = red + original[idx] as u128;
        green = green + original[idx + 1] as u128;
        blue = blue + original[idx + 2] as u128;
    }
    (red, green, blue)
}

/// The red, green and blue sums over the pixels in columns `x0..x1` of rows
/// `y0..y1`.
fn window_sums(
    original: &Vec<u8>,
    w: usize,
    h: usize,
    x0: usize,
    x1: usize,
    y0: usize,
    y1: usize,
) -> (sums: (u128, u128, u128))
    requires
        x0 <= x1 <= w,
        y0 <= y1 <= h,
        raster_len(w as int, h as int) <= original@.len(),
    ensures
        sums.0 == window_sum(original@, w as int, 0, x0 as int, x1 as int, y0 as int, y1 as int),
        sums.1 == window_sum(original@, w as int, 1, x0 as int, x1 as int, y0 as int, y1 as int),
        sums.2 == window_sum(original@, w as int, 2, x0 as int, x1 as int, y0 as int, y1 as int),
{
    let ghost img = original@;
    let mut red: u128 = 0;
    let mut green: u128 = 0;
    let mut blue: u128 = 0;
    if w == 0 || h == 0 {
        proof {
            assert(x1 == x0 || y1 == y0);
            if x1 == x0 {
                lemma_window_sum_bound(img, w as int, 0, x0 as int, x1 as int, y0 as int, y1 as int);
                lemma_window_sum_bound(img, w as int, 1, x0 as int, x1 as int, y0 as int, y1 as int);
                lemma_window_sum_bound(img, w as int, 2, x0 as int, x1 as int, y0 as int, y1 as int);
            }
        }
        return (0, 0, 0);
    }
    proof {
        lemma_raster_dims(w as int, h as int);
    }
    assert(original.len() == img.len());
    for ny in y0..y1
        invariant
            x0 <= x1 <= w,
            y0 <= y1 <= h,
            0 < w,
            0 < h,
            img == original@,
            raster_len(w as int, h as int) <= img.len(),
            w * h <= raster_len(w as int, h as int),
            img.len() <= usize::MAX,
            red == window_sum(img, w as int, 0, x0 as int, x1 as int, y0 as int, ny as int),
            green == window_sum(img, w as int, 1, x0 as int, x1 as int, y0 as int, ny as int),
            blue == window_sum(img, w as int, 2, x0 as int, x1 as int, y0 as int, ny as int),
    {
        let (r, g, b) = row_sums(original, w, h, ny, x0, x1);
        proof {
            let dx = x1 - x0;
            let dy = ny + 1 - y0;
            assert(dx * dy <= w * h) by (nonlinear_arith)
                requires
                    0 <= dx <= w,
                    0 <= dy <= h,
            ;
            lemma_window_sum_bound(img, w as int, 0, x0 as int, x1 as int, y0 as int, ny + 1);
            lemma_window_sum_bound(img, w as int, 1, x0 as int, x1 as int, y0 as int, ny + 1);
            lemma_window_sum_bound(img, w as int, 2, x0 as int, x1 as int, y0 as int, ny + 1);
            lemma_window_sum_bound(img, w as int, 0, x0 as int, x1 as int, y0 as int, ny as int);
            lemma_window_sum_bound(img, w as int, 1, x0 as int, x1 as int, y0 as int, ny as int);
            lemma_window_sum_bound(img, w as int, 2, x0 as int, x1 as int, y0 as int, ny as int);
            lemma_row_sum_bound(img, w as int, ny as int, 0, x0 as int, x1 as int);
            lemma_row_sum_bound(img, w as int, ny as int, 1, x0 as int, x1 as int);
            lemma_row_sum_bound(img, w as int, ny as int, 2, x0 as int, x1 as int);
        }
        red = red + r;
        green = green + g;
        blue = blue + b;
    }
    (red, green, blue)
}

/// One pass of the box blur of radius `radius` over the first
/// `width * height` pixels of `data`: every red, green and blue value becomes
/// the rounded-down mean of that channel over the pixels of the image within
/// `radius` rows and columns; alpha is left as it is.
pub fn apply_box_blur(data: &mut Vec<u8>, width: u32, height: u32, radius: u32)
    requires
        raster_len(width as int, height as int) <= old(data).len(),
    ensures
        final(data)@ == box_blurred(old(data)@, width as int, height as int, radius as int),
{
    let ghost img = data@;
    let ghost wi = width as int;
    let ghost hi = height as int;
    let ghost ri = radius as int;
    let w = width as usize;
    let h = height as usize;
    let r = radius as u64;
    let original = data.clone();
    assert(original@ =~= img);
    assert(pixel_index(wi, 0, 0, 0) == 0);
    for y in 0..h
        invariant
            original@ == img,
            data@.len() == img.len(),
            raster_len(wi, hi) <= img.len(),
            wi == w,
            hi == h,
            ri == r,
            w == width,
            h == height,
            r == radius,
            forall|i: int|
                0 <= i < img.len() ==> #[trigger] data@[i] == if i < pixel_index(wi, 0, y as int, 0) {
                    box_blurred(img, wi, hi, ri)[i]
                } else {
                    img[i]
                },
    {
        for x in 0..w
            invariant
                original@ == img,
                data@.len() == img.len(),
                raster_len(wi, hi) <= img.len(),
                wi == w,
                hi == h,
                ri == r,
                w == width,
                h == height,
                r == radius,
                y < h,
                forall|i: int|
                    0 <= i < img.len() ==> #[trigger] data@[i] == if i < pixel_index(
                        wi,
                        x as int,
                        y as int,
                        0,
                    ) {
                        box_blurred(img, wi, hi, ri)[i]
                    } else {
                        img[i]
                    },
        {
            let x0: usize = if (x as u64) < r {
                0
            } else {
                x - (r as usize)
            };
            let x1: usize = if (x as u64) + r + 1 > (w as u64) {
                w
            } else {
                ((x as u64) + r + 1) as usize
            };
            let y0: usize = if (y as u64) < r {
                0
            } else {
                y - (r as usize)
            };
            let y1: usize = if (y as u64) + r + 1 > (h as u64) {
                h
            } else {
                ((y as u64) + r + 1) as usize
            };
            assert(x0 == window_start(x as int, ri) && x1 == window_end(x as int, ri, wi));
            assert(y0 == window_start(y as int, ri) && y1 == window_end(y as int, ri, hi));
            let (red, green, blue) = window_sums(&original, w, h, x0, x1, y0, y1);
            proof {
                lemma_raster_dims(wi, hi);
                assert((x1 - x0) * (y1 - y0) <= w * h) by (nonlinear_arith)
                    requires
                        0 < x1 - x0 <= w,
                        0 < y1 - y0 <= h,
                ;
                assert((x1 - x0) * (y1 - y0) > 0) by (nonlinear_arith)
                    requires
                        0 < x1 - x0,
                        0 < y1 - y0,
                ;
                lemma_pixel_index(wi, hi, x as int, y as int, 0);
                lemma_pixel_index(wi, hi, x as int, y as int, 1);
                lemma_pixel_index(wi, hi, x as int, y as int, 2);
                lemma_pixel_index(wi, hi, x as int, y as int, 3);
                assert(0 <= y * w <= y * w + x) by (nonlinear_arith)
                    requires
                        0 <= y,
                        0 <= x,
                        0 <= w,
                ;
            }
            let count: u128 = ((x1 - x0) as u128) * ((y1 - y0) as u128);
            let dst = (y * w + x) * 4;
            data[dst] = (red / count) as u8;
            data[dst + 1] = (green / count) as u8;
            data[dst + 2] = (blue / count) as u8;
        }
        proof {
            lemma_next_row(wi, y as int);
        }
    }
    assert(pixel_index(wi, 0, hi, 0) == raster_len(wi, hi)) by (nonlinear_arith);
    assert(data@ =~= box_blurred(img, wi, hi, ri));
}

/// What the blur plugin makes of an RGBA buffer: nothing when a side is 0 or
/// the raster does not fit in memory, otherwise the first `width * height`
/// pixels blurred as often as the parameter text says, with the radius that
/// its kernel size gives.
pub open spec fn blur_result(img: Seq<u8>, width: u32, height: u32, params: Seq<char>) -> Seq<u8> {
    if width == 0 || height == 0 || raster_len(width as int, height as int) > usize::MAX {
        img
    } else {
        let p = parsed_blur_params(params);
        box_blurred_times(
            img,
            width as int,
            height as int,
            (p.kernel_size / 2) as int,
            p.iterations as nat,
        )
    }
}

/// The blur plugin blurs with a square window whose side is the kernel size
/// that the parameter text gives: it reaches `radius` pixels each way from
/// its centre with `2 * radius + 1` equal to that kernel size, and it is
/// applied as many times as the text says.
pub proof fn lemma_blur_result_window(img: Seq<u8>, width: u32, height: u32, params: Seq<char>)
    requires
        width > 0,
        height > 0,
        raster_len(width as int, height as int) <= usize::MAX,
    ensures
        ({
            let settings = parsed_blur_params(params);
            let radius = (settings.kernel_size - 1) / 2;
            &&& 2 * radius + 1 == settings.kernel_size
            &&& blur_result(img, width, height, params) == box_blurred_times(
                img,
                width as int,
                height as int,
                radius,
                settings.iterations as nat,
            )
        }),
{
    lemma_parsed_blur_params_valid(params);
}

/// The blur plugin's entry point: reads its settings from `params` and blurs
/// the `width * height` RGBA pixels at the start of `rgba_data`.
pub fn process_image(width: u32, height: u32, rgba_data: &mut Vec<u8>, params: &str)
    requires
        width == 0 || height == 0 || raster_len(width as int, height as int) > usize::MAX
            || raster_len(width as int, height as int) <= old(rgba_data).len(),
    ensures
        final(rgba_data)@ == blur_result(old(rgba_data)@, width, height, params@),
{
    if width == 0 || height == 0 {
        return ;
    }
    let blur_params = BlurParams::parse(params);
    let w = width as usize;
    let h = height as usize;
    let total = match w.checked_mul(h) {
        Some(pixels) => pixels.checked_mul(4),
        None => None,
    };
    if total.is_none() {
        assert(raster_len(width as int, height as int) > usize::MAX) by (nonlinear_arith)
            requires
                w * h > usize::MAX || (w * h) * 4 > usize::MAX,
                w == width,
                h == height,
                w > 0,
                h > 0,
        ;
        return ;
    }
    let ghost img = rgba_data@;
    let radius = blur_params.radius();
    let iterations = blur_params.iterations;
    for i in 0..iterations
        invariant
            raster_len(width as int, height as int) <= img.len(),
            rgba_data@.len() == img.len(),
            rgba_data@ == box_blurred_times(
                img,
                width as int,
                height as int,
                radius as int,
                i as nat,
            ),
    {
        apply_box_blur(rgba_data, width, height, radius);
    }
}

/// Channel `c` has the value `v` at every pixel of the `w` by `h` raster.
pub open spec fn channel_constant(img: Seq<u8>, w: int, h: int, c: int, v: int) -> bool {
    forall|x: int, y: int|
        0 <= x < w && 0 <= y < h ==> #[trigger] img[pixel_index(w, x, y, c)] == v
}

/// Channel `c` lies within `lo..=hi` at every pixel of the `w` by `h` raster.
pub open spec fn channel_within(img: Seq<u8>, w: int, h: int, c: int, lo: int, hi: int) -> bool {
    forall|x: int, y: int|
        0 <= x < w && 0 <= y < h ==> lo <= #[trigger] img[pixel_index(w, x, y, c)] <= hi
}

proof fn lemma_row_sum_within(
    img: Seq<u8>,
    w: int,
    h: int,
    y: int,
    c: int,
    x0: int,
    x1: int,
    lo: int,
    hi: int,
)
    requires
        0 <= x0 <= x1 <= w,
        0 <= y < h,
        channel_within(img, w, h, c, lo, hi),
    ensures
        lo * (x1 - x0) <= row_sum(img, w, y, c, x0, x1) <= hi * (x1 - x0),
    decreases x1 - x0,
{
    if x1 > x0 {
        lemma_row_sum_within(img, w, h, y, c, x0, x1 - 1, lo, hi);
        assert(lo <= img[pixel_index(w, x1 - 1, y, c)] <= hi);
        assert(lo * (x1 - x0) == lo * (x1 - 1 - x0) + lo) by (nonlinear_arith);
        assert(hi * (x1 - x0) == hi * (x1 - 1 - x0) + hi) by (nonlinear_arith);
    } else {
        assert(lo * (x1 - x0) == 0 && hi * (x1 - x0) == 0) by (nonlinear_arith)
            requires
                x1 == x0,
        ;
    }
}

proof fn lemma_window_sum_within(
    img: Seq<u8>,
    w: int,
    h: int,
    c: int,
    x0: int,
    x1: int,
    y0: int,
    y1: int,
    lo: int,
    hi: int,
)
    requires
        0 <= x0 <= x1 <= w,
        0 <= y0 <= y1 <= h,
        channel_within(img, w, h, c, lo, hi),
    ensures
        lo * ((x1 - x0) * (y1 - y0)) <= window_sum(img, w, c, x0, x1, y0, y1) <= hi * ((x1 - x0) * (
        y1 - y0)),
    decreases y1 - y0,
{
    if y1 > y0 {
        lemma_window_sum_within(img, w, h, c, x0, x1, y0, y1 - 1, lo, hi);
        lemma_row_sum_within(img, w, h, y1 - 1, c, x0, x1, lo, hi);
        let n = x1 - x0;
        assert(lo * (n * (y1 - y0)) == lo * (n * (y1 - 1 - y0)) + lo * n) by (nonlinear_arith);
        assert(hi * (n * (y1 - y0)) == hi * (n * (y1 - 1 - y0)) + hi * n) by (nonlinear_arith);
    } else {
        assert(lo * ((x1 - x0) * (y1 - y0)) == 0 && hi * ((x1 - x0) * (y1 - y0)) == 0)
            by (nonlinear_arith)
            requires
                y1 == y0,
        ;
    }
}

/// When channel `c` of every pixel lies within `lo..=hi`, so does channel
/// `c` of every pixel of the blurred image: a mean never leaves the range of
/// the values averaged.
pub proof fn lemma_blur_within(img: Seq<u8>, w: int, h: int, r: int, c: int, lo: int, hi: int)
    requires
        0 <= w,
        0 <= h,
        0 <= r,
        0 <= c < 3,
        0 <= lo <= hi <= 255,
        raster_len(w, h) <= img.len(),
        channel_within(img, w, h, c, lo, hi),
    ensures
        channel_within(box_blurred(img, w, h, r), w, h, c, lo, hi),
{
    let out = box_blurred(img, w, h, r);
    assert forall|x: int, y: int| 0 <= x < w && 0 <= y < h implies lo <= #[trigger] out[pixel_index(
        w,
        x,
        y,
        c,
    )] <= hi by {
        lemma_pixel_index(w, h, x, y, c);
        let x0 = window_start(x, r);
        let x1 = window_end(x, r, w);
        let y0 = window_start(y, r);
        let y1 = window_end(y, r, h);
        let n = (x1 - x0) * (y1 - y0);
        assert(n > 0) by (nonlinear_arith)
            requires
                x1 - x0 > 0,
                y1 - y0 > 0,
                n == (x1 - x0) * (y1 - y0),
        ;
        lemma_window_sum_within(img, w, h, c, x0, x1, y0, y1, lo, hi);
        let total = window_sum(img, w, c, x0, x1, y0, y1);
        assert(lo <= total / n <= hi) by (nonlinear_arith)
            requires
                n > 0,
                lo * n <= total <= hi * n,
        ;
    }
}

/// A channel that has one value all over the image keeps it through a blur.
pub proof fn lemma_blur_constant(img: Seq<u8>, w: int, h: int, r: int, c: int, v: int)
    requires
        0 <= w,
        0 <= h,
        0 <= r,
        0 <= c < 3,
        0 <= v <= 255,
        raster_len(w, h) <= img.len(),
        channel_constant(img, w, h, c, v),
    ensures
        channel_constant(box_blurred(img, w, h, r), w, h, c, v),
{
    assert(channel_within(img, w, h, c, v, v));
    lemma_blur_within(img, w, h, r, c, v, v);
}

/// Channel `c` summed over the pixels of row `ny` in columns `0..k` that lie
/// at most `r` columns from column `x`.
pub open spec fn near_row_sum(img: Seq<u8>, w: int, ny: int, c: int, x: int, r: int, k: int) -> int
    decreases k,
{
    if k <= 0 {
        0
    } else {
        near_row_sum(img, w, ny, c, x, r, k - 1) + if x - r <= k - 1 && k - 1 <= x + r {
            img[pixel_index(w, k - 1, ny, c)] as int
        } else {
            0
        }
    }
}

/// How many of the columns `0..k` lie at most `r` columns from column `x`.
pub open spec fn near_row_count(x: int, r: int, k: int) -> int
    decreases k,
{
    if k <= 0 {
        0
    } else {
        near_row_count(x, r, k - 1) + if x - r <= k - 1 && k - 1 <= x + r {
            1int
        } else {
            0
        }
    }
}

/// Channel `c` summed over the pixels (nx, ny) of a raster `w` pixels wide,
/// in rows `0..k`, with `|nx - x| <= r` and `|ny - y| <= r`.
pub open spec fn neighbourhood_sum(img: Seq<u8>, w: int, c: int, x: int, y: int, r: int, k: int) -> int
    decreases k,
{
    if k <= 0 {
        0
    } else {
        neighbourhood_sum(img, w, c, x, y, r, k - 1) + if y - r <= k - 1 && k - 1 <= y + r {
            near_row_sum(img, w, k - 1, c, x, r, w)
        } else {
            0
        }
    }
}

/// How many pixels (nx, ny) of a raster `w` pixels wide, in rows `0..k`,
/// have `|nx - x| <= r` and `|ny - y| <= r`.
pub open spec fn neighbourhood_count(w: int, x: int, y: int, r: int, k: int) -> int
    decreases k,
{
    if k <= 0 {
        0
    } else {
        neighbourhood_count(w, x, y, r, k - 1) + if y - r <= k - 1 && k - 1 <= y + r {
            near_row_count(x, r, w)
        } else {
            0
        }
    }
}

spec fn clamp(k: int, lo: int, hi: int) -> int {
    if k < lo {
        lo
    } else if k > hi {
        hi
    } else {
        k
    }
}

proof fn lemma_near_row(img: Seq<u8>, w: int, ny: int, c: int, x: int, r: int, k: int)
    requires
        0 <= x < w,
        0 <= r,
        0 <= k <= w,
    ensures
        near_row_sum(img, w, ny, c, x, r, k) == row_sum(
            img,
            w,
            ny,
            c,
            window_start(x, r),
            clamp(k, window_start(x, r), window_end(x, r, w)),
        ),
        near_row_count(x, r, k) == clamp(k, window_start(x, r), window_end(x, r, w))
            - window_start(x, r),
    decreases k,
{
    if k > 0 {
        lemma_near_row(img, w, ny, c, x, r, k - 1);
    }
}

proof fn lemma_neighbourhood(img: Seq<u8>, w: int, h: int, c: int, x: int, y: int, r: int, k: int)
    requires
        0 <= x < w,
        0 <= y < h,
        0 <= r,
        0 <= k <= h,
    ensures
        neighbourhood_sum(img, w, c, x, y, r, k) == window_sum(
            img,
            w,
            c,
            window_start(x, r),
            window_end(x, r, w),
            window_start(y, r),
            clamp(k, window_start(y, r), window_end(y, r, h)),
        ),
        neighbourhood_count(w, x, y, r, k) == (window_end(x, r, w) - window_start(x, r)) * (
        clamp(k, window_start(y, r), window_end(y, r, h)) - window_start(y, r)),
    decreases k,
{
    let a = window_end(x, r, w) - window_start(x, r);
    let y0 = window_start(y, r);
    let y1 = window_end(y, r, h);
    if k > 0 {
        lemma_neighbourhood(img, w, h, c, x, y, r, k - 1);
        lemma_near_row(img, w, k - 1, c, x, r, w);
        if y0 <= k - 1 && k - 1 < y1 {
            assert(a * (k - 1 - y0) + a == a * (k - y0)) by (nonlinear_arith);
        } else {
            assert(clamp(k, y0, y1) == clamp(k - 1, y0, y1));
        }
    } else {
        assert(clamp(k, y0, y1) == y0);
        assert(a * (y0 - y0) == 0) by (nonlinear_arith);
    }
}

/// The box blur averages each pixel's neighbourhood: the blurred red, green
/// or blue value at (x, y) is the mean, rounded down, of that channel over
/// every pixel (nx, ny) of the raster with `|nx - x| <= r` and
/// `|ny - y| <= r`, a neighbourhood that is never empty.
pub proof fn lemma_blur_is_neighbourhood_mean(
    img: Seq<u8>,
    w: int,
    h: int,
    r: int,
    x: int,
    y: int,
    c: int,
)
    requires
        0 <= x < w,
        0 <= y < h,
        0 <= c < 3,
        0 <= r,
        raster_len(w, h) <= img.len(),
    ensures
        ({
            let v = box_blurred(img, w, h, r)[pixel_index(w, x, y, c)] as int;
            let total = neighbourhood_sum(img, w, c, x, y, r, h);
            let count = neighbourhood_count(w, x, y, r, h);
            &&& count > 0
            &&& v * count <= total
            &&& total < (v + 1) * count
        }),
{
    lemma_pixel_index(w, h, x, y, c);
    lemma_neighbourhood(img, w, h, c, x, y, r, h);
    let x0 = window_start(x, r);
    let x1 = window_end(x, r, w);
    let y0 = window_start(y, r);
    let y1 = window_end(y, r, h);
    lemma_window_sum_bound(img, w, c, x0, x1, y0, y1);
    let s = window_sum(img, w, c, x0, x1, y0, y1);
    let n = (x1 - x0) * (y1 - y0);
    assert(n > 0) by (nonlinear_arith)
        requires
            n == (x1 - x0) * (y1 - y0),
            x1 - x0 > 0,
            y1 - y0 > 0,
    ;
    let q = s / n;
    let m = s % n;
    vstd::arithmetic::div_mod::lemma_fundamental_div_mod(s, n);
    vstd::arithmetic::div_mod::lemma_mod_pos_bound(s, n);
    assert(0 <= q <= 255) by (nonlinear_arith)
        requires
            s == n * q + m,
            0 <= m < n,
            0 <= s <= 255 * n,
    ;
    assert(q * n <= s && s < (q + 1) * n) by (nonlinear_arith)
        requires
            s == n * q + m,
            0 <= m < n,
    ;
}

/// Blurring `n` times is no blur for `n = 0`, one pass of the blur for
/// `n = 1`, and one more pass on top of `n` passes for `n + 1`.
pub proof fn lemma_blur_passes(img: Seq<u8>, w: int, h: int, r: int, n: nat)
    ensures
        box_blurred_times(img, w, h, r, 0) == img,
        box_blurred_times(img, w, h, r, 1) == box_blurred(img, w, h, r),
        box_blurred_times(img, w, h, r, n + 1) == box_blurred(
            box_blurred_times(img, w, h, r, n),
            w,
            h,
            r,
        ),
{
    assert(box_blurred_times(img, w, h, r, 0) == img);
}

/// The blur never changes the alpha channel.
pub proof fn lemma_blur_keeps_alpha(img: Seq<u8>, w: int, h: int, r: int, x: int, y: int)
    requires
        0 <= x < w,
        0 <= y < h,
        raster_len(w, h) <= img.len(),
    ensures
        box_blurred(img, w, h, r)[pixel_index(w, x, y, 3)] == img[pixel_index(w, x, y, 3)],
{
    lemma_pixel_index(w, h, x, y, 3);
}

/// An image whose red, green and blue are each one value all over the
/// raster comes out of the blur unchanged, however often it is applied.
pub proof fn lemma_blur_uniform(img: Seq<u8>, w: int, h: int, r: int, n: nat)
    requires
        0 <= w,
        0 <= h,
        0 <= r,
        raster_len(w, h) <= img.len(),
        forall|c: int|
            0 <= c < 3 ==> channel_constant(img, w, h, c, #[trigger] img[pixel_index(w, 0, 0, c)] as int),
    ensures
        box_blurred_times(img, w, h, r, n) == img,
    decreases n,
{
    if n > 0 {
        lemma_blur_uniform(img, w, h, r, (n - 1) as nat);
        let out = box_blurred(img, w, h, r);
        assert forall|i: int| 0 <= i < img.len() implies #[trigger] out[i] == img[i] by {
            if i < raster_len(w, h) {
                if w == 0 {
                    assert(raster_len(w, h) == 0);
                }
                lemma_index_decompose(w, h, i);
                let x = column_of(w, i);
                let y = row_of(w, i);
                let c = channel_of(i);
                if c < 3 {
                    let v = img[pixel_index(w, 0, 0, c)] as int;
                    lemma_blur_constant(img, w, h, r, c, v);
                    assert(out[pixel_index(w, x, y, c)] == v);
                } else {
                    lemma_blur_keeps_alpha(img, w, h, r, x, y);
                }
            }
        }
        assert(out =~= img);
    }
}

/// A picture of a single pixel comes out of the blur unchanged.
pub proof fn lemma_blur_single_pixel(img: Seq<u8>, r: int, n: nat)
    requires
        0 <= r,
        4 <= img.len(),
    ensures
        box_blurred_times(img, 1, 1, r, n) == img,
{
    assert forall|c: int| 0 <= c < 3 implies channel_constant(
        img,
        1,
        1,
        c,
        #[trigger] img[pixel_index(1, 0, 0, c)] as int,
    ) by {
        assert forall|x: int, y: int| 0 <= x < 1 && 0 <= y < 1 implies #[trigger] img[pixel_index(
            1,
            x,
            y,
            c,
        )] == img[pixel_index(1, 0, 0, c)] by {}
    }
    lemma_blur_uniform(img, 1, 1, r, n);
}

} // verus!
