//! The mirror plugin: its parameters (`direction=vertical`) and the
//! reflection of an RGBA buffer of `width * height` pixels.
use vstd::prelude::*;

use crate::raster::{
    channel_of, column_of, lemma_index_decompose, lemma_next_row, lemma_pixel_index, pixel_index,
    raster_len, row_of,
};
use crate::text::{chars_eq_str, chars_of, split_by, split_chars, trim, trim_chars};

verus! {

/// The axis or axes across which the image is reflected.
#[derive(Debug, Clone, Copy, PartialEq, Eq, Structural)]
pub enum MirrorDirection {
    /// Left and right swap (reflection across the vertical axis).
    Horizontal,
    /// Top and bottom swap (reflection across the horizontal axis).
    Vertical,
    /// Both at once: a half turn of the image.
    Both,
}

impl Default for MirrorDirection {
    fn default() -> (r: Self)
        ensures
            r == MirrorDirection::Horizontal,
    {
        MirrorDirection::Horizontal
    }
}

/// The lowercase form of text, as `str::to_lowercase` produces it.
pub uninterp spec fn lowercase(s: Seq<char>) -> Seq<char>;

/// Calls `str::to_lowercase` on the characters of `s`.  The contract only
/// names the result: it is a function of the characters of `s` alone.  What
/// Unicode lowercasing does to each character is left unsaid.
#[verifier::external_body]
fn to_lowercase(s: &Vec<char>) -> (r: Vec<char>)
    ensures
        r@ == lowercase(s@),
{
    let text: String = s.iter().collect();
    text.to_lowercase().chars().collect()
}

/// The direction that a lowercase keyword selects: `vertical`, `v` and
/// `flip_vertical` select `Vertical`; `both`, `b` and `flip_both` select
/// `Both`; any other word selects `Horizontal`.
pub open spec fn keyword_direction(word: Seq<char>) -> MirrorDirection {
    if word == "vertical"@ || word == "v"@ || word == "flip_vertical"@ {
        MirrorDirection::Vertical
    } else if word == "both"@ || word == "b"@ || word == "flip_both"@ {
        MirrorDirection::Both
    } else {
        MirrorDirection::Horizontal
    }
}

/// The direction that a text names: its keyword is the text trimmed of
/// whitespace and lowercased.
pub open spec fn direction_named(s: Seq<char>) -> MirrorDirection {
    keyword_direction(lowercase(trim(s)))
}

/// Settings of the mirror plugin.
#[derive(Debug, Clone, Copy)]
pub struct MirrorParams {
    pub direction: MirrorDirection,
}

impl Default for MirrorParams {
    fn default() -> (r: Self)
        ensures
            r.direction == MirrorDirection::Horizontal,
    {
        MirrorParams { direction: MirrorDirection::default() }
    }
}

/// The settings after one `key=value` entry: an entry that is exactly one
/// `=` between two parts whose trimmed key is `direction` sets the direction
/// that its trimmed value names; any other entry changes nothing.
pub open spec fn apply_mirror_entry(p: MirrorParams, entry: Seq<char>) -> MirrorParams {
    let parts = split_by(entry, seq!['=']);
    if parts.len() == 2 && trim(parts[0]) == "direction"@ {
        MirrorParams { direction: direction_named(trim(parts[1])) }
    } else {
        p
    }
}

/// The settings after the entries, in order, starting from `Horizontal`.
pub open spec fn mirror_params_from(entries: Seq<Seq<char>>) -> MirrorParams
    decreases entries.len(),
{
    if entries.len() == 0 {
        MirrorParams { direction: MirrorDirection::Horizontal }
    } else {
        apply_mirror_entry(mirror_params_from(entries.drop_last()), entries.last())
    }
}

/// The separators of mirror parameter entries: comma, line feed, carriage return.
pub open spec fn mirror_separators() -> Seq<char> {
    seq![',', '\n', '\r']
}

/// The settings that the parameter text describes: its entries, separated by
/// commas or line breaks, applied in order.
pub open spec fn parsed_mirror_params(text: Seq<char>) -> MirrorParams {
    mirror_params_from(split_by(text, mirror_separators()))
}

impl MirrorDirection {
    /// The direction that a lowercase keyword selects; see `keyword_direction`.
    pub fn from_keyword(word: &Vec<char>) -> (r: MirrorDirection)
        ensures
            r == keyword_direction(word@),
    {
        if chars_eq_str(word, "vertical") || chars_eq_str(word, "v") || chars_eq_str(
            word,
            "flip_vertical",
        ) {
            MirrorDirection::Vertical
        } else if chars_eq_str(word, "both") || chars_eq_str(word, "b") || chars_eq_str(
            word,
            "flip_both",
        ) {
            MirrorDirection::Both
        } else {
            MirrorDirection::Horizontal
        }
    }

    fn from_chars(s: &Vec<char>) -> (r: MirrorDirection)
        ensures
            r == direction_named(s@),
    {
        let trimmed = trim_chars(s);
        let lower = to_lowercase(&trimmed);
        MirrorDirection::from_keyword(&lower)
    }

    /// The direction that a text names, ignoring surrounding whitespace and
    /// case; `Horizontal` for anything unrecognised.
    pub fn from_str(s: &str) -> (r: MirrorDirection)
        ensures
            r == direction_named(s@),
    {
        let chars = chars_of(s);
        MirrorDirection::from_chars(&chars)
    }
}

fn apply_entry(p: MirrorParams, entry: &Vec<char>) -> (r: MirrorParams)
    ensures
        r == apply_mirror_entry(p, entry@),
{
    let eq = vec!['='];
    assert(eq@ =~= seq!['=']);
    let parts = split_chars(entry, &eq);
    if parts.len() != 2 {
        return p;
    }
    let key = trim_chars(&parts[0]);
    if chars_eq_str(&key, "direction") {
        let value = trim_chars(&parts[1]);
        MirrorParams { direction: MirrorDirection::from_chars(&value) }
    } else {
        p
    }
}

impl MirrorParams {
    /// Reads settings from text such as `direction=vertical`; entries are
    /// separated by commas or line breaks and applied in order, anything not
    /// understood is ignored.
    pub fn parse(params: &str) -> (r: Self)
        ensures
            r == parsed_mirror_params(params@),
    {
        let text = chars_of(params);
        let seps = vec![',', '\n', '\r'];
        assert(seps@ =~= mirror_separators());
        let entries = split_chars(&text, &seps);
        let ghost all = split_by(text@, mirror_separators());
        let mut result = MirrorParams::default();
        let n = entries.len();
        assert(all.take(0) =~= Seq::<Seq<char>>::empty());
        for i in 0..n
            invariant
                n == entries@.len() == all.len(),
                forall|k: int| 0 <= k < n ==> (#[trigger] entries@[k])@ == all[k],
                result == mirror_params_from(all.take(i as int)),
        {
            assert(all.take(i + 1).drop_last() =~= all.take(i as int));
            result = apply_entry(result, &entries[i]);
        }
        assert(all.take(n as int) =~= all);
        result
    }
}

/// Column of the pixel whose value lands in column `x` when a raster `w`
/// pixels wide is mirrored in direction `d`.
pub open spec fn source_column(w: int, x: int, d: MirrorDirection) -> int {
    match d {
        MirrorDirection::Vertical => x,
        _ => w - 1 - x,
    }
}

/// Row of the pixel whose value lands in row `y` when a raster `h` pixels
/// high is mirrored in direction `d`.
pub open spec fn source_row(h: int, y: int, d: MirrorDirection) -> int {
    match d {
        MirrorDirection::Horizontal => y,
        _ => h - 1 - y,
    }
}

/// `img` with its first `w * h` pixels mirrored in direction `d`: every
/// channel of the pixel at (x, y) takes the value of the same channel of the
/// pixel at (source_column, source_row); bytes past the raster stay.
pub open spec fn mirrored(img: Seq<u8>, w: int, h: int, d: MirrorDirection) -> Seq<u8> {
    Seq::new(
        img.len(),
        |i: int|
            if i < raster_len(w, h) {
                img[pixel_index(
                    w,
                    source_column(w, column_of(w, i), d),
                    source_row(h, row_of(w, i), d),
                    channel_of(i),
                )]
            } else {
                img[i]
            },
    )
}

/// The mirrored value of a channel of a pixel is that channel of its source pixel.
pub proof fn lemma_mirrored_at(img: Seq<u8>, w: int, h: int, d: MirrorDirection, x: int, y: int, c: int)
    requires
        raster_len(w, h) <= img.len(),
        0 <= x < w,
        0 <= y < h,
        0 <= c < 4,
    ensures
        0 <= source_column(w, x, d) < w,
        0 <= source_row(h, y, d) < h,
        mirrored(img, w, h, d)[pixel_index(w, x, y, c)] == img[pixel_index(
            w,
            source_column(w, x, d),
            source_row(h, y, d),
            c,
        )],
{
    lemma_pixel_index(w, h, x, y, c);
    lemma_pixel_index(w, h, source_column(w, x, d), source_row(h, y, d), c);
}

/// Mirroring reflects the raster: left-right, the pixel in column `x` of a
/// row takes the value of the pixel in column `w - 1 - x` of that row;
/// top-bottom, the pixel in row `y` takes that of row `h - 1 - y`; both ways
/// at once, that of column `w - 1 - x` of row `h - 1 - y`.
pub proof fn lemma_mirror_reflects(
    img: Seq<u8>,
    w: int,
    h: int,
    d: MirrorDirection,
    x: int,
    y: int,
    c: int,
)
    requires
        raster_len(w, h) <= img.len(),
        0 <= x < w,
        0 <= y < h,
        0 <= c < 4,
    ensures
        d == MirrorDirection::Horizontal ==> mirrored(img, w, h, d)[pixel_index(w, x, y, c)]
            == img[pixel_index(w, (w - 1) - x, y, c)],
        d == MirrorDirection::Vertical ==> mirrored(img, w, h, d)[pixel_index(w, x, y, c)]
            == img[pixel_index(w, x, (h - 1) - y, c)],
        d == MirrorDirection::Both ==> mirrored(img, w, h, d)[pixel_index(w, x, y, c)]
            == img[pixel_index(w, (w - 1) - x, (h - 1) - y, c)],
{
    lemma_mirrored_at(img, w, h, d, x, y, c);
}

/// Mirroring twice in the same direction gives back the image.
pub proof fn lemma_mirror_involution(img: Seq<u8>, w: int, h: int, d: MirrorDirection)
    requires
        0 <= w,
        0 <= h,
        raster_len(w, h) <= img.len(),
    ensures
        mirrored(mirrored(img, w, h, d), w, h, d) == img,
{
    let once = mirrored(img, w, h, d);
    assert forall|i: int| 0 <= i < img.len() implies #[trigger] mirrored(once, w, h, d)[i]
        == img[i] by {
        if i < raster_len(w, h) {
            if w == 0 {
                assert(raster_len(w, h) == 0);
            }
            lemma_index_decompose(w, h, i);
            let x = column_of(w, i);
            let y = row_of(w, i);
            let c = channel_of(i);
            lemma_mirrored_at(once, w, h, d, x, y, c);
            lemma_mirrored_at(img, w, h, d, source_column(w, x, d), source_row(h, y, d), c);
        }
    }
    assert(mirrored(once, w, h, d) =~= img);
}

/// Mirroring left-right and then top-bottom, in either order, is the same as
/// mirroring both ways at once.
pub proof fn lemma_mirror_compose(img: Seq<u8>, w: int, h: int)
    requires
        0 <= w,
        0 <= h,
        raster_len(w, h) <= img.len(),
    ensures
        mirrored(mirrored(img, w, h, MirrorDirection::Horizontal), w, h, MirrorDirection::Vertical)
            == mirrored(img, w, h, MirrorDirection::Both),
        mirrored(mirrored(img, w, h, MirrorDirection::Vertical), w, h, MirrorDirection::Horizontal)
            == mirrored(img, w, h, MirrorDirection::Both),
{
    let hv = mirrored(mirrored(img, w, h, MirrorDirection::Horizontal), w, h, MirrorDirection::Vertical);
    let vh = mirrored(mirrored(img, w, h, MirrorDirection::Vertical), w, h, MirrorDirection::Horizontal);
    let both = mirrored(img, w, h, MirrorDirection::Both);
    assert forall|i: int| 0 <= i < img.len() implies #[trigger] hv[i] == both[i] && vh[i] == both[i] by {
        if i < raster_len(w, h) {
            if w == 0 {
                assert(raster_len(w, h) == 0);
            }
            lemma_index_decompose(w, h, i);
            let x = column_of(w, i);
            let y = row_of(w, i);
            let c = channel_of(i);
            let hor = mirrored(img, w, h, MirrorDirection::Horizontal);
            let ver = mirrored(img, w, h, MirrorDirection::Vertical);
            lemma_mirrored_at(hor, w, h, MirrorDirection::Vertical, x, y, c);
            lemma_mirrored_at(img, w, h, MirrorDirection::Horizontal, x, h - 1 - y, c);
            lemma_mirrored_at(ver, w, h, MirrorDirection::Horizontal, x, y, c);
            lemma_mirrored_at(img, w, h, MirrorDirection::Vertical, w - 1 - x, y, c);
            lemma_mirrored_at(img, w, h, MirrorDirection::Both, x, y, c);
        }
    }
    assert(hv =~= both);
    assert(vh =~= both);
}

/// Copies the four channels of the pixel at `src` of `original` over those of
/// the pixel at `dst` of `data`.
fn copy_pixel(data: &mut Vec<u8>, original: &Vec<u8>, dst: usize, src: usize)
    requires
        dst + 4 <= old(data).len(),
        src + 4 <= original.len(),
    ensures
        final(data)@.len() == old(data)@.len(),
        forall|i: int|
            0 <= i < old(data)@.len() ==> #[trigger] final(data)@[i] == if dst <= i < dst + 4 {
                original@[src + (i - dst)]
            } else {
                old(data)@[i]
            },
{
    data[dst] = original[src];
    data[dst + 1] = original[src + 1];
    data[dst + 2] = original[src + 2];
    data[dst + 3] = original[src + 3];
}

/// Mirrors the first `width * height` pixels of `data` in `direction`.
pub fn apply_mirror(data: &mut Vec<u8>, width: usize, height: usize, direction: MirrorDirection)
    requires
        raster_len(width as int, height as int) <= old(data).len(),
    ensures
        final(data)@ == mirrored(old(data)@, width as int, height as int, direction),
{
    let ghost img = data@;
    let ghost w = width as int;
    let ghost h = height as int;
    let original = data.clone();
    assert(original@ =~= img);
    assert(pixel_index(w, 0, 0, 0) == 0);
    for y in 0..height
        invariant
            original@ == img,
            data@.len() == img.len(),
            raster_len(w, h) <= img.len(),
            w == width,
            h == height,
            forall|i: int|
                0 <= i < img.len() ==> #[trigger] data@[i] == if i < pixel_index(w, 0, y as int, 0) {
                    mirrored(img, w, h, direction)[i]
                } else {
                    img[i]
                },
    {
        for x in 0..width
            invariant
                original@ == img,
                data@.len() == img.len(),
                raster_len(w, h) <= img.len(),
                w == width,
                h == height,
                y < height,
                forall|i: int|
                    0 <= i < img.len() ==> #[trigger] data@[i] == if i < pixel_index(
                        w,
                        x as int,
                        y as int,
                        0,
                    ) {
                        mirrored(img, w, h, direction)[i]
                    } else {
                        img[i]
                    },
        {
            let sx = match direction {
                MirrorDirection::Vertical => x,
                _ => width - 1 - x,
            };
            let sy = match direction {
                MirrorDirection::Horizontal => y,
                _ => height - 1 - y,
            };
            proof {
                lemma_pixel_index(w, h, x as int, y as int, 0);
                lemma_pixel_index(w, h, sx as int, sy as int, 0);
            }
            assert(data.len() == img.len());
            assert(0 <= y * width <= y * width + x) by (nonlinear_arith)
                requires
                    0 <= y,
                    0 <= x,
                    0 <= width,
            ;
            assert(0 <= sy * width <= sy * width + sx) by (nonlinear_arith)
                requires
                    0 <= sy,
                    0 <= sx,
                    0 <= width,
            ;
            let dst = (y * width + x) * 4;
            let src = (sy * width + sx) * 4;
            copy_pixel(data, &original, dst, src);
            proof {
                let m = mirrored(img, w, h, direction);
                assert forall|i: int| dst <= i < dst + 4 implies m[i] == img[src + (i - dst)] by {
                    lemma_pixel_index(w, h, x as int, y as int, i - dst);
                }
                assert(pixel_index(w, x + 1, y as int, 0) == dst + 4);
            }
        }
        proof {
            lemma_next_row(w, y as int);
        }
    }
    assert(pixel_index(w, 0, h, 0) == raster_len(w, h)) by (nonlinear_arith);
    assert(data@ =~= mirrored(img, w, h, direction));
}

/// What the mirror plugin makes of an RGBA buffer: nothing when a side is 0
/// or the raster does not fit in memory, otherwise the first
/// `width * height` pixels mirrored in the direction that the parameter text
/// names.
pub open spec fn mirror_result(img: Seq<u8>, width: u32, height: u32, params: Seq<char>) -> Seq<u8> {
    if width == 0 || height == 0 || raster_len(width as int, height as int) > usize::MAX {
        img
    } else {
        mirrored(img, width as int, height as int, parsed_mirror_params(params).direction)
    }
}

/// The mirror plugin's entry point: reads its settings from `params` and
/// mirrors the `width * height` RGBA pixels at the start of `rgba_data`.
pub fn process_image(width: u32, height: u32, rgba_data: &mut Vec<u8>, params: &str)
    requires
        width == 0 || height == 0 || raster_len(width as int, height as int) > usize::MAX
            || raster_len(width as int, height as int) <= old(rgba_data).len(),
    ensures
        final(rgba_data)@ == mirror_result(old(rgba_data)@, width, height, params@),
{
    if width == 0 || height == 0 {
        return ;
    }
    let mirror_params = MirrorParams::parse(params);
    let w = width as usize;
    let h = height as usize;
    let total = match w.checked_mul(h) {
        Some(pixels) => pixels.checked_mul(4),
        None => None,
    };
    if total.is_none() {
        assert(raster_len(width as int, height as int) > usize::MAX) by (nonlinear_arith)
            requires
                w * h > usize::MAX || (w * h) * 4 > usize::MAX,
                w == width,
                h == height,
                w > 0,
                h > 0,
        ;
        return ;
    }
    apply_mirror(rgba_data, w, h, mirror_params.direction);
}

} // verus!
