//! Text output of the bootloader on a linear framebuffer: where each pixel
//! lives, how a character is drawn from its 8x8 glyph, and where the
//! characters of a string go.

use vstd::prelude::*;
use vstd::string::StrSliceExecFns;

verus! {

/// How the colour bytes of a pixel are ordered.
#[derive(Clone, Copy, Debug, PartialEq, Eq, Structural)]
pub enum PixelFormat {
    Rgb,
    Bgr,
    /// A layout the printer does not draw on.
    Other,
}

/// The framebuffer handed over by the firmware.
#[derive(Clone, Copy)]
pub struct FramebufferInfo {
    pub addr: usize,
    pub size: usize,
    pub width: usize,
    pub height: usize,
    pub stride: usize,
    pub pixel_format: PixelFormat,
}

/// The byte offsets of all pixels of the screen fit in a machine word.
pub open spec fn fb_fits(fb: FramebufferInfo) -> bool {
    (fb.height * fb.stride + fb.width) * 4 <= usize::MAX
}

/// The byte offset of pixel (`x`, `y`) in the framebuffer, when the pixel is
/// on the screen and its four bytes lie in the buffer.
pub open spec fn pixel_offset_of(fb: FramebufferInfo, x: int, y: int) -> Option<int> {
    if x >= fb.width || y >= fb.height {
        None
    } else if (y * fb.stride + x) * 4 + 3 >= fb.size {
        None
    } else {
        Some((y * fb.stride + x) * 4)
    }
}

/// Where `put_pixel` writes pixel (`x`, `y`); pixels off the screen or past
/// the buffer are not drawn.
pub fn pixel_offset(fb: &FramebufferInfo, x: usize, y: usize) -> (r: Option<usize>)
    requires
        fb_fits(*fb),
    ensures
        r matches Some(o) ==> pixel_offset_of(*fb, x as int, y as int) == Some(o as int),
        r is None ==> pixel_offset_of(*fb, x as int, y as int) is None,
{
    if x >= fb.width || y >= fb.height {
        return None;
    }
    assert(y * fb.stride <= (fb.height - 1) * fb.stride) by (nonlinear_arith)
        requires y < fb.height;
    assert((fb.height - 1) * fb.stride + fb.stride == fb.height * fb.stride) by (nonlinear_arith);
    let offset = (y * fb.stride + x) * 4;
    if offset + 3 >= fb.size {
        return None;
    }
    Some(offset)
}

/// The four bytes of a pixel of colour (`r`, `g`, `b`) in the layout
/// `format`; nothing is drawn in another layout.
pub fn pixel_bytes(format: PixelFormat, r: u8, g: u8, b: u8) -> (px: Option<[u8; 4]>)
    ensures
        format == PixelFormat::Rgb ==> (px matches Some(p) && p@ == seq![r, g, b, 0u8]),
        format == PixelFormat::Bgr ==> (px matches Some(p) && p@ == seq![b, g, r, 0u8]),
        format == PixelFormat::Other ==> px is None,
{
    match format {
        PixelFormat::Rgb => {
            let p = [r, g, b, 0u8];
            assert(p@ =~= seq![r, g, b, 0u8]);
            Some(p)
        },
        PixelFormat::Bgr => {
            let p = [b, g, r, 0u8];
            assert(p@ =~= seq![b, g, r, 0u8]);
            Some(p)
        },
        PixelFormat::Other => None,
    }
}

/// The glyph drawn for `c`: its own for ASCII, a question mark otherwise.
pub open spec fn glyph_index_of(c: char) -> int {
    if (c as int) < 128 {
        c as int
    } else {
        '?' as int
    }
}

pub fn glyph_index(c: char) -> (i: usize)
    ensures
        i == glyph_index_of(c),
        i < 128,
{
    if (c as u32) < 128 {
        (c as u32) as usize
    } else {
        63usize
    }
}

/// The eight rows of the glyph at `index` in the basic Latin table of font8x8.
pub uninterp spec fn legacy_glyph_rows(index: usize) -> Seq<u8>;

/// Reads the glyph at `index` of `font8x8::legacy::BASIC_LEGACY`, a table of
/// 128 glyphs of eight rows each. The contract claims only that the result is
/// the table's entry at `index`.
#[verifier::external_body]
fn legacy_glyph(index: usize) -> (rows: [u8; 8])
    requires
        index < 128,
    ensures
        rows@ == legacy_glyph_rows(index),
{
    font8x8::legacy::BASIC_LEGACY[index]
}

/// Bit `col` of a glyph row says whether that pixel of the row is drawn.
pub open spec fn glyph_lit(rows: Seq<u8>, row: int, col: int) -> bool {
    rows[row] & (1u8 << (col as u8)) != 0
}

/// The screen pixel of glyph bit (`row`, `col`) when the glyph's top-left
/// corner is at (`x`, `y`).
pub open spec fn glyph_point(x: int, y: int, row: int, col: int) -> (usize, usize) {
    ((x + col) as usize, (y + row) as usize)
}

/// `p` is the screen pixel of a lit bit of the glyph `rows` drawn at (`x`, `y`).
pub open spec fn is_glyph_point(rows: Seq<u8>, x: int, y: int, p: (usize, usize)) -> bool {
    exists|row: int, col: int|
        #![trigger glyph_lit(rows, row, col)]
        0 <= row < 8 && 0 <= col < 8 && glyph_lit(rows, row, col) && p == glyph_point(x, y, row, col)
}

/// The screen pixels drawn for the glyph `rows` with its top-left corner at
/// (`x`, `y`): the pixel of each lit bit, and no other.
pub fn glyph_pixels(rows: &[u8; 8], x: usize, y: usize) -> (r: Vec<(usize, usize)>)
    requires
        x + 8 <= usize::MAX,
        y + 8 <= usize::MAX,
    ensures
        forall|k: int| 0 <= k < r@.len() ==> is_glyph_point(rows@, x as int, y as int, #[trigger] r@[k]),
        forall|row: int, col: int|
            0 <= row < 8 && 0 <= col < 8 && #[trigger] glyph_lit(rows@, row, col) ==> r@.contains(
                glyph_point(x as int, y as int, row, col),
            ),
{
    let mut r: Vec<(usize, usize)> = Vec::new();
    let mut row: usize = 0;
    while row < 8
        invariant
            row <= 8,
            x + 8 <= usize::MAX,
            y + 8 <= usize::MAX,
            forall|k: int| 0 <= k < r@.len() ==> is_glyph_point(rows@, x as int, y as int, #[trigger] r@[k]),
            forall|rw: int, cl: int|
                0 <= rw < row && 0 <= cl < 8 && #[trigger] glyph_lit(rows@, rw, cl) ==> r@.contains(
                    glyph_point(x as int, y as int, rw, cl),
                ),
        decreases 8 - row,
    {
        let bits = rows[row];
        let mut col: usize = 0;
        while col < 8
            invariant
                row < 8,
                col <= 8,
                bits == rows@[row as int],
                x + 8 <= usize::MAX,
                y + 8 <= usize::MAX,
                forall|k: int| 0 <= k < r@.len() ==> is_glyph_point(rows@, x as int, y as int, #[trigger] r@[k]),
                forall|rw: int, cl: int|
                    0 <= rw < row && 0 <= cl < 8 && #[trigger] glyph_lit(rows@, rw, cl) ==> r@.contains(
                        glyph_point(x as int, y as int, rw, cl),
                    ),
                forall|cl: int|
                    0 <= cl < col && #[trigger] glyph_lit(rows@, row as int, cl) ==> r@.contains(
                        glyph_point(x as int, y as int, row as int, cl),
                    ),
            decreases 8 - col,
        {
            if bits & (1u8 << (col as u8)) != 0 {
                let ghost before = r@;
                let p = (x + col, y + row);
                r.push(p);
                proof {
                    assert(glyph_lit(rows@, row as int, col as int));
                    assert(p == glyph_point(x as int, y as int, row as int, col as int));
                    assert(r@[r@.len() - 1] == p);
                    assert(is_glyph_point(rows@, x as int, y as int, p));
                    assert forall|k: int| 0 <= k < r@.len() implies is_glyph_point(
                        rows@,
                        x as int,
                        y as int,
                        #[trigger] r@[k],
                    ) by {
                        if k < before.len() {
                            assert(r@[k] == before[k]);
                        }
                    }
                    assert forall|rw: int, cl: int|
                        0 <= rw < row && 0 <= cl < 8 && #[trigger] glyph_lit(rows@, rw, cl) implies r@.contains(
                            glyph_point(x as int, y as int, rw, cl),
                        ) by {
                        let q = glyph_point(x as int, y as int, rw, cl);
                        assert(before.contains(q));
                        let j = choose|j: int| 0 <= j < before.len() && before[j] == q;
                        assert(r@[j] == q);
                    }
                    assert forall|cl: int|
                        0 <= cl <= col && #[trigger] glyph_lit(rows@, row as int, cl) implies r@.contains(
                            glyph_point(x as int, y as int, row as int, cl),
                        ) by {
                        let q = glyph_point(x as int, y as int, row as int, cl);
                        if cl < col {
                            assert(before.contains(q));
                            let j = choose|j: int| 0 <= j < before.len() && before[j] == q;
                            assert(r@[j] == q);
                        } else {
                            assert(r@[r@.len() - 1] == q);
                        }
                    }
                }
            }
            col = col + 1;
        }
        row = row + 1;
    }
    r
}

/// The screen pixels drawn for the character `c` at (`x`, `y`).
pub fn char_pixels(c: char, x: usize, y: usize) -> (r: Vec<(usize, usize)>)
    requires
        x + 8 <= usize::MAX,
        y + 8 <= usize::MAX,
    ensures
        forall|k: int|
            0 <= k < r@.len() ==> is_glyph_point(
                legacy_glyph_rows(glyph_index_of(c) as usize),
                x as int,
                y as int,
                #[trigger] r@[k],
            ),
        forall|row: int, col: int|
            0 <= row < 8 && 0 <= col < 8 && #[trigger] glyph_lit(legacy_glyph_rows(glyph_index_of(c) as usize), row, col)
                ==> r@.contains(glyph_point(x as int, y as int, row, col)),
{
    let rows = legacy_glyph(glyph_index(c));
    glyph_pixels(&rows, x, y)
}

/// One character placed on the screen: the character and its top-left corner.
#[derive(Clone, Copy, Debug, PartialEq, Eq, Structural)]
pub struct Placed {
    pub c: char,
    pub x: usize,
    pub y: usize,
}

/// What one character of a string does: a newline goes to the start of the
/// next text line, a carriage return to the start of the line; any other
/// character is drawn at the cursor, which then moves one glyph right, or to
/// the next line when the next glyph would not fit.
pub open spec fn text_step(width: int, x: int, y: int, c: char) -> (Seq<(char, int, int)>, int, int) {
    if c == '\n' {
        (Seq::empty(), 0, y + 8)
    } else if c == '\r' {
        (Seq::empty(), 0, y)
    } else if x + 16 > width {
        (seq![(c, x, y)], 0, y + 8)
    } else {
        (seq![(c, x, y)], x + 8, y)
    }
}

/// The characters drawn for `s` from index `i`, with the cursor at (`x`, `y`),
/// and where the cursor ends. Output stops after the character that moves the
/// cursor to a line that does not fit on the screen.
pub open spec fn text_layout(width: int, height: int, s: Seq<char>, i: int, x: int, y: int) -> (
    Seq<(char, int, int)>,
    int,
    int,
)
    decreases s.len() - i,
{
    if i >= s.len() || i < 0 {
        (Seq::empty(), x, y)
    } else {
        let (p, x1, y1) = text_step(width, x, y, s[i]);
        if y1 + 8 > height {
            (p, x1, y1)
        } else {
            let (rest, xf, yf) = text_layout(width, height, s, i + 1, x1, y1);
            (p + rest, xf, yf)
        }
    }
}

pub open spec fn placed_view(v: Seq<Placed>) -> Seq<(char, int, int)> {
    v.map_values(|p: Placed| (p.c, p.x as int, p.y as int))
}

/// Lays out `s` on a screen `width` by `height` pixels, starting with the
/// cursor at (`x`, `y`): the characters to draw and where, and the cursor at the end.
pub fn write_string(width: usize, height: usize, x: usize, y: usize, s: &str) -> (r: (Vec<Placed>, usize, usize))
    requires
        x + 16 <= usize::MAX,
        y + 16 <= usize::MAX,
        width + 16 <= usize::MAX,
        height + 16 <= usize::MAX,
    ensures
        ({
            let (v, xf, yf) = text_layout(width as int, height as int, s@, 0, x as int, y as int);
            &&& placed_view(r.0@) == v
            &&& r.1 == xf
            &&& r.2 == yf
        }),
{
    let n = s.unicode_len();
    let ghost full = text_layout(width as int, height as int, s@, 0, x as int, y as int);
    let mut out: Vec<Placed> = Vec::new();
    let mut cx = x;
    let mut cy = y;
    let mut i: usize = 0;
    while i < n
        invariant_except_break
            placed_view(out@) + text_layout(width as int, height as int, s@, i as int, cx as int, cy as int).0
                == full.0,
            text_layout(width as int, height as int, s@, i as int, cx as int, cy as int).1 == full.1,
            text_layout(width as int, height as int, s@, i as int, cx as int, cy as int).2 == full.2,
            cy <= y || cy + 8 <= height,
        invariant
            n == s@.len(),
            i <= n,
            full == text_layout(width as int, height as int, s@, 0, x as int, y as int),
            width + 16 <= usize::MAX,
            height + 16 <= usize::MAX,
            x + 16 <= usize::MAX,
            y + 16 <= usize::MAX,
            cx <= x || cx <= width,
        ensures
            placed_view(out@) == full.0,
            cx == full.1,
            cy == full.2,
        decreases n - i,
    {
        let c = s.get_char(i);
        let ghost before = out@;
        let ghost cx0 = cx as int;
        let ghost cy0 = cy as int;
        let ghost step = text_step(width as int, cx0, cy0, c);
        assert(c == s@[i as int]);
        if c == '\n' {
            cx = 0;
            cy = cy + 8;
        } else if c == '\r' {
            cx = 0;
        } else {
            out.push(Placed { c, x: cx, y: cy });
            if cx + 16 > width {
                cx = 0;
                cy = cy + 8;
            } else {
                cx = cx + 8;
            }
        }
        proof {
            assert(placed_view(out@) =~= placed_view(before) + step.0);
            assert(cx == step.1 && cy == step.2);
        }
        if cy + 8 > height {
            proof {
                assert(text_layout(width as int, height as int, s@, i as int, cx0, cy0) == step);
            }
            break;
        }
        proof {
            let rest = text_layout(width as int, height as int, s@, i + 1, cx as int, cy as int);
            assert(text_layout(width as int, height as int, s@, i as int, cx0, cy0) == (
                step.0 + rest.0,
                rest.1,
                rest.2,
            ));
            assert(placed_view(before) + (step.0 + rest.0) =~= placed_view(out@) + rest.0);
        }
        i = i + 1;
    }
    (out, cx, cy)
}

} // verus!
