//! The overlay popup's bitmap text renderer: a 5x7 pixel font drawn into an
//! RGBA canvas (`[R, G, B, A]` per pixel, row-major).
use vstd::prelude::*;
use vstd::arithmetic::div_mod::lemma_fundamental_div_mod_converse;
use crate::session::UiState;
use crate::text::chars_of;
use vstd::string::{StrSliceExecFns, StringExecFns, StringSliceAdditionalSpecFns};
use vstd::utf8::{decode_utf8, encode_utf8, encode_utf8_decode_utf8, encode_scalar, is_char_boundary};

verus! {

/// Commands accepted by the overlay popup.
pub enum OverlayCmd {
    UpdateState(UiState),
    Quit,
}

/// Side of the overlay's idle icon, in pixels.
pub const OVERLAY_ICON_SIZE: u32 = 32;
/// Width of the overlay's text popup.
pub const POPUP_WIDTH: u32 = 500;
/// Height of the overlay's text popup.
pub const POPUP_HEIGHT: u32 = 120;

/// The overlay's size: the small icon when idle, the text popup otherwise.
pub fn overlay_size(state: &UiState) -> (wh: (u32, u32))
    ensures
        wh == match state {
            UiState::Idle => (OVERLAY_ICON_SIZE, OVERLAY_ICON_SIZE),
            _ => (POPUP_WIDTH, POPUP_HEIGHT),
        },
{
    match state {
        UiState::Idle => (OVERLAY_ICON_SIZE, OVERLAY_ICON_SIZE),
        _ => (POPUP_WIDTH, POPUP_HEIGHT),
    }
}

/// The 5x7 glyph for `c`: seven rows, top first; bit 4 of a row is its
/// leftmost column. Letters are case-insensitive; characters without a glyph
/// show a hollow box.
pub open spec fn spec_glyph(c: char) -> Seq<u8> {
    match c {
        'a' | 'A' => seq![0b01110u8, 0b10001u8, 0b11111u8, 0b10001u8, 0b10001u8, 0b10001u8, 0b10001u8],
        'b' | 'B' => seq![0b11110u8, 0b10001u8, 0b10001u8, 0b11110u8, 0b10001u8, 0b10001u8, 0b11110u8],
        'c' | 'C' => seq![0b01111u8, 0b10000u8, 0b10000u8, 0b10000u8, 0b10000u8, 0b10000u8, 0b01111u8],
        'd' | 'D' => seq![0b11110u8, 0b10001u8, 0b10001u8, 0b10001u8, 0b10001u8, 0b10001u8, 0b11110u8],
        'e' | 'E' => seq![0b11111u8, 0b10000u8, 0b10000u8, 0b11110u8, 0b10000u8, 0b10000u8, 0b11111u8],
        'f' | 'F' => seq![0b11111u8, 0b10000u8, 0b10000u8, 0b11110u8, 0b10000u8, 0b10000u8, 0b10000u8],
        'g' | 'G' => seq![0b01111u8, 0b10000u8, 0b10000u8, 0b10111u8, 0b10001u8, 0b10001u8, 0b01110u8],
        'h' | 'H' => seq![0b10001u8, 0b10001u8, 0b10001u8, 0b11111u8, 0b10001u8, 0b10001u8, 0b10001u8],
        'i' | 'I' => seq![0b11111u8, 0b00100u8, 0b00100u8, 0b00100u8, 0b00100u8, 0b00100u8, 0b11111u8],
        'j' | 'J' => seq![0b11111u8, 0b00010u8, 0b00010u8, 0b00010u8, 0b00010u8, 0b10010u8, 0b01100u8],
        'k' | 'K' => seq![0b10001u8, 0b10010u8, 0b10100u8, 0b11000u8, 0b10100u8, 0b10010u8, 0b10001u8],
        'l' | 'L' => seq![0b10000u8, 0b10000u8, 0b10000u8, 0b10000u8, 0b10000u8, 0b10000u8, 0b11111u8],
        'm' | 'M' => seq![0b10001u8, 0b11011u8, 0b10101u8, 0b10101u8, 0b10001u8, 0b10001u8, 0b10001u8],
        'n' | 'N' => seq![0b10001u8, 0b11001u8, 0b10101u8, 0b10011u8, 0b10001u8, 0b10001u8, 0b10001u8],
        'o' | 'O' => seq![0b01110u8, 0b10001u8, 0b10001u8, 0b10001u8, 0b10001u8, 0b10001u8, 0b01110u8],
        'p' | 'P' => seq![0b11110u8, 0b10001u8, 0b10001u8, 0b11110u8, 0b10000u8, 0b10000u8, 0b10000u8],
        'q' | 'Q' => seq![0b01110u8, 0b10001u8, 0b10001u8, 0b10001u8, 0b10101u8, 0b10010u8, 0b01101u8],
        'r' | 'R' => seq![0b11110u8, 0b10001u8, 0b10001u8, 0b11110u8, 0b10100u8, 0b10010u8, 0b10001u8],
        's' | 'S' => seq![0b01111u8, 0b10000u8, 0b10000u8, 0b01110u8, 0b00001u8, 0b00001u8, 0b11110u8],
        't' | 'T' => seq![0b11111u8, 0b00100u8, 0b00100u8, 0b00100u8, 0b00100u8, 0b00100u8, 0b00100u8],
        'u' | 'U' => seq![0b10001u8, 0b10001u8, 0b10001u8, 0b10001u8, 0b10001u8, 0b10001u8, 0b01110u8],
        'v' | 'V' => seq![0b10001u8, 0b10001u8, 0b10001u8, 0b10001u8, 0b10001u8, 0b01010u8, 0b00100u8],
        'w' | 'W' => seq![0b10001u8, 0b10001u8, 0b10001u8, 0b10101u8, 0b10101u8, 0b10101u8, 0b01010u8],
        'x' | 'X' => seq![0b10001u8, 0b10001u8, 0b01010u8, 0b00100u8, 0b01010u8, 0b10001u8, 0b10001u8],
        'y' | 'Y' => seq![0b10001u8, 0b10001u8, 0b01010u8, 0b00100u8, 0b00100u8, 0b00100u8, 0b00100u8],
        'z' | 'Z' => seq![0b11111u8, 0b00001u8, 0b00010u8, 0b00100u8, 0b01000u8, 0b10000u8, 0b11111u8],
        ' ' => seq![0b00000u8, 0b00000u8, 0b00000u8, 0b00000u8, 0b00000u8, 0b00000u8, 0b00000u8],
        '.' => seq![0b00000u8, 0b00000u8, 0b00000u8, 0b00000u8, 0b00000u8, 0b00100u8, 0b00100u8],
        ',' => seq![0b00000u8, 0b00000u8, 0b00000u8, 0b00000u8, 0b00100u8, 0b00100u8, 0b01000u8],
        '?' => seq![0b01110u8, 0b10001u8, 0b00010u8, 0b00100u8, 0b00100u8, 0b00000u8, 0b00100u8],
        '!' => seq![0b00100u8, 0b00100u8, 0b00100u8, 0b00100u8, 0b00100u8, 0b00000u8, 0b00100u8],
        '-' => seq![0b00000u8, 0b00000u8, 0b00000u8, 0b11111u8, 0b00000u8, 0b00000u8, 0b00000u8],
        '\'' => seq![0b00100u8, 0b00100u8, 0b01000u8, 0b00000u8, 0b00000u8, 0b00000u8, 0b00000u8],
        ':' => seq![0b00000u8, 0b00100u8, 0b00100u8, 0b00000u8, 0b00100u8, 0b00100u8, 0b00000u8],
        ';' => seq![0b00000u8, 0b00100u8, 0b00100u8, 0b00000u8, 0b00100u8, 0b01000u8, 0b00000u8],
        '(' => seq![0b00010u8, 0b00100u8, 0b01000u8, 0b01000u8, 0b01000u8, 0b00100u8, 0b00010u8],
        ')' => seq![0b01000u8, 0b00100u8, 0b00010u8, 0b00010u8, 0b00010u8, 0b00100u8, 0b01000u8],
        _ => seq![0b11111u8, 0b10001u8, 0b10001u8, 0b10001u8, 0b10001u8, 0b10001u8, 0b11111u8],
    }
}

pub fn glyph_rows(c: char) -> (g: [u8; 7])
    ensures
        g@ == spec_glyph(c),
{
    let g: [u8; 7] = match c {
        'a' | 'A' => [0b01110, 0b10001, 0b11111, 0b10001, 0b10001, 0b10001, 0b10001],
        'b' | 'B' => [0b11110, 0b10001, 0b10001, 0b11110, 0b10001, 0b10001, 0b11110],
        'c' | 'C' => [0b01111, 0b10000, 0b10000, 0b10000, 0b10000, 0b10000, 0b01111],
        'd' | 'D' => [0b11110, 0b10001, 0b10001, 0b10001, 0b10001, 0b10001, 0b11110],
        'e' | 'E' => [0b11111, 0b10000, 0b10000, 0b11110, 0b10000, 0b10000, 0b11111],
        'f' | 'F' => [0b11111, 0b10000, 0b10000, 0b11110, 0b10000, 0b10000, 0b10000],
        'g' | 'G' => [0b01111, 0b10000, 0b10000, 0b10111, 0b10001, 0b10001, 0b01110],
        'h' | 'H' => [0b10001, 0b10001, 0b10001, 0b11111, 0b10001, 0b10001, 0b10001],
        'i' | 'I' => [0b11111, 0b00100, 0b00100, 0b00100, 0b00100, 0b00100, 0b11111],
        'j' | 'J' => [0b11111, 0b00010, 0b00010, 0b00010, 0b00010, 0b10010, 0b01100],
        'k' | 'K' => [0b10001, 0b10010, 0b10100, 0b11000, 0b10100, 0b10010, 0b10001],
        'l' | 'L' => [0b10000, 0b10000, 0b10000, 0b10000, 0b10000, 0b10000, 0b11111],
        'm' | 'M' => [0b10001, 0b11011, 0b10101, 0b10101, 0b10001, 0b10001, 0b10001],
        'n' | 'N' => [0b10001, 0b11001, 0b10101, 0b10011, 0b10001, 0b10001, 0b10001],
        'o' | 'O' => [0b01110, 0b10001, 0b10001, 0b10001, 0b10001, 0b10001, 0b01110],
        'p' | 'P' => [0b11110, 0b10001, 0b10001, 0b11110, 0b10000, 0b10000, 0b10000],
        'q' | 'Q' => [0b01110, 0b10001, 0b10001, 0b10001, 0b10101, 0b10010, 0b01101],
        'r' | 'R' => [0b11110, 0b10001, 0b10001, 0b11110, 0b10100, 0b10010, 0b10001],
        's' | 'S' => [0b01111, 0b10000, 0b10000, 0b01110, 0b00001, 0b00001, 0b11110],
        't' | 'T' => [0b11111, 0b00100, 0b00100, 0b00100, 0b00100, 0b00100, 0b00100],
        'u' | 'U' => [0b10001, 0b10001, 0b10001, 0b10001, 0b10001, 0b10001, 0b01110],
        'v' | 'V' => [0b10001, 0b10001, 0b10001, 0b10001, 0b10001, 0b01010, 0b00100],
        'w' | 'W' => [0b10001, 0b10001, 0b10001, 0b10101, 0b10101, 0b10101, 0b01010],
        'x' | 'X' => [0b10001, 0b10001, 0b01010, 0b00100, 0b01010, 0b10001, 0b10001],
        'y' | 'Y' => [0b10001, 0b10001, 0b01010, 0b00100, 0b00100, 0b00100, 0b00100],
        'z' | 'Z' => [0b11111, 0b00001, 0b00010, 0b00100, 0b01000, 0b10000, 0b11111],
        ' ' => [0b00000, 0b00000, 0b00000, 0b00000, 0b00000, 0b00000, 0b00000],
        '.' => [0b00000, 0b00000, 0b00000, 0b00000, 0b00000, 0b00100, 0b00100],
        ',' => [0b00000, 0b00000, 0b00000, 0b00000, 0b00100, 0b00100, 0b01000],
        '?' => [0b01110, 0b10001, 0b00010, 0b00100, 0b00100, 0b00000, 0b00100],
        '!' => [0b00100, 0b00100, 0b00100, 0b00100, 0b00100, 0b00000, 0b00100],
        '-' => [0b00000, 0b00000, 0b00000, 0b11111, 0b00000, 0b00000, 0b00000],
        '\'' => [0b00100, 0b00100, 0b01000, 0b00000, 0b00000, 0b00000, 0b00000],
        ':' => [0b00000, 0b00100, 0b00100, 0b00000, 0b00100, 0b00100, 0b00000],
        ';' => [0b00000, 0b00100, 0b00100, 0b00000, 0b00100, 0b01000, 0b00000],
        '(' => [0b00010, 0b00100, 0b01000, 0b01000, 0b01000, 0b00100, 0b00010],
        ')' => [0b01000, 0b00100, 0b00010, 0b00010, 0b00010, 0b00100, 0b01000],
        _ => [0b11111, 0b10001, 0b10001, 0b10001, 0b10001, 0b10001, 0b11111],
    };
    assert(g@ =~= spec_glyph(c));
    g
}

/// Whether glyph cell (`dx`, `dy`) of `c` is lit.
pub open spec fn glyph_on(c: char, dx: int, dy: int) -> bool {
    &&& 0 <= dx < 5
    &&& 0 <= dy < 7
    &&& (spec_glyph(c)[dy] >> ((4 - dx) as u8)) & 1u8 == 1u8
}

/// The upper-case form of the lower-case ASCII letter `c`.
pub open spec fn ascii_upper(c: char) -> char {
    ((c as u32) - 32) as char
}

proof fn lemma_glyph_case(c: char)
    requires
        'a' <= c <= 'z',
    ensures
        spec_glyph(c) == spec_glyph(ascii_upper(c)),
{
    let u = ascii_upper(c);
    assert(u as u32 == c as u32 - 32);
}

/// Letters are drawn the same in either case: drawing a lower-case ASCII
/// letter paints exactly what drawing its upper-case form paints.
pub proof fn lemma_letter_case(
    canvas: Seq<u8>,
    width: i32,
    height: i32,
    c: char,
    x: i32,
    y: i32,
    color: (u8, u8, u8),
)
    requires
        'a' <= c <= 'z',
    ensures
        spec_draw_char(canvas, width, height, c, x, y, color) == spec_draw_char(
            canvas,
            width,
            height,
            ascii_upper(c),
            x,
            y,
            color,
        ),
{
    lemma_glyph_case(c);
    assert(spec_draw_char(canvas, width, height, c, x, y, color) =~= spec_draw_char(
        canvas,
        width,
        height,
        ascii_upper(c),
        x,
        y,
        color,
    ));
}

/// Byte `k` of a pixel painted in `color`: red, green, blue, opaque alpha.
pub open spec fn color_byte(color: (u8, u8, u8), k: int) -> u8 {
    if k == 0 {
        color.0
    } else if k == 1 {
        color.1
    } else if k == 2 {
        color.2
    } else {
        0xFFu8
    }
}

/// Whether pixel `p` of a `width`-wide canvas of `len` bytes is painted by
/// one of the glyph cells numbered below `q` (cells are numbered row by row,
/// `dy * 5 + dx`): the cell is lit, the pixel is inside the
/// `width` x `height` area and all four of its bytes are in the canvas.
pub open spec fn covered(
    width: i32,
    height: i32,
    c: char,
    x: i32,
    y: i32,
    len: int,
    q: int,
    p: int,
) -> bool {
    &&& width > 0
    &&& 0 <= p
    &&& p / (width as int) < height
    &&& glyph_on(c, p % (width as int) - x, p / (width as int) - y)
    &&& (p / (width as int) - y) * 5 + (p % (width as int) - x) < q
    &&& p * 4 + 3 < len
}

/// `canvas` with the glyph cells below `q` painted.
pub open spec fn painted(
    canvas: Seq<u8>,
    width: i32,
    height: i32,
    c: char,
    x: i32,
    y: i32,
    color: (u8, u8, u8),
    q: int,
) -> Seq<u8> {
    Seq::new(
        canvas.len(),
        |j: int|
            if covered(width, height, c, x, y, canvas.len() as int, q, j / 4) {
                color_byte(color, j % 4)
            } else {
                canvas[j]
            },
    )
}

/// `canvas` after drawing glyph `c` with its top-left corner at (`x`, `y`).
pub open spec fn spec_draw_char(
    canvas: Seq<u8>,
    width: i32,
    height: i32,
    c: char,
    x: i32,
    y: i32,
    color: (u8, u8, u8),
) -> Seq<u8> {
    painted(canvas, width, height, c, x, y, color, 35)
}

/// Whether the offset of pixel (`px`, `py`) fits the machine integers when
/// the pixel lies in the `width` x `height` area: its index
/// `py * width + px` fits `i32` and its byte offset `4 * index` fits `usize`.
pub open spec fn offset_fits(width: i32, height: i32, px: int, py: int) -> bool {
    (0 <= px < width && 0 <= py < height) ==> {
        &&& py * width + px <= i32::MAX
        &&& 4 * (py * width + px) <= usize::MAX
    }
}

/// Whether drawing glyph `c` at (`x`, `y`) keeps every computed coordinate
/// and offset within the machine integers: for each lit cell, the pixel's
/// coordinates fit `i32` and its offset fits (see [`offset_fits`]).
pub open spec fn glyph_fits(width: i32, height: i32, c: char, x: i32, y: i32) -> bool {
    forall|dx: int, dy: int|
        #[trigger] glyph_on(c, dx, dy) ==> {
            &&& x + dx <= i32::MAX
            &&& y + dy <= i32::MAX
            &&& offset_fits(width, height, x + dx, y + dy)
        }
}

/// Adding glyph cell `q` = (`dx`, `dy`) to the painted set adds exactly the
/// pixel under that cell, when the cell is lit and the pixel is drawable.
proof fn lemma_cover_step(
    width: i32,
    height: i32,
    c: char,
    x: i32,
    y: i32,
    len: int,
    dx: int,
    dy: int,
    p: int,
)
    requires
        0 <= dx < 5,
        0 <= dy < 7,
    ensures
        covered(width, height, c, x, y, len, dy * 5 + dx + 1, p) == (covered(
            width,
            height,
            c,
            x,
            y,
            len,
            dy * 5 + dx,
            p,
        ) || ({
            &&& glyph_on(c, dx, dy)
            &&& 0 <= x + dx < width
            &&& 0 <= y + dy < height
            &&& p == (y + dy) * width + (x + dx)
            &&& p * 4 + 3 < len
        })),
{
    let q = dy * 5 + dx;
    if width > 0 {
        let w = width as int;
        if 0 <= p {
            let a = p / w - y;
            let b = p % w - x;
            if covered(width, height, c, x, y, len, q + 1, p) && !covered(
                width,
                height,
                c,
                x,
                y,
                len,
                q,
                p,
            ) {
                assert(a * 5 + b == q);
                assert(a == dy && b == dx);
                assert(p == (p / w) * w + p % w) by {
                    vstd::arithmetic::div_mod::lemma_fundamental_div_mod(p, w);
                    vstd::arithmetic::mul::lemma_mul_is_commutative(w, p / w);
                }
                assert(p / w >= 0) by {
                    vstd::arithmetic::div_mod::lemma_div_pos_is_pos(p, w);
                }
                assert(p % w < w) by {
                    vstd::arithmetic::div_mod::lemma_mod_bound(p, w);
                }
            }
            if glyph_on(c, dx, dy) && 0 <= x + dx < width && 0 <= y + dy < height && p == (y + dy)
                * width + (x + dx) && p * 4 + 3 < len {
                lemma_fundamental_div_mod_converse(p, w, y + dy, x + dx);
                assert(covered(width, height, c, x, y, len, q + 1, p));
            }
        }
    }
}

/// Draws glyph `c` in `color` with its top-left corner at (`x`, `y`); pixels
/// outside the `width` x `height` area or beyond the canvas are skipped.
pub fn draw_char(
    canvas: &mut [u8],
    width: i32,
    height: i32,
    c: char,
    x: i32,
    y: i32,
    color: (u8, u8, u8),
)
    requires
        glyph_fits(width, height, c, x, y),
    ensures
        final(canvas)@ == spec_draw_char(old(canvas)@, width, height, c, x, y, color),
{
    let rows = glyph_rows(c);
    let (r, g, b) = color;
    let ghost base = canvas@;
    let ghost len = canvas@.len() as int;
    assert(canvas@ =~= painted(base, width, height, c, x, y, color, 0));
    let mut dy: usize = 0;
    while dy < 7
        invariant
            0 <= dy <= 7,
            rows@ == spec_glyph(c),
            canvas@.len() == len,
            base.len() == len,
            canvas@ == painted(base, width, height, c, x, y, color, dy * 5),
            glyph_fits(width, height, c, x, y),
            color == (r, g, b),
        decreases 7 - dy,
    {
        let row = rows[dy];
        let mut dx: usize = 0;
        while dx < 5
            invariant
                0 <= dy < 7,
                0 <= dx <= 5,
                row == spec_glyph(c)[dy as int],
                canvas@.len() == len,
                base.len() == len,
                canvas@ == painted(base, width, height, c, x, y, color, dy * 5 + dx),
                glyph_fits(width, height, c, x, y),
                color == (r, g, b),
            decreases 5 - dx,
        {
            let ghost q = (dy * 5 + dx) as int;
            let ghost before = canvas@;
            let lit = (row >> ((4 - dx) as u8)) & 1u8 == 1u8;
            assert(lit == glyph_on(c, dx as int, dy as int));
            let px = if lit {
                x + dx as i32
            } else {
                0
            };
            let py = if lit {
                y + dy as i32
            } else {
                0
            };
            if lit && px >= 0 && px < width && py >= 0 && py < height {
                assert(offset_fits(width, height, px as int, py as int));
                assert(0 <= (py as int) * (width as int)) by (nonlinear_arith)
                    requires
                        0 <= py,
                        0 < width,
                ;
                let pix = py * width + px;
                let idx = (pix as usize) * 4;
                if idx < canvas.len() && canvas.len() - idx > 3 {
                    canvas[idx] = r;
                    canvas[idx + 1] = g;
                    canvas[idx + 2] = b;
                    canvas[idx + 3] = 0xFFu8;
                    proof {
                        assert forall|j: int| 0 <= j < len implies #[trigger] canvas@[j] == painted(
                            base,
                            width,
                            height,
                            c,
                            x,
                            y,
                            color,
                            q + 1,
                        )[j] by {
                            lemma_cover_step(width, height, c, x, y, len, dx as int, dy as int, j / 4);
                        }
                    }
                } else {
                    proof {
                        assert forall|j: int| 0 <= j < len implies #[trigger] canvas@[j] == painted(
                            base,
                            width,
                            height,
                            c,
                            x,
                            y,
                            color,
                            q + 1,
                        )[j] by {
                            lemma_cover_step(width, height, c, x, y, len, dx as int, dy as int, j / 4);
                        }
                    }
                }
            } else {
                proof {
                    assert forall|j: int| 0 <= j < len implies #[trigger] canvas@[j] == painted(
                        base,
                        width,
                        height,
                        c,
                        x,
                        y,
                        color,
                        q + 1,
                    )[j] by {
                        lemma_cover_step(width, height, c, x, y, len, dx as int, dy as int, j / 4);
                    }
                }
            }
            assert(canvas@ =~= painted(base, width, height, c, x, y, color, q + 1));
            dx = dx + 1;
        }
        dy = dy + 1;
    }
}

/// Text color of the overlay.
pub open spec fn white() -> (u8, u8, u8) {
    (255u8, 255u8, 255u8)
}

/// The text shown for `text`: at most 80 bytes; longer text keeps its last
/// 77 bytes behind an ellipsis.
pub open spec fn display_chars(text: &str) -> Seq<char> {
    let b = text.spec_bytes();
    if b.len() > 80 {
        "..."@ + decode_utf8(b.skip(b.len() - 77))
    } else {
        text@
    }
}

/// Characters per line: `(width - x_start - 20) / 9`, rounded toward zero.
pub open spec fn line_capacity(width: i32, x_start: i32) -> i32 {
    let a = width - x_start - 20;
    (if a >= 0 {
        a / 9
    } else {
        -((-a) / 9)
    }) as i32
}

/// Laying out `chars` from pen position (`x`, `y`) with `count` characters
/// already on the current line: a newline or a full line moves the pen to
/// the start of the next line (22 px lower) and ends the text once that line
/// would not fit; every other character is drawn and advances the pen 9 px.
pub open spec fn render_chars(
    canvas: Seq<u8>,
    width: i32,
    height: i32,
    chars: Seq<char>,
    x_start: i32,
    x: int,
    y: int,
    count: int,
    max: usize,
) -> Seq<u8>
    decreases chars.len(),
{
    if chars.len() == 0 {
        canvas
    } else {
        let c = chars[0];
        if c == '\n' || count >= max {
            let y2 = y + 22;
            if y2 > height - 22 {
                canvas
            } else if c == '\n' {
                render_chars(canvas, width, height, chars.drop_first(), x_start, x_start as int, y2, 0, max)
            } else {
                render_chars(
                    spec_draw_char(canvas, width, height, c, x_start, y2 as i32, white()),
                    width,
                    height,
                    chars.drop_first(),
                    x_start,
                    x_start + 9,
                    y2,
                    1,
                    max,
                )
            }
        } else {
            render_chars(
                spec_draw_char(canvas, width, height, c, x as i32, y as i32, white()),
                width,
                height,
                chars.drop_first(),
                x_start,
                x + 9,
                y,
                count + 1,
                max,
            )
        }
    }
}

/// Whether laying out `chars` from pen position (`x`, `y`) keeps every
/// coordinate and offset the layout computes within the machine integers:
/// each drawn glyph must fit (see [`glyph_fits`]) and leave room for the
/// pen's 9 px advance, and each line break computes the next line's top
/// (and `height - 22` to compare it with).
pub open spec fn layout_fits(
    width: i32,
    height: i32,
    chars: Seq<char>,
    x_start: i32,
    x: int,
    y: int,
    count: int,
    max: usize,
) -> bool
    decreases chars.len(),
{
    if chars.len() == 0 {
        true
    } else {
        let c = chars[0];
        if c == '\n' || count >= max {
            let y2 = y + 22;
            &&& y2 <= i32::MAX
            &&& height >= i32::MIN + 22
            &&& (y2 > height - 22 || if c == '\n' {
                layout_fits(width, height, chars.drop_first(), x_start, x_start as int, y2, 0, max)
            } else {
                &&& x_start + 9 <= i32::MAX
                &&& glyph_fits(width, height, c, x_start, y2 as i32)
                &&& layout_fits(width, height, chars.drop_first(), x_start, x_start + 9, y2, 1, max)
            })
        } else {
            &&& x + 9 <= i32::MAX
            &&& glyph_fits(width, height, c, x as i32, y as i32)
            &&& layout_fits(width, height, chars.drop_first(), x_start, x + 9, y, count + 1, max)
        }
    }
}

proof fn lemma_chars_within_bytes(chars: Seq<char>)
    ensures
        chars.len() <= encode_utf8(chars).len(),
    decreases chars.len(),
{
    if chars.len() > 0 {
        lemma_chars_within_bytes(chars.drop_first());
        assert(encode_scalar(chars[0] as u32).len() >= 1);
    }
}

/// The text shown for `text`, as a string.
pub fn display_text(text: &str) -> (d: String)
    requires
        text.spec_bytes().len() <= usize::MAX,
        text.spec_bytes().len() <= 80 || is_char_boundary(
            text.spec_bytes(),
            text.spec_bytes().len() - 77,
        ),
    ensures
        d@ == display_chars(text),
        d@.len() <= 80,
{
    let n = text.len();
    assert(n as int == text.spec_bytes().len());
    if n > 80 {
        let (_, tail) = text.split_at(n - 77);
        let mut d = String::from_str("...");
        d.append(tail);
        proof {
            reveal_strlit("...");
            encode_utf8_decode_utf8(tail@);
            assert(text.spec_bytes().skip(n - 77) =~= text.spec_bytes().subrange(n - 77, n as int));
            lemma_chars_within_bytes(tail@);
        }
        d
    } else {
        proof {
            lemma_chars_within_bytes(text@);
        }
        String::from_str(text)
    }
}

/// Writes `text` in white, starting at (`x_start`, `y_start`), wrapping at
/// newlines and at the line capacity, and stopping at the first line that
/// would not fit the canvas height.
pub fn render_text(
    canvas: &mut [u8],
    width: i32,
    height: i32,
    text: &str,
    x_start: i32,
    y_start: i32,
)
    requires
        text.spec_bytes().len() <= usize::MAX,
        text.spec_bytes().len() <= 80 || is_char_boundary(
            text.spec_bytes(),
            text.spec_bytes().len() - 77,
        ),
        i32::MIN <= width - x_start - 20 <= i32::MAX,
        layout_fits(
            width,
            height,
            display_chars(text),
            x_start,
            x_start as int,
            y_start as int,
            0,
            #[verifier::truncate] (line_capacity(width, x_start) as usize),
        ),
    ensures
        final(canvas)@ == render_chars(
            old(canvas)@,
            width,
            height,
            display_chars(text),
            x_start,
            x_start as int,
            y_start as int,
            0,
            #[verifier::truncate] (line_capacity(width, x_start) as usize),
        ),
{
    let d = display_text(text);
    let cs = chars_of(d.as_str());
    let a: i64 = width as i64 - x_start as i64 - 20;
    let m: i64 = if a >= 0 {
        a / 9
    } else {
        -((-a) / 9)
    };
    let max_chars = #[verifier::truncate] ((m as i32) as usize);
    assert(max_chars == line_capacity(width, x_start) as usize);
    let n = cs.len();
    let mut x = x_start;
    let mut y = y_start;
    let mut count: usize = 0;
    let mut i: usize = 0;
    let ghost target = render_chars(
        canvas@,
        width,
        height,
        cs@,
        x_start,
        x_start as int,
        y_start as int,
        0,
        max_chars,
    );
    assert(cs@.skip(0) =~= cs@);
    while i < n
        invariant
            cs@ == display_chars(text),
            n == cs@.len(),
            n <= 80,
            i <= n,
            count <= i,
            layout_fits(width, height, cs@.skip(i as int), x_start, x as int, y as int, count as int, max_chars),
            y_start <= y,
            x_start <= x,
            render_chars(canvas@, width, height, cs@.skip(i as int), x_start, x as int, y as int, count as int, max_chars) == target,
            max_chars == line_capacity(width, x_start) as usize,
            target == render_chars(
                old(canvas)@,
                width,
                height,
                display_chars(text),
                x_start,
                x_start as int,
                y_start as int,
                0,
                line_capacity(width, x_start) as usize,
            ),
        decreases n - i,
    {
        let c = cs[i];
        let ghost rest = cs@.skip(i as int);
        assert(rest[0] == c);
        assert(rest.drop_first() =~= cs@.skip(i + 1));
        if c == '\n' || count >= max_chars {
            if y + 22 > height - 22 {
                assert(rest.len() > 0);
                assert(render_chars(canvas@, width, height, rest, x_start, x as int, y as int, count as int, max_chars) == canvas@);
                return;
            }
            x = x_start;
            y = y + 22;
            count = 0;
            if c == '\n' {
                i = i + 1;
                continue;
            }
        }
        draw_char(canvas, width, height, c, x, y, (255u8, 255u8, 255u8));
        x = x + 9;
        count = count + 1;
        i = i + 1;
    }
    assert(cs@.skip(n as int) =~= Seq::<char>::empty());
}

} // verus!
