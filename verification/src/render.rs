//! Software rendering for the arcade front end: rectangles, a 5x7 bitmap
//! font, and the screens built from them. The frame buffer is a row-major
//! slice of `FRONTEND_WIDTH * FRONTEND_HEIGHT` RGB pixels.
use vstd::prelude::*;

use crate::text::{decimal, push_decimal};
use crate::machine::{Chip8, DISPLAY_HEIGHT, DISPLAY_SIZE, DISPLAY_WIDTH};

verus! {

pub const FRONTEND_WIDTH: usize = 640;
pub const FRONTEND_HEIGHT: usize = 360;
pub const FRONTEND_SIZE: usize = FRONTEND_WIDTH * FRONTEND_HEIGHT;

pub const FG_COLOR: u32 = 0x00_E8_FF_D6;
pub const BG_COLOR: u32 = 0x00_10_14_16;
pub const MENU_BG: u32 = 0x00_0B_0F_10;
pub const MENU_FG: u32 = 0x00_E9_F5_E7;
pub const MENU_DIM: u32 = 0x00_83_96_8D;
pub const MENU_ACCENT: u32 = 0x00_F0_C8_5A;
pub const MENU_DANGER: u32 = 0x00_E8_5D_75;

/// The smaller of `a` and `b`.
pub open spec fn min(a: int, b: int) -> int {
    if a < b { a } else { b }
}

/// Whether pixel `p` of the frame lies in the rectangle at (`x`, `y`) of size
/// `w` x `h`, clipped to the frame.
pub open spec fn in_rect(p: int, x: int, y: int, w: int, h: int) -> bool {
    let px = p % (FRONTEND_WIDTH as int);
    let py = p / (FRONTEND_WIDTH as int);
    &&& x <= px < x + w
    &&& y <= py < min(y + h, FRONTEND_HEIGHT as int)
}

/// The frame `buf` with the clipped rectangle filled with `color`.
pub open spec fn fill_rect_spec(buf: Seq<u32>, x: int, y: int, w: int, h: int, color: u32) -> Seq<u32> {
    Seq::new(buf.len(), |p: int| if in_rect(p, x, y, w, h) { color } else { buf[p] })
}

/// Every pixel of the clipped rectangle lies inside a buffer of length `len`.
pub open spec fn rect_fits(len: int, x: int, y: int, w: int, h: int) -> bool {
    let x_end = min(x + w, FRONTEND_WIDTH as int);
    let y_end = min(y + h, FRONTEND_HEIGHT as int);
    x < x_end && y < y_end ==> (y_end - 1) * (FRONTEND_WIDTH as int) + x_end - 1 < len
}

/// Fills every pixel of `buffer` with `color`.
pub fn clear(buffer: &mut [u32], color: u32)
    ensures
        final(buffer)@ == Seq::new(old(buffer)@.len(), |p: int| color),
{
    let mut k: usize = 0;
    while k < buffer.len()
        invariant
            k <= buffer@.len(),
            buffer@.len() == old(buffer)@.len(),
            forall|p: int| 0 <= p < k ==> #[trigger] buffer@[p] == color,
        decreases buffer@.len() - k,
    {
        buffer[k] = color;
        k += 1;
    }
    assert(buffer@ =~= Seq::new(old(buffer)@.len(), |p: int| color));
}

/// Fills the rectangle at (`x`, `y`) of size `width` x `height` with `color`,
/// clipped to the right and bottom edges of the frame.
pub fn fill_rect(buffer: &mut [u32], x: usize, y: usize, width: usize, height: usize, color: u32)
    requires
        x + width <= usize::MAX,
        y + height <= usize::MAX,
        rect_fits(old(buffer)@.len() as int, x as int, y as int, width as int, height as int),
    ensures
        final(buffer)@ == fill_rect_spec(old(buffer)@, x as int, y as int, width as int, height as int, color),
{
    let x_end = if x + width < FRONTEND_WIDTH { x + width } else { FRONTEND_WIDTH };
    let y_end = if y + height < FRONTEND_HEIGHT { y + height } else { FRONTEND_HEIGHT };
    let ghost old_buf = buffer@;
    let ghost w = FRONTEND_WIDTH as int;
    let mut py: usize = y;
    while py < y_end
        invariant
            y <= py,
            y <= y_end ==> py <= y_end,
            w == FRONTEND_WIDTH as int,
            y_end <= FRONTEND_HEIGHT,
            x_end <= FRONTEND_WIDTH,
            x_end == min(x + width, FRONTEND_WIDTH as int),
            y_end == min(y + height, FRONTEND_HEIGHT as int),
            rect_fits(old_buf.len() as int, x as int, y as int, width as int, height as int),
            buffer@.len() == old_buf.len(),
            forall|p: int| 0 <= p < old_buf.len() ==> #[trigger] buffer@[p] == (
                if in_rect(p, x as int, y as int, width as int, py - y) { color } else { old_buf[p] }),
        decreases y_end - py,
    {
        let row = py * FRONTEND_WIDTH;
        let mut px: usize = x;
        while px < x_end
            invariant
                y <= py < y_end,
                x <= px,
                x <= x_end ==> px <= x_end,
                w == FRONTEND_WIDTH as int,
                y_end <= FRONTEND_HEIGHT,
                x_end <= FRONTEND_WIDTH,
                x_end == min(x + width, FRONTEND_WIDTH as int),
                y_end == min(y + height, FRONTEND_HEIGHT as int),
                row == py * FRONTEND_WIDTH,
                rect_fits(old_buf.len() as int, x as int, y as int, width as int, height as int),
                buffer@.len() == old_buf.len(),
                forall|p: int| 0 <= p < old_buf.len() ==> #[trigger] buffer@[p] == (
                    if in_rect(p, x as int, y as int, width as int, py - y)
                        || (p / w == py && x <= p % w < px) { color } else { old_buf[p] }),
            decreases x_end - px,
        {
            proof {
                assert((row + px) as int == py * w + px);
                assert(row + px < old_buf.len()) by (nonlinear_arith)
                    requires
                        row == py * 640,
                        py < y_end,
                        px < x_end,
                        x <= px,
                        y <= py,
                        (y_end - 1) * 640 + x_end - 1 < old_buf.len(),
                ;
                assert((py * w + px) / w == py && (py * w + px) % w == px) by (nonlinear_arith)
                    requires w == 640, px < 640, 0 <= py;
            }
            buffer[row + px] = color;
            px += 1;
        }
        assert forall|p: int| 0 <= p < old_buf.len() implies (in_rect(p, x as int, y as int, width as int, py - y)
            || (p / w == py && x <= p % w < px)) == #[trigger] in_rect(p, x as int, y as int, width as int, py + 1 - y) by {
            assert(0 <= p % w < w);
        }
        py += 1;
    }
    assert(buffer@ =~= fill_rect_spec(old_buf, x as int, y as int, width as int, height as int, color));
}


/// The 5x7 bitmap of a character, one byte per row with the leftmost column
/// in bit 4; letters of either case share one glyph. `None` for a character
/// the font lacks.
pub open spec fn glyph_spec(ch: char) -> Option<Seq<u8>> {
    match ch {
        '0' => Some(seq![0x0E, 0x11, 0x13, 0x15, 0x19, 0x11, 0x0E]),
        '1' => Some(seq![0x04, 0x0C, 0x04, 0x04, 0x04, 0x04, 0x0E]),
        '2' => Some(seq![0x0E, 0x11, 0x01, 0x02, 0x04, 0x08, 0x1F]),
        '3' => Some(seq![0x1E, 0x01, 0x01, 0x0E, 0x01, 0x01, 0x1E]),
        '4' => Some(seq![0x02, 0x06, 0x0A, 0x12, 0x1F, 0x02, 0x02]),
        '5' => Some(seq![0x1F, 0x10, 0x10, 0x1E, 0x01, 0x01, 0x1E]),
        '6' => Some(seq![0x06, 0x08, 0x10, 0x1E, 0x11, 0x11, 0x0E]),
        '7' => Some(seq![0x1F, 0x01, 0x02, 0x04, 0x08, 0x08, 0x08]),
        '8' => Some(seq![0x0E, 0x11, 0x11, 0x0E, 0x11, 0x11, 0x0E]),
        '9' => Some(seq![0x0E, 0x11, 0x11, 0x0F, 0x01, 0x02, 0x0C]),
        'A' | 'a' => Some(seq![0x0E, 0x11, 0x11, 0x1F, 0x11, 0x11, 0x11]),
        'B' | 'b' => Some(seq![0x1E, 0x11, 0x11, 0x1E, 0x11, 0x11, 0x1E]),
        'C' | 'c' => Some(seq![0x0E, 0x11, 0x10, 0x10, 0x10, 0x11, 0x0E]),
        'D' | 'd' => Some(seq![0x1E, 0x11, 0x11, 0x11, 0x11, 0x11, 0x1E]),
        'E' | 'e' => Some(seq![0x1F, 0x10, 0x10, 0x1E, 0x10, 0x10, 0x1F]),
        'F' | 'f' => Some(seq![0x1F, 0x10, 0x10, 0x1E, 0x10, 0x10, 0x10]),
        'G' | 'g' => Some(seq![0x0E, 0x11, 0x10, 0x17, 0x11, 0x11, 0x0F]),
        'H' | 'h' => Some(seq![0x11, 0x11, 0x11, 0x1F, 0x11, 0x11, 0x11]),
        'I' | 'i' => Some(seq![0x0E, 0x04, 0x04, 0x04, 0x04, 0x04, 0x0E]),
        'J' | 'j' => Some(seq![0x01, 0x01, 0x01, 0x01, 0x11, 0x11, 0x0E]),
        'K' | 'k' => Some(seq![0x11, 0x12, 0x14, 0x18, 0x14, 0x12, 0x11]),
        'L' | 'l' => Some(seq![0x10, 0x10, 0x10, 0x10, 0x10, 0x10, 0x1F]),
        'M' | 'm' => Some(seq![0x11, 0x1B, 0x15, 0x15, 0x11, 0x11, 0x11]),
        'N' | 'n' => Some(seq![0x11, 0x19, 0x15, 0x13, 0x11, 0x11, 0x11]),
        'O' | 'o' => Some(seq![0x0E, 0x11, 0x11, 0x11, 0x11, 0x11, 0x0E]),
        'P' | 'p' => Some(seq![0x1E, 0x11, 0x11, 0x1E, 0x10, 0x10, 0x10]),
        'Q' | 'q' => Some(seq![0x0E, 0x11, 0x11, 0x11, 0x15, 0x12, 0x0D]),
        'R' | 'r' => Some(seq![0x1E, 0x11, 0x11, 0x1E, 0x14, 0x12, 0x11]),
        'S' | 's' => Some(seq![0x0F, 0x10, 0x10, 0x0E, 0x01, 0x01, 0x1E]),
        'T' | 't' => Some(seq![0x1F, 0x04, 0x04, 0x04, 0x04, 0x04, 0x04]),
        'U' | 'u' => Some(seq![0x11, 0x11, 0x11, 0x11, 0x11, 0x11, 0x0E]),
        'V' | 'v' => Some(seq![0x11, 0x11, 0x11, 0x11, 0x11, 0x0A, 0x04]),
        'W' | 'w' => Some(seq![0x11, 0x11, 0x11, 0x15, 0x15, 0x15, 0x0A]),
        'X' | 'x' => Some(seq![0x11, 0x11, 0x0A, 0x04, 0x0A, 0x11, 0x11]),
        'Y' | 'y' => Some(seq![0x11, 0x11, 0x0A, 0x04, 0x04, 0x04, 0x04]),
        'Z' | 'z' => Some(seq![0x1F, 0x01, 0x02, 0x04, 0x08, 0x10, 0x1F]),
        '-' => Some(seq![0x00, 0x00, 0x00, 0x1F, 0x00, 0x00, 0x00]),
        '/' => Some(seq![0x01, 0x01, 0x02, 0x04, 0x08, 0x10, 0x10]),
        ':' => Some(seq![0x00, 0x04, 0x04, 0x00, 0x04, 0x04, 0x00]),
        _ => None,
    }
}

/// The glyph of `ch`, if the font has one.
pub fn glyph(ch: char) -> (g: Option<[u8; 7]>)
    ensures
        match glyph_spec(ch) {
            Some(rows) => g matches Some(a) && a@ == rows,
            None => g is None,
        },
{
    let g = match ch {
        '0' => Some([0x0E, 0x11, 0x13, 0x15, 0x19, 0x11, 0x0E]),
        '1' => Some([0x04, 0x0C, 0x04, 0x04, 0x04, 0x04, 0x0E]),
        '2' => Some([0x0E, 0x11, 0x01, 0x02, 0x04, 0x08, 0x1F]),
        '3' => Some([0x1E, 0x01, 0x01, 0x0E, 0x01, 0x01, 0x1E]),
        '4' => Some([0x02, 0x06, 0x0A, 0x12, 0x1F, 0x02, 0x02]),
        '5' => Some([0x1F, 0x10, 0x10, 0x1E, 0x01, 0x01, 0x1E]),
        '6' => Some([0x06, 0x08, 0x10, 0x1E, 0x11, 0x11, 0x0E]),
        '7' => Some([0x1F, 0x01, 0x02, 0x04, 0x08, 0x08, 0x08]),
        '8' => Some([0x0E, 0x11, 0x11, 0x0E, 0x11, 0x11, 0x0E]),
        '9' => Some([0x0E, 0x11, 0x11, 0x0F, 0x01, 0x02, 0x0C]),
        'A' | 'a' => Some([0x0E, 0x11, 0x11, 0x1F, 0x11, 0x11, 0x11]),
        'B' | 'b' => Some([0x1E, 0x11, 0x11, 0x1E, 0x11, 0x11, 0x1E]),
        'C' | 'c' => Some([0x0E, 0x11, 0x10, 0x10, 0x10, 0x11, 0x0E]),
        'D' | 'd' => Some([0x1E, 0x11, 0x11, 0x11, 0x11, 0x11, 0x1E]),
        'E' | 'e' => Some([0x1F, 0x10, 0x10, 0x1E, 0x10, 0x10, 0x1F]),
        'F' | 'f' => Some([0x1F, 0x10, 0x10, 0x1E, 0x10, 0x10, 0x10]),
        'G' | 'g' => Some([0x0E, 0x11, 0x10, 0x17, 0x11, 0x11, 0x0F]),
        'H' | 'h' => Some([0x11, 0x11, 0x11, 0x1F, 0x11, 0x11, 0x11]),
        'I' | 'i' => Some([0x0E, 0x04, 0x04, 0x04, 0x04, 0x04, 0x0E]),
        'J' | 'j' => Some([0x01, 0x01, 0x01, 0x01, 0x11, 0x11, 0x0E]),
        'K' | 'k' => Some([0x11, 0x12, 0x14, 0x18, 0x14, 0x12, 0x11]),
        'L' | 'l' => Some([0x10, 0x10, 0x10, 0x10, 0x10, 0x10, 0x1F]),
        'M' | 'm' => Some([0x11, 0x1B, 0x15, 0x15, 0x11, 0x11, 0x11]),
        'N' | 'n' => Some([0x11, 0x19, 0x15, 0x13, 0x11, 0x11, 0x11]),
        'O' | 'o' => Some([0x0E, 0x11, 0x11, 0x11, 0x11, 0x11, 0x0E]),
        'P' | 'p' => Some([0x1E, 0x11, 0x11, 0x1E, 0x10, 0x10, 0x10]),
        'Q' | 'q' => Some([0x0E, 0x11, 0x11, 0x11, 0x15, 0x12, 0x0D]),
        'R' | 'r' => Some([0x1E, 0x11, 0x11, 0x1E, 0x14, 0x12, 0x11]),
        'S' | 's' => Some([0x0F, 0x10, 0x10, 0x0E, 0x01, 0x01, 0x1E]),
        'T' | 't' => Some([0x1F, 0x04, 0x04, 0x04, 0x04, 0x04, 0x04]),
        'U' | 'u' => Some([0x11, 0x11, 0x11, 0x11, 0x11, 0x11, 0x0E]),
        'V' | 'v' => Some([0x11, 0x11, 0x11, 0x11, 0x11, 0x0A, 0x04]),
        'W' | 'w' => Some([0x11, 0x11, 0x11, 0x15, 0x15, 0x15, 0x0A]),
        'X' | 'x' => Some([0x11, 0x11, 0x0A, 0x04, 0x0A, 0x11, 0x11]),
        'Y' | 'y' => Some([0x11, 0x11, 0x0A, 0x04, 0x04, 0x04, 0x04]),
        'Z' | 'z' => Some([0x1F, 0x01, 0x02, 0x04, 0x08, 0x10, 0x1F]),
        '-' => Some([0x00, 0x00, 0x00, 0x1F, 0x00, 0x00, 0x00]),
        '/' => Some([0x01, 0x01, 0x02, 0x04, 0x08, 0x10, 0x10]),
        ':' => Some([0x00, 0x04, 0x04, 0x00, 0x04, 0x04, 0x00]),
        _ => None,
    };
    proof {
        if let Some(a) = g {
            assert(a@ =~= glyph_spec(ch)->0);
        }
    }
    g
}

/// Whether column `col` (0 = leftmost) of a glyph row is set.
pub open spec fn glyph_bit(bits: u8, col: int) -> bool {
    bits & (1u8 << ((4 - col) as u8)) != 0
}

/// The first `k` cells of a glyph, in row-major order, drawn as
/// `scale` x `scale` squares with the glyph's top-left corner at (`x`, `y`).
pub open spec fn glyph_cells(buf: Seq<u32>, x: int, y: int, rows: Seq<u8>, scale: int, color: u32, k: int) -> Seq<u32>
    decreases k,
{
    if k <= 0 {
        buf
    } else {
        let prev = glyph_cells(buf, x, y, rows, scale, color, k - 1);
        let row = (k - 1) / 5;
        let col = (k - 1) % 5;
        if glyph_bit(rows[row], col) {
            fill_rect_spec(prev, x + col * scale, y + row * scale, scale, scale, color)
        } else {
            prev
        }
    }
}

/// `text` drawn left to right starting at (`x`, `y`): a space advances the
/// cursor by 4 cells, any other character by 6 cells, drawing its glyph if the
/// font has one.
pub open spec fn draw_text_spec(buf: Seq<u32>, x: int, y: int, text: Seq<char>, scale: int, color: u32) -> Seq<u32>
    decreases text.len(),
{
    if text.len() == 0 {
        buf
    } else if text[0] == ' ' {
        draw_text_spec(buf, x + 4 * scale, y, text.drop_first(), scale, color)
    } else {
        let drawn = match glyph_spec(text[0]) {
            Some(rows) => glyph_cells(buf, x, y, rows, scale, color, 35),
            None => buf,
        };
        draw_text_spec(drawn, x + 6 * scale, y, text.drop_first(), scale, color)
    }
}

proof fn lemma_glyph_cells_len(buf: Seq<u32>, x: int, y: int, rows: Seq<u8>, scale: int, color: u32, k: int)
    ensures
        glyph_cells(buf, x, y, rows, scale, color, k).len() == buf.len(),
    decreases k,
{
    if k > 0 {
        lemma_glyph_cells_len(buf, x, y, rows, scale, color, k - 1);
    }
}

/// The cell at (`row`, `col`) of a glyph drawn at (`x`, `y`) fits a buffer of length `len`.
pub open spec fn cell_fits(len: int, x: int, y: int, scale: int, row: int, col: int) -> bool {
    rect_fits(len, x + col * scale, y + row * scale, scale, scale)
}

/// Every set cell of the glyph `rows` drawn at (`x`, `y`) fits a buffer of length `len`.
pub open spec fn glyph_fits(len: int, x: int, y: int, rows: Seq<u8>, scale: int) -> bool {
    forall|row: int, col: int|
        0 <= row < 7 && 0 <= col < 5 && glyph_bit(rows[row], col) ==> #[trigger] cell_fits(
            len,
            x,
            y,
            scale,
            row,
            col,
        )
}

/// Every cell that drawing `text` at (`x`, `y`) fills fits a buffer of length `len`.
pub open spec fn text_fits(len: int, x: int, y: int, text: Seq<char>, scale: int) -> bool
    decreases text.len(),
{
    if text.len() == 0 {
        true
    } else if text[0] == ' ' {
        text_fits(len, x + 4 * scale, y, text.drop_first(), scale)
    } else {
        &&& (glyph_spec(text[0]) matches Some(rows) ==> glyph_fits(len, x, y, rows, scale))
        &&& text_fits(len, x + 6 * scale, y, text.drop_first(), scale)
    }
}

/// Draws one glyph with its top-left corner at (`x`, `y`).
fn draw_glyph(buffer: &mut [u32], x: usize, y: usize, rows: &[u8; 7], scale: usize, color: u32)
    requires
        glyph_fits(old(buffer)@.len() as int, x as int, y as int, rows@, scale as int),
        x + 5 * scale <= usize::MAX,
        y + 7 * scale <= usize::MAX,
    ensures
        final(buffer)@ == glyph_cells(old(buffer)@, x as int, y as int, rows@, scale as int, color, 35),
{
    let ghost old_buf = buffer@;
    let mut row: usize = 0;
    while row < 7
        invariant
            row <= 7,
            buffer@.len() == old_buf.len(),
            glyph_fits(old_buf.len() as int, x as int, y as int, rows@, scale as int),
            x + 5 * scale <= usize::MAX,
            y + 7 * scale <= usize::MAX,
            buffer@ == glyph_cells(old_buf, x as int, y as int, rows@, scale as int, color, row * 5),
        decreases 7 - row,
    {
        let bits = rows[row];
        let mut col: usize = 0;
        while col < 5
            invariant
                row < 7,
                col <= 5,
                bits == rows@[row as int],
                buffer@.len() == old_buf.len(),
                glyph_fits(old_buf.len() as int, x as int, y as int, rows@, scale as int),
                x + 5 * scale <= usize::MAX,
                y + 7 * scale <= usize::MAX,
                buffer@ == glyph_cells(old_buf, x as int, y as int, rows@, scale as int, color, row * 5 + col),
            decreases 5 - col,
        {
            proof {
                assert(col * scale <= 4 * scale && row * scale <= 6 * scale) by (nonlinear_arith)
                    requires col < 5, row < 7;
                assert((row * 5 + col) / 5 == row && (row * 5 + col) % 5 == col) by (nonlinear_arith)
                    requires col < 5, row < 7;
            }
            if bits & (1 << (4 - col)) != 0 {
                assert(cell_fits(old_buf.len() as int, x as int, y as int, scale as int, row as int, col as int));
                fill_rect(buffer, x + col * scale, y + row * scale, scale, scale, color);
            }
            col += 1;
        }
        row += 1;
    }
}

/// Draws `text` with its top-left corner at (`x`, `y`), each font cell a
/// `scale` x `scale` square. Characters the font lacks leave a gap.
pub fn draw_text(buffer: &mut [u32], x: usize, y: usize, text: &str, scale: usize, color: u32)
    requires
        text_fits(old(buffer)@.len() as int, x as int, y as int, text@, scale as int),
        x + 6 * scale * text@.len() <= usize::MAX,
        y + 7 * scale <= usize::MAX,
    ensures
        final(buffer)@ == draw_text_spec(old(buffer)@, x as int, y as int, text@, scale as int, color),
{
    let ghost old_buf = buffer@;
    let mut cursor = x;
    assert(text@.skip(0) =~= text@);
    for ch in it: text.chars()
        invariant
            buffer@.len() == old_buf.len(),
            text_fits(old_buf.len() as int, cursor as int, y as int, text@.skip(it.index() as int), scale as int),
            y + 7 * scale <= usize::MAX,
            it.seq() == text@,
            cursor + 6 * scale * (text@.len() - it.index()) <= x + 6 * scale * text@.len(),
            x + 6 * scale * text@.len() <= usize::MAX,
            draw_text_spec(buffer@, cursor as int, y as int, text@.skip(it.index() as int), scale as int, color)
                == draw_text_spec(old_buf, x as int, y as int, text@, scale as int, color),
    {
        let ghost k = it.index() as int;
        let ghost n = text@.len() as int;
        proof {
            assert(text@.skip(k)[0] == ch);
            assert(text@.skip(k).drop_first() =~= text@.skip(k + 1));
            assert(cursor + 6 * scale <= cursor + 6 * scale * (n - k)) by (nonlinear_arith)
                requires k < n;
            assert(6 * scale * (n - k) == 6 * scale + 6 * scale * (n - (k + 1))) by (nonlinear_arith);
        }
        if ch == ' ' {
            cursor += 4 * scale;
        } else {
            if let Some(glyph) = glyph(ch) {
                proof {
                    lemma_glyph_cells_len(buffer@, cursor as int, y as int, glyph@, scale as int, color, 35);
                }
                draw_glyph(buffer, cursor, y, &glyph, scale, color);
            }
            cursor += 6 * scale;
        }
    }
    assert(text@.skip(text@.len() as int) =~= Seq::<char>::empty());
}


/// The CHIP-8 display copied into a frame of the same layout: lit pixels in
/// the foreground colour, dark ones in the background colour. Pixels of the
/// frame past the display stay as they were.
pub open spec fn frame_spec(display: Seq<bool>, frame: Seq<u32>) -> Seq<u32> {
    Seq::new(
        frame.len(),
        |k: int| if k < display.len() { if display[k] { FG_COLOR } else { BG_COLOR } } else { frame[k] },
    )
}

/// Renders the CHIP-8 display into `frame_buffer`, one frame pixel per display pixel.
pub fn draw_frame(display: &[bool; DISPLAY_SIZE], frame_buffer: &mut [u32])
    ensures
        final(frame_buffer)@ == frame_spec(display@, old(frame_buffer)@),
{
    let n = if frame_buffer.len() < DISPLAY_SIZE { frame_buffer.len() } else { DISPLAY_SIZE };
    let mut k: usize = 0;
    while k < n
        invariant
            n <= DISPLAY_SIZE,
            n <= frame_buffer@.len(),
            n == frame_buffer@.len() || n == DISPLAY_SIZE,
            k <= n,
            frame_buffer@.len() == old(frame_buffer)@.len(),
            display@.len() == DISPLAY_SIZE,
            forall|j: int| 0 <= j < frame_buffer@.len() ==> #[trigger] frame_buffer@[j] == (
                if j < k { if display@[j] { FG_COLOR } else { BG_COLOR } } else { old(frame_buffer)@[j] }),
        decreases n - k,
    {
        frame_buffer[k] = if display[k] { FG_COLOR } else { BG_COLOR };
        k += 1;
    }
    assert(frame_buffer@ =~= frame_spec(display@, old(frame_buffer)@));
}

/// The title menu on a frame of `len` pixels.
pub open spec fn menu_spec(len: nat) -> Seq<u32> {
    let blank = Seq::new(len, |p: int| MENU_BG);
    let a = draw_text_spec(blank, 82, 46, "CHIP-8 ARCADE"@, 5, MENU_FG);
    let b = draw_text_spec(a, 96, 132, "RPS.CH8"@, 6, MENU_ACCENT);
    let c = draw_text_spec(b, 92, 210, "ENTER / SPACE TO PLAY RPS"@, 3, MENU_FG);
    let d = draw_text_spec(c, 168, 258, "P FOR PONG"@, 3, MENU_DIM);
    draw_text_spec(d, 180, 296, "ESC QUITS"@, 2, MENU_DANGER)
}

/// Every text of the title menu fits a frame of `len` pixels.
pub open spec fn menu_fits(len: int) -> bool {
    &&& text_fits(len, 82, 46, "CHIP-8 ARCADE"@, 5)
    &&& text_fits(len, 96, 132, "RPS.CH8"@, 6)
    &&& text_fits(len, 92, 210, "ENTER / SPACE TO PLAY RPS"@, 3)
    &&& text_fits(len, 168, 258, "P FOR PONG"@, 3)
    &&& text_fits(len, 180, 296, "ESC QUITS"@, 2)
}

proof fn lemma_draw_text_len(buf: Seq<u32>, x: int, y: int, text: Seq<char>, scale: int, color: u32)
    ensures
        draw_text_spec(buf, x, y, text, scale, color).len() == buf.len(),
    decreases text.len(),
{
    if text.len() > 0 {
        let drawn = match glyph_spec(text[0]) {
            Some(rows) => glyph_cells(buf, x, y, rows, scale, color, 35),
            None => buf,
        };
        if let Some(rows) = glyph_spec(text[0]) {
            lemma_glyph_cells_len(buf, x, y, rows, scale, color, 35);
        }
        lemma_draw_text_len(buf, x + 4 * scale, y, text.drop_first(), scale, color);
        lemma_draw_text_len(drawn, x + 6 * scale, y, text.drop_first(), scale, color);
    }
}

/// Draws the title menu.
pub fn draw_menu(buffer: &mut [u32])
    requires
        menu_fits(old(buffer)@.len() as int),
    ensures
        final(buffer)@ == menu_spec(old(buffer)@.len()),
{
    proof {
        reveal_strlit("CHIP-8 ARCADE");
        reveal_strlit("RPS.CH8");
        reveal_strlit("ENTER / SPACE TO PLAY RPS");
        reveal_strlit("P FOR PONG");
        reveal_strlit("ESC QUITS");
    }
    let ghost len = buffer@.len();
    clear(buffer, MENU_BG);
    proof { lemma_draw_text_len(buffer@, 82, 46, "CHIP-8 ARCADE"@, 5, MENU_FG); }
    draw_text(buffer, 82, 46, "CHIP-8 ARCADE", 5, MENU_FG);
    proof { lemma_draw_text_len(buffer@, 96, 132, "RPS.CH8"@, 6, MENU_ACCENT); }
    draw_text(buffer, 96, 132, "RPS.CH8", 6, MENU_ACCENT);
    proof { lemma_draw_text_len(buffer@, 92, 210, "ENTER / SPACE TO PLAY RPS"@, 3, MENU_FG); }
    draw_text(buffer, 92, 210, "ENTER / SPACE TO PLAY RPS", 3, MENU_FG);
    proof { lemma_draw_text_len(buffer@, 168, 258, "P FOR PONG"@, 3, MENU_DIM); }
    draw_text(buffer, 168, 258, "P FOR PONG", 3, MENU_DIM);
    draw_text(buffer, 180, 296, "ESC QUITS", 2, MENU_DANGER);
}


/// Size in frame pixels of one CHIP-8 pixel on the game screen.
pub const GAME_SCALE: usize = 8;
/// Left edge of the CHIP-8 display on the game screen.
pub const GAME_ORIGIN_X: usize = (FRONTEND_WIDTH - DISPLAY_WIDTH * GAME_SCALE) / 2;
/// Top edge of the CHIP-8 display on the game screen.
pub const GAME_ORIGIN_Y: usize = 58;
/// Colour of the border around the CHIP-8 display.
pub const GAME_BORDER: u32 = 0x00_1D_27_27;

/// The first `k` CHIP-8 pixels, row by row, drawn as `GAME_SCALE`-sized squares.
pub open spec fn game_cells(buf: Seq<u32>, display: Seq<bool>, k: int) -> Seq<u32>
    decreases k,
{
    if k <= 0 {
        buf
    } else {
        let prev = game_cells(buf, display, k - 1);
        let y = (k - 1) / (DISPLAY_WIDTH as int);
        let x = (k - 1) % (DISPLAY_WIDTH as int);
        fill_rect_spec(
            prev,
            GAME_ORIGIN_X + x * GAME_SCALE,
            GAME_ORIGIN_Y + y * GAME_SCALE,
            GAME_SCALE as int,
            GAME_SCALE as int,
            if display[k - 1] { FG_COLOR } else { BG_COLOR },
        )
    }
}

/// The game screen: title, key help, the bordered CHIP-8 display and a beep
/// indicator while the sound timer runs.
pub open spec fn game_screen_spec(len: nat, title: Seq<char>, display: Seq<bool>, beep: bool) -> Seq<u32> {
    let blank = Seq::new(len, |p: int| MENU_BG);
    let a = draw_text_spec(blank, 32, 16, title, 3, MENU_FG);
    let b = draw_text_spec(a, 360, 18, "R RESET"@, 2, MENU_DIM);
    let c = draw_text_spec(b, 474, 18, "BACKSPACE MENU"@, 2, MENU_DIM);
    let d = draw_text_spec(c, 32, 326, "CHIP-8 KEYS: 1 2 3 4 / Q W E R / A S D F / Z X C V"@, 1, MENU_DIM);
    let e = fill_rect_spec(
        d,
        GAME_ORIGIN_X - 4,
        GAME_ORIGIN_Y - 4,
        DISPLAY_WIDTH * GAME_SCALE + 8,
        DISPLAY_HEIGHT * GAME_SCALE + 8,
        GAME_BORDER,
    );
    let f = game_cells(e, display, DISPLAY_SIZE as int);
    if beep { draw_text_spec(f, 274, 16, "BEEP"@, 2, MENU_ACCENT) } else { f }
}

/// Every text and rectangle of the game screen fits a frame of `len` pixels.
pub open spec fn game_screen_fits(len: int, title: Seq<char>, beep: bool) -> bool {
    &&& text_fits(len, 32, 16, title, 3)
    &&& text_fits(len, 360, 18, "R RESET"@, 2)
    &&& text_fits(len, 474, 18, "BACKSPACE MENU"@, 2)
    &&& text_fits(len, 32, 326, "CHIP-8 KEYS: 1 2 3 4 / Q W E R / A S D F / Z X C V"@, 1)
    &&& rect_fits(
        len,
        GAME_ORIGIN_X - 4,
        GAME_ORIGIN_Y - 4,
        DISPLAY_WIDTH * GAME_SCALE + 8,
        DISPLAY_HEIGHT * GAME_SCALE + 8,
    )
    &&& beep ==> text_fits(len, 274, 16, "BEEP"@, 2)
}

/// The squares of the CHIP-8 pixels lie inside the border rectangle, so they
/// fit wherever the border does.
proof fn lemma_game_cell_fits(len: int, x: int, y: int)
    requires
        0 <= x < DISPLAY_WIDTH,
        0 <= y < DISPLAY_HEIGHT,
        rect_fits(
            len,
            GAME_ORIGIN_X - 4,
            GAME_ORIGIN_Y - 4,
            DISPLAY_WIDTH * GAME_SCALE + 8,
            DISPLAY_HEIGHT * GAME_SCALE + 8,
        ),
    ensures
        rect_fits(len, GAME_ORIGIN_X + x * GAME_SCALE, GAME_ORIGIN_Y + y * GAME_SCALE, GAME_SCALE as int, GAME_SCALE as int),
{
}

proof fn lemma_game_cells_len(buf: Seq<u32>, display: Seq<bool>, k: int)
    ensures
        game_cells(buf, display, k).len() == buf.len(),
    decreases k,
{
    if k > 0 {
        lemma_game_cells_len(buf, display, k - 1);
    }
}

/// Draws the screen of a running CHIP-8 game titled `title`.
pub fn draw_game_screen(buffer: &mut [u32], title: &str, chip8: &Chip8)
    requires
        game_screen_fits(old(buffer)@.len() as int, title@, chip8@.sound_timer > 0),
        32 + 18 * title@.len() <= usize::MAX,
    ensures
        final(buffer)@ == game_screen_spec(
            old(buffer)@.len(),
            title@,
            chip8@.display,
            chip8@.sound_timer > 0,
        ),
{
    proof {
        reveal_strlit("R RESET");
        reveal_strlit("BACKSPACE MENU");
        reveal_strlit("CHIP-8 KEYS: 1 2 3 4 / Q W E R / A S D F / Z X C V");
        reveal_strlit("BEEP");
    }
    clear(buffer, MENU_BG);
    proof { lemma_draw_text_len(buffer@, 32, 16, title@, 3, MENU_FG); }
    draw_text(buffer, 32, 16, title, 3, MENU_FG);
    proof { lemma_draw_text_len(buffer@, 360, 18, "R RESET"@, 2, MENU_DIM); }
    draw_text(buffer, 360, 18, "R RESET", 2, MENU_DIM);
    proof { lemma_draw_text_len(buffer@, 474, 18, "BACKSPACE MENU"@, 2, MENU_DIM); }
    draw_text(buffer, 474, 18, "BACKSPACE MENU", 2, MENU_DIM);
    proof { lemma_draw_text_len(buffer@, 32, 326, "CHIP-8 KEYS: 1 2 3 4 / Q W E R / A S D F / Z X C V"@, 1, MENU_DIM); }
    draw_text(buffer, 32, 326, "CHIP-8 KEYS: 1 2 3 4 / Q W E R / A S D F / Z X C V", 1, MENU_DIM);

    let scale = GAME_SCALE;
    let origin_x = (FRONTEND_WIDTH - DISPLAY_WIDTH * scale) / 2;
    let origin_y = GAME_ORIGIN_Y;
    fill_rect(
        buffer,
        origin_x - 4,
        origin_y - 4,
        DISPLAY_WIDTH * scale + 8,
        DISPLAY_HEIGHT * scale + 8,
        GAME_BORDER,
    );

    let display = chip8.display();
    let ghost start = buffer@;
    let mut y: usize = 0;
    while y < DISPLAY_HEIGHT
        invariant
            y <= DISPLAY_HEIGHT,
            display@ == chip8@.display,
            display@.len() == DISPLAY_SIZE,
            start.len() == old(buffer)@.len(),
            game_screen_fits(start.len() as int, title@, chip8@.sound_timer > 0),
            buffer@ == game_cells(start, display@, y * DISPLAY_WIDTH),
            scale == GAME_SCALE,
            origin_x == GAME_ORIGIN_X,
            origin_y == GAME_ORIGIN_Y,
        decreases DISPLAY_HEIGHT - y,
    {
        let mut x: usize = 0;
        while x < DISPLAY_WIDTH
            invariant
                y < DISPLAY_HEIGHT,
                x <= DISPLAY_WIDTH,
                display@ == chip8@.display,
                display@.len() == DISPLAY_SIZE,
                start.len() == old(buffer)@.len(),
                game_screen_fits(start.len() as int, title@, chip8@.sound_timer > 0),
                buffer@ == game_cells(start, display@, y * DISPLAY_WIDTH + x),
                scale == GAME_SCALE,
                origin_x == GAME_ORIGIN_X,
                origin_y == GAME_ORIGIN_Y,
            decreases DISPLAY_WIDTH - x,
        {
            proof {
                lemma_game_cells_len(start, display@, y * DISPLAY_WIDTH + x);
                assert((y * 64 + x) / 64 == y && (y * 64 + x) % 64 == x) by (nonlinear_arith)
                    requires x < 64, y < 32;
                assert(y * 64 + x < 2048) by (nonlinear_arith) requires x < 64, y < 32;
                lemma_game_cell_fits(start.len() as int, x as int, y as int);
            }
            let color = if display[y * DISPLAY_WIDTH + x] { FG_COLOR } else { BG_COLOR };
            fill_rect(buffer, origin_x + x * scale, origin_y + y * scale, scale, scale, color);
            x += 1;
        }
        y += 1;
    }

    if chip8.sound_active() {
        proof { lemma_game_cells_len(start, display@, DISPLAY_SIZE as int); }
        draw_text(buffer, 274, 16, "BEEP", 2, MENU_ACCENT);
    }
}


/// The score line of the Pong screen: both scores, three spaces apart.
pub fn score_text(left: u8, right: u8) -> (s: String)
    ensures
        s@ == decimal(left as nat) + "   "@ + decimal(right as nat),
{
    proof {
        reveal_strlit("   ");
    }
    let mut s = String::new();
    push_decimal(&mut s, left as usize);
    s.append("   ");
    push_decimal(&mut s, right as usize);
    assert(s@ =~= decimal(left as nat) + "   "@ + decimal(right as nat));
    s
}


/// The first `k` dashes of the Pong centre line.
pub open spec fn center_dashes(buf: Seq<u32>, k: int) -> Seq<u32>
    decreases k,
{
    if k <= 0 {
        buf
    } else {
        fill_rect_spec(center_dashes(buf, k - 1), FRONTEND_WIDTH / 2 - 2, 46 + 22 * (k - 1), 4, 12, MENU_DIM)
    }
}

/// The Pong screen with the paddles at heights `left_y` and `right_y`, the
/// ball's top-left corner at (`ball_x`, `ball_y`) and the given score line.
pub open spec fn pong_screen_spec(
    len: nat,
    left_y: int,
    right_y: int,
    ball_x: int,
    ball_y: int,
    score: Seq<char>,
) -> Seq<u32> {
    let blank = Seq::new(len, |p: int| MENU_BG);
    let a = draw_text_spec(blank, 22, 14, "W/S"@, 2, MENU_DIM);
    let b = draw_text_spec(a, FRONTEND_WIDTH - 98, 14, "UP/DOWN"@, 2, MENU_DIM);
    let c = draw_text_spec(b, 255, 14, "PONG"@, 3, MENU_FG);
    let d = draw_text_spec(c, 18, 334, "BACKSPACE MENU"@, 2, MENU_DIM);
    let e = draw_text_spec(d, 430, 334, "R RESET"@, 2, MENU_DIM);
    let f = draw_text_spec(e, 280, 62, score, 4, MENU_ACCENT);
    let g = center_dashes(f, 13);
    let h = fill_rect_spec(g, 34, left_y, 10, 58, MENU_FG);
    let i = fill_rect_spec(h, FRONTEND_WIDTH - 44, right_y, 10, 58, MENU_FG);
    fill_rect_spec(i, ball_x, ball_y, 8, 8, MENU_ACCENT)
}

/// The frame of `len` pixels holds dash `k` of the centre line.
pub open spec fn dash_fits(len: int, k: int) -> bool {
    rect_fits(len, FRONTEND_WIDTH / 2 - 2, 46 + 22 * k, 4, 12)
}

/// Every text and rectangle of the Pong screen fits a frame of `len` pixels.
pub open spec fn pong_screen_fits(len: int, left_y: int, right_y: int, ball_x: int, ball_y: int, score: Seq<char>) -> bool {
    &&& text_fits(len, 22, 14, "W/S"@, 2)
    &&& text_fits(len, FRONTEND_WIDTH - 98, 14, "UP/DOWN"@, 2)
    &&& text_fits(len, 255, 14, "PONG"@, 3)
    &&& text_fits(len, 18, 334, "BACKSPACE MENU"@, 2)
    &&& text_fits(len, 430, 334, "R RESET"@, 2)
    &&& text_fits(len, 280, 62, score, 4)
    &&& forall|k: int| 0 <= k < 13 ==> #[trigger] dash_fits(len, k)
    &&& rect_fits(len, 34, left_y, 10, 58)
    &&& rect_fits(len, FRONTEND_WIDTH - 44, right_y, 10, 58)
    &&& rect_fits(len, ball_x, ball_y, 8, 8)
}

proof fn lemma_decimal_len(n: nat)
    requires
        n < 1000,
    ensures
        1 <= decimal(n).len() <= 3,
{
    reveal_with_fuel(decimal, 3);
}

proof fn lemma_center_dashes_len(buf: Seq<u32>, k: int)
    ensures
        center_dashes(buf, k).len() == buf.len(),
    decreases k,
{
    if k > 0 {
        lemma_center_dashes_len(buf, k - 1);
    }
}

/// Draws the Pong screen: labels, score, centre line, paddles and ball.
pub fn draw_pong_screen(
    buffer: &mut [u32],
    left_y: usize,
    right_y: usize,
    ball_x: usize,
    ball_y: usize,
    left_score: u8,
    right_score: u8,
)
    requires
        pong_screen_fits(
            old(buffer)@.len() as int,
            left_y as int,
            right_y as int,
            ball_x as int,
            ball_y as int,
            decimal(left_score as nat) + "   "@ + decimal(right_score as nat),
        ),
        left_y + 58 <= usize::MAX,
        right_y + 58 <= usize::MAX,
        ball_x + 8 <= usize::MAX,
        ball_y + 8 <= usize::MAX,
    ensures
        final(buffer)@ == pong_screen_spec(
            old(buffer)@.len(),
            left_y as int,
            right_y as int,
            ball_x as int,
            ball_y as int,
            decimal(left_score as nat) + "   "@ + decimal(right_score as nat),
        ),
{
    proof {
        reveal_strlit("W/S");
        reveal_strlit("UP/DOWN");
        reveal_strlit("PONG");
        reveal_strlit("BACKSPACE MENU");
        reveal_strlit("R RESET");
        reveal_strlit("   ");
        lemma_decimal_len(left_score as nat);
        lemma_decimal_len(right_score as nat);
    }
    clear(buffer, MENU_BG);
    proof { lemma_draw_text_len(buffer@, 22, 14, "W/S"@, 2, MENU_DIM); }
    draw_text(buffer, 22, 14, "W/S", 2, MENU_DIM);
    proof { lemma_draw_text_len(buffer@, FRONTEND_WIDTH - 98, 14, "UP/DOWN"@, 2, MENU_DIM); }
    draw_text(buffer, FRONTEND_WIDTH - 98, 14, "UP/DOWN", 2, MENU_DIM);
    proof { lemma_draw_text_len(buffer@, 255, 14, "PONG"@, 3, MENU_FG); }
    draw_text(buffer, 255, 14, "PONG", 3, MENU_FG);
    proof { lemma_draw_text_len(buffer@, 18, 334, "BACKSPACE MENU"@, 2, MENU_DIM); }
    draw_text(buffer, 18, 334, "BACKSPACE MENU", 2, MENU_DIM);
    proof { lemma_draw_text_len(buffer@, 430, 334, "R RESET"@, 2, MENU_DIM); }
    draw_text(buffer, 430, 334, "R RESET", 2, MENU_DIM);

    let score = score_text(left_score, right_score);
    proof { lemma_draw_text_len(buffer@, 280, 62, score@, 4, MENU_ACCENT); }
    draw_text(buffer, 280, 62, score.as_str(), 4, MENU_ACCENT);

    let ghost start = buffer@;
    let mut y: usize = 46;
    let mut k: usize = 0;
    while y < 330
        invariant
            y == 46 + 22 * k,
            k <= 13,
            forall|j: int| 0 <= j < 13 ==> #[trigger] dash_fits(start.len() as int, j),
            buffer@ == center_dashes(start, k as int),
        decreases 13 - k,
    {
        proof {
            lemma_center_dashes_len(start, k as int);
            assert(dash_fits(start.len() as int, k as int));
        }
        fill_rect(buffer, FRONTEND_WIDTH / 2 - 2, y, 4, 12, MENU_DIM);
        y += 22;
        k += 1;
    }
    proof {
        lemma_center_dashes_len(start, 13);
    }
    fill_rect(buffer, 34, left_y, 10, 58, MENU_FG);
    fill_rect(buffer, FRONTEND_WIDTH - 44, right_y, 10, 58, MENU_FG);
    fill_rect(buffer, ball_x, ball_y, 8, 8, MENU_ACCENT);
}


/// Letters draw the same glyph in either case.
pub proof fn glyph_ignores_case(c: char)
    requires
        'a' <= c <= 'z',
    ensures
        glyph_spec(c) == glyph_spec(((c as u32) - 32) as char),
{
}

proof fn lemma_glyph_cells_rows(buf: Seq<u32>, x: int, y: int, rows: Seq<u8>, scale: int, color: u32, k: int, p: int)
    requires
        0 <= p < buf.len(),
        scale >= 0,
        k <= 35,
        p / (FRONTEND_WIDTH as int) < y || p / (FRONTEND_WIDTH as int) >= y + 7 * scale,
    ensures
        glyph_cells(buf, x, y, rows, scale, color, k)[p] == buf[p],
    decreases k,
{
    if k > 0 {
        lemma_glyph_cells_rows(buf, x, y, rows, scale, color, k - 1, p);
        lemma_glyph_cells_len(buf, x, y, rows, scale, color, k - 1);
        let row = (k - 1) / 5;
        assert(0 <= row * scale && row * scale + scale <= 7 * scale) by (nonlinear_arith)
            requires 0 <= row <= 6, scale >= 0;
    }
}

/// Drawing text changes no pixel above its top row `y` or at or below row
/// `y + 7 * scale`.
pub proof fn draw_text_changes_only_its_rows(
    buf: Seq<u32>,
    x: int,
    y: int,
    text: Seq<char>,
    scale: int,
    color: u32,
    p: int,
)
    requires
        0 <= p < buf.len(),
        scale >= 0,
        p / (FRONTEND_WIDTH as int) < y || p / (FRONTEND_WIDTH as int) >= y + 7 * scale,
    ensures
        draw_text_spec(buf, x, y, text, scale, color)[p] == buf[p],
    decreases text.len(),
{
    if text.len() > 0 {
        if text[0] == ' ' {
            draw_text_changes_only_its_rows(buf, x + 4 * scale, y, text.drop_first(), scale, color, p);
        } else {
            let drawn = match glyph_spec(text[0]) {
                Some(rows) => glyph_cells(buf, x, y, rows, scale, color, 35),
                None => buf,
            };
            if let Some(rows) = glyph_spec(text[0]) {
                lemma_glyph_cells_rows(buf, x, y, rows, scale, color, 35, p);
                lemma_glyph_cells_len(buf, x, y, rows, scale, color, 35);
            }
            draw_text_changes_only_its_rows(drawn, x + 6 * scale, y, text.drop_first(), scale, color, p);
        }
    }
}

/// The frame pixel at offset (`dx`, `dy`) inside the square of CHIP-8 pixel
/// (`x`, `y`) on the game screen.
pub open spec fn game_pixel(x: int, y: int, dx: int, dy: int) -> int {
    (GAME_ORIGIN_Y + GAME_SCALE * y + dy) * (FRONTEND_WIDTH as int) + GAME_ORIGIN_X + GAME_SCALE * x + dx
}

proof fn lemma_game_cells_at(buf: Seq<u32>, display: Seq<bool>, k: int, x: int, y: int, dx: int, dy: int)
    requires
        buf.len() >= FRONTEND_SIZE,
        0 <= x < 64,
        0 <= y < 32,
        0 <= dx < 8,
        0 <= dy < 8,
        k <= DISPLAY_SIZE,
    ensures
        game_cells(buf, display, k)[game_pixel(x, y, dx, dy)] == (if k > y * 64 + x {
            if display[y * 64 + x] { FG_COLOR } else { BG_COLOR }
        } else {
            buf[game_pixel(x, y, dx, dy)]
        }),
    decreases k,
{
    let q = game_pixel(x, y, dx, dy);
    assert(q / 640 == 58 + 8 * y + dy && q % 640 == 64 + 8 * x + dx) by (nonlinear_arith)
        requires q == (58 + 8 * y + dy) * 640 + 64 + 8 * x + dx, 0 <= x < 64, 0 <= dx < 8, 0 <= y, 0 <= dy;
    assert(q < FRONTEND_SIZE) by (nonlinear_arith)
        requires q == (58 + 8 * y + dy) * 640 + 64 + 8 * x + dx, 0 <= x < 64, 0 <= dx < 8, 0 <= y < 32, 0 <= dy < 8;
    if k > 0 {
        lemma_game_cells_at(buf, display, k - 1, x, y, dx, dy);
        lemma_game_cells_len(buf, display, k - 1);
        let j = k - 1;
        let jx = j % 64;
        let jy = j / 64;
        assert(j == jy * 64 + jx) by (nonlinear_arith) requires jx == j % 64, jy == j / 64, j >= 0;
        if j != y * 64 + x {
            assert(!in_rect(q, 64 + jx * 8, 58 + jy * 8, 8, 8));
        }
    }
}

/// Each CHIP-8 pixel appears on the game screen as an 8 x 8 square in the
/// foreground colour when lit and the background colour when dark.
pub proof fn game_screen_shows_display(
    len: nat,
    title: Seq<char>,
    display: Seq<bool>,
    beep: bool,
    x: int,
    y: int,
    dx: int,
    dy: int,
)
    requires
        len >= FRONTEND_SIZE,
        0 <= x < DISPLAY_WIDTH,
        0 <= y < DISPLAY_HEIGHT,
        0 <= dx < GAME_SCALE,
        0 <= dy < GAME_SCALE,
    ensures
        game_screen_spec(len, title, display, beep)[game_pixel(x, y, dx, dy)]
            == (if display[y * 64 + x] { FG_COLOR } else { BG_COLOR }),
{
    let blank = Seq::new(len, |p: int| MENU_BG);
    let a = draw_text_spec(blank, 32, 16, title, 3, MENU_FG);
    let b = draw_text_spec(a, 360, 18, "R RESET"@, 2, MENU_DIM);
    let c = draw_text_spec(b, 474, 18, "BACKSPACE MENU"@, 2, MENU_DIM);
    let d = draw_text_spec(c, 32, 326, "CHIP-8 KEYS: 1 2 3 4 / Q W E R / A S D F / Z X C V"@, 1, MENU_DIM);
    lemma_draw_text_len(blank, 32, 16, title, 3, MENU_FG);
    lemma_draw_text_len(a, 360, 18, "R RESET"@, 2, MENU_DIM);
    lemma_draw_text_len(b, 474, 18, "BACKSPACE MENU"@, 2, MENU_DIM);
    lemma_draw_text_len(c, 32, 326, "CHIP-8 KEYS: 1 2 3 4 / Q W E R / A S D F / Z X C V"@, 1, MENU_DIM);
    let e = fill_rect_spec(d, GAME_ORIGIN_X - 4, GAME_ORIGIN_Y - 4, DISPLAY_WIDTH * GAME_SCALE + 8,
        DISPLAY_HEIGHT * GAME_SCALE + 8, GAME_BORDER);
    lemma_game_cells_at(e, display, DISPLAY_SIZE as int, x, y, dx, dy);
    lemma_game_cells_len(e, display, DISPLAY_SIZE as int);
    let f = game_cells(e, display, DISPLAY_SIZE as int);
    let q = game_pixel(x, y, dx, dy);
    assert(q / 640 == 58 + 8 * y + dy) by (nonlinear_arith)
        requires q == (58 + 8 * y + dy) * 640 + 64 + 8 * x + dx, 0 <= x < 64, 0 <= dx < 8, 0 <= y, 0 <= dy;
    assert(y * 64 + x < 2048) by (nonlinear_arith) requires 0 <= x < 64, 0 <= y < 32;
    if beep {
        draw_text_changes_only_its_rows(f, 274, 16, "BEEP"@, 2, MENU_ACCENT, q);
    }
}


/// `fill_rect` paints the pixel in column `px` and row `py` exactly when
/// `x <= px < x + w` and `y <= py < y + h`, within the frame.
pub proof fn fill_rect_paints_the_rectangle(
    buf: Seq<u32>,
    x: int,
    y: int,
    w: int,
    h: int,
    color: u32,
    px: int,
    py: int,
)
    requires
        0 <= px < FRONTEND_WIDTH,
        0 <= py < FRONTEND_HEIGHT,
        py * (FRONTEND_WIDTH as int) + px < buf.len(),
    ensures
        fill_rect_spec(buf, x, y, w, h, color)[py * (FRONTEND_WIDTH as int) + px] == (
            if x <= px < x + w && y <= py < y + h { color } else { buf[py * (FRONTEND_WIDTH as int) + px] }),
{
    let p = py * 640 + px;
    assert(p / 640 == py && p % 640 == px) by (nonlinear_arith)
        requires p == py * 640 + px, 0 <= px < 640, 0 <= py;
}

/// A space moves the cursor four cells and draws nothing.
pub proof fn space_advances_four_cells(buf: Seq<u32>, x: int, y: int, text: Seq<char>, scale: int, color: u32)
    ensures
        draw_text_spec(buf, x, y, seq![' '] + text, scale, color) == draw_text_spec(buf, x + 4 * scale, y, text, scale, color),
{
    assert((seq![' '] + text).drop_first() =~= text);
}

} // verus!
