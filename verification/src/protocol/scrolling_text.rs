use vstd::prelude::*;

use bdf_parser::BdfFont;

use super::bdf_font::{
    bdf_font_glyphs, bdf_font_metrics, bdf_glyph, bdf_parse, find_glyph, font_metrics, parse_bdf_font,
    BdfFontMetrics, BdfGlyph, BdfGlyphView,
};
use super::extended_command::chars_of;
use super::packet::{le16, le16_value};
use crate::divoom_file_format::{
    distinct_in_order, lemma_distinct_in_order, palette_get, palette_insert, palette_items, palette_len, palette_new, Rgb,
};

verus! {

/// Horizontal alignment of the lines of a text.
#[derive(Clone, Copy, Debug, PartialEq, Eq, Structural)]
pub enum HAlign {
    Left,
    Center,
    Right,
}

/// Vertical alignment of the block of lines on the display.
#[derive(Clone, Copy, Debug, PartialEq, Eq, Structural)]
pub enum VAlign {
    Top,
    Center,
    Bottom,
}

impl Default for HAlign {
    fn default() -> (a: Self)
        ensures
            a == HAlign::Center,
    {
        HAlign::Center
    }
}

impl Default for VAlign {
    fn default() -> (a: Self)
        ensures
            a == VAlign::Center,
    {
        VAlign::Center
    }
}

/// The columns of one rendered glyph; bit `r` of a column is the pixel in
/// row `r`.
pub struct RasterizedGlyph {
    pub columns: Vec<u16>,
}

/// The two bytes of `v`, least significant first.
fn u16_to_le(v: u16) -> (a: [u8; 2])
    ensures
        a@ == le16(v as int),
        le16_value(a[0], a[1]) == v,
{
    [(v % 256) as u8, (v / 256) as u8]
}

/// The value of two bytes, least significant first.
fn u16_from_le(a: [u8; 2]) -> (v: u16)
    ensures
        v == le16_value(a[0], a[1]),
{
    a[0] as u16 + (a[1] as u16) * 256
}

/// The number of columns of the widest line.
pub open spec fn max_line_len(lines: Seq<Vec<u16>>) -> nat
    decreases lines.len(),
{
    if lines.len() == 0 {
        0
    } else {
        let m = max_line_len(lines.drop_last());
        let l = lines.last()@.len();
        if l > m {
            l
        } else {
            m
        }
    }
}

/// Every line is at most as wide as the widest one.
pub proof fn lemma_max_line_len(lines: Seq<Vec<u16>>, i: int)
    requires
        0 <= i < lines.len(),
    ensures
        lines[i]@.len() <= max_line_len(lines),
    decreases lines.len(),
{
    if i < lines.len() - 1 {
        lemma_max_line_len(lines.drop_last(), i);
    }
}

/// Integer division by two, rounded toward zero.
pub open spec fn trunc_half(x: int) -> int {
    if x >= 0 {
        x / 2
    } else {
        -((-x) / 2)
    }
}

/// The display row at which the block of `num_lines` lines of
/// `line_height` rows starts (it may be negative).
pub open spec fn layout_y_offset(num_lines: int, line_height: int, valign: VAlign) -> int {
    match valign {
        VAlign::Top => 0,
        VAlign::Center => trunc_half(16 - num_lines * line_height),
        VAlign::Bottom => 16 - num_lines * line_height,
    }
}

/// The display row at which line `i` starts.
pub open spec fn layout_line_y(num_lines: int, line_height: int, valign: VAlign, i: int) -> int {
    layout_y_offset(num_lines, line_height, valign) + i * line_height
}

/// The column at which a line of `len` columns starts in a bitmap of
/// `max_width` columns.
pub open spec fn layout_x_offset(max_width: int, len: int, halign: HAlign) -> int {
    match halign {
        HAlign::Left => 0,
        HAlign::Center => (max_width - len) / 2,
        HAlign::Right => max_width - len,
    }
}

/// The bits that line `i` puts into column `c` of the laid-out bitmap.
pub open spec fn layout_contribution(
    lines: Seq<Vec<u16>>,
    line_height: int,
    halign: HAlign,
    valign: VAlign,
    i: int,
    c: int,
) -> u16 {
    let y = layout_line_y(lines.len() as int, line_height, valign, i);
    let len = lines[i]@.len() as int;
    let x = layout_x_offset(max_line_len(lines) as int, len, halign);
    if y >= 0 && x <= c < x + len {
        lines[i]@[c - x] << (y as u16)
    } else {
        0
    }
}

/// Column `c` of the laid-out bitmap after the first `k` lines.
pub open spec fn layout_column(
    lines: Seq<Vec<u16>>,
    line_height: int,
    halign: HAlign,
    valign: VAlign,
    c: int,
    k: int,
) -> u16
    decreases k,
{
    if k <= 0 {
        0
    } else {
        layout_column(lines, line_height, halign, valign, c, k - 1) | layout_contribution(
            lines,
            line_height,
            halign,
            valign,
            k - 1,
            c,
        )
    }
}

/// `layout_text` is defined: its arithmetic stays within `i32`, and no
/// non-empty line starts at or below the sixteenth display row.
pub open spec fn layout_defined(lines: Seq<Vec<u16>>, line_height: int, valign: VAlign) -> bool {
    let n = lines.len() as int;
    &&& n <= i32::MAX
    &&& i32::MIN <= n * line_height <= i32::MAX
    &&& valign != VAlign::Top ==> i32::MIN <= 16 - n * line_height <= i32::MAX
    &&& forall|i: int|
        0 <= i < n ==> {
            &&& i32::MIN <= #[trigger] (i * line_height) <= i32::MAX
            &&& i32::MIN <= layout_line_y(n, line_height, valign, i) <= i32::MAX
        }
    &&& forall|i: int|
        0 <= i < n && (#[trigger] lines[i])@.len() > 0 && layout_line_y(n, line_height, valign, i)
            >= 0 ==> layout_line_y(n, line_height, valign, i) < 16
}

proof fn lemma_or_zero(x: u16)
    ensures
        x | 0u16 == x,
{
    assert(x | 0u16 == x) by (bit_vector);
}

/// Whether line `i` of `lines` sets bit `q` of bitmap column `c` when laid
/// out: with `n` lines of `line_height` rows, `w` the widest line's width
/// and `len` line `i`'s width, the line starts in column 0 (left),
/// `(w - len) / 2` (centre) or `w - len` (right), and in row
/// `i * line_height` below the block's top, which is row 0 (top),
/// `(16 - n * line_height) / 2` rounded toward zero (centre) or
/// `16 - n * line_height` (bottom). A line that starts above the display
/// is left out.
pub open spec fn line_sets_bit(
    lines: Seq<Vec<u16>>,
    line_height: int,
    halign: HAlign,
    valign: VAlign,
    i: int,
    c: int,
    q: int,
) -> bool {
    let n = lines.len() as int;
    let w = max_line_len(lines) as int;
    let len = lines[i]@.len() as int;
    let x = match halign {
        HAlign::Left => 0,
        HAlign::Center => (w - len) / 2,
        HAlign::Right => w - len,
    };
    let top = match valign {
        VAlign::Top => 0,
        VAlign::Center => if 16 - n * line_height >= 0 {
            (16 - n * line_height) / 2
        } else {
            -((n * line_height - 16) / 2)
        },
        VAlign::Bottom => 16 - n * line_height,
    };
    let y = top + i * line_height;
    &&& 0 <= y <= q
    &&& x <= c < x + len
    &&& column_bit(lines[i]@[c - x], q - y)
}

proof fn lemma_or_bit(a: u16, b: u16, q: u16)
    requires
        q < 16,
    ensures
        column_bit(a | b, q as int) == (column_bit(a, q as int) || column_bit(b, q as int)),
{
    assert((((a | b) >> q) & 1u16 == 1u16) == (((a >> q) & 1u16 == 1u16) || ((b >> q) & 1u16 == 1u16)))
        by (bit_vector)
        requires
            q < 16,
    ;
}

proof fn lemma_shl_bit(v: u16, y: u16, q: u16)
    requires
        y < 16,
        q < 16,
    ensures
        column_bit(v << y, q as int) == (q >= y && column_bit(v, (q - y) as int)),
{
    assert((((v << y) >> q) & 1u16 == 1u16) == (q >= y && ((v >> ((q - y) as u16)) & 1u16 == 1u16)))
        by (bit_vector)
        requires
            y < 16,
            q < 16,
    ;
}

proof fn lemma_layout_column_bits_prefix(
    lines: Seq<Vec<u16>>,
    line_height: int,
    halign: HAlign,
    valign: VAlign,
    c: int,
    q: int,
    k: int,
)
    requires
        layout_defined(lines, line_height, valign),
        0 <= q < 16,
        k <= lines.len(),
    ensures
        column_bit(layout_column(lines, line_height, halign, valign, c, k), q) <==> exists|i: int|
            0 <= i < k && #[trigger] line_sets_bit(lines, line_height, halign, valign, i, c, q),
    decreases k,
{
    if k <= 0 {
        lemma_zero_bits(q as u16);
    } else {
        lemma_layout_column_bits_prefix(lines, line_height, halign, valign, c, q, k - 1);
        let prev = layout_column(lines, line_height, halign, valign, c, k - 1);
        let added = layout_contribution(lines, line_height, halign, valign, k - 1, c);
        lemma_or_bit(prev, added, q as u16);
        let i = k - 1;
        let n = lines.len() as int;
        let y = layout_line_y(n, line_height, valign, i);
        let len = lines[i]@.len() as int;
        let x = layout_x_offset(max_line_len(lines) as int, len, halign);
        assert(column_bit(added, q) == line_sets_bit(lines, line_height, halign, valign, i, c, q)) by {
            if y >= 0 && x <= c < x + len {
                assert(i * line_height == i * line_height);
                assert(y < 16);
                lemma_shl_bit(lines[i]@[c - x], y as u16, q as u16);
            } else {
                lemma_zero_bits(q as u16);
            }
        }
        if column_bit(layout_column(lines, line_height, halign, valign, c, k), q) {
            if !column_bit(prev, q) {
                assert(line_sets_bit(lines, line_height, halign, valign, i, c, q));
            }
        }
        if exists|j: int| 0 <= j < k && #[trigger] line_sets_bit(lines, line_height, halign, valign, j, c, q) {
            let j = choose|j: int| 0 <= j < k && #[trigger] line_sets_bit(lines, line_height, halign, valign, j, c, q);
            if j < k - 1 {
                assert(column_bit(prev, q));
            }
        }
    }
}

/// What `layout_text` puts in the bitmap: bit `q` of column `c` is set
/// exactly where some line, placed as `line_sets_bit` says, has the bit set.
pub proof fn lemma_layout_column_bits(
    lines: Seq<Vec<u16>>,
    line_height: int,
    halign: HAlign,
    valign: VAlign,
    c: int,
    q: int,
)
    requires
        layout_defined(lines, line_height, valign),
        0 <= q < 16,
    ensures
        column_bit(layout_column(lines, line_height, halign, valign, c, lines.len() as int), q)
            <==> exists|i: int|
            0 <= i < lines.len() && #[trigger] line_sets_bit(lines, line_height, halign, valign, i, c, q),
{
    lemma_layout_column_bits_prefix(lines, line_height, halign, valign, c, q, lines.len() as int);
}

/// Lays the lines out into one bitmap of 16-row columns, as wide as the
/// widest line: the lines follow each other `line_height` rows apart, the
/// block is placed vertically by `valign` and each line horizontally by
/// `halign`. Each column is stored least significant byte first.
pub fn layout_text(lines: &[Vec<u16>], line_height: i32, halign: HAlign, valign: VAlign) -> (wide: Vec<
    [u8; 2],
>)
    requires
        layout_defined(lines@, line_height as int, valign),
    ensures
        wide@.len() == max_line_len(lines@),
        forall|c: int|
            0 <= c < wide@.len() ==> le16_value(#[trigger] wide@[c][0], wide@[c][1])
                == layout_column(lines@, line_height as int, halign, valign, c, lines@.len() as int),
{
    let ghost ls = lines@;
    let ghost lh = line_height as int;
    let n = lines.len();
    let num_lines = n as i32;
    let total_text_height = num_lines * line_height;

    let mut max_width: usize = 0;
    let mut i: usize = 0;
    while i < n
        invariant
            n == ls.len(),
            ls == lines@,
            i <= n,
            max_width == max_line_len(ls.subrange(0, i as int)),
        decreases n - i,
    {
        assert(ls.subrange(0, i + 1).drop_last() =~= ls.subrange(0, i as int));
        if lines[i].len() > max_width {
            max_width = lines[i].len();
        }
        i = i + 1;
    }
    assert(ls.subrange(0, n as int) =~= ls);

    let y_offset: i32 = match valign {
        VAlign::Top => 0,
        VAlign::Center => (16 - total_text_height) / 2,
        VAlign::Bottom => 16 - total_text_height,
    };
    assert(y_offset == layout_y_offset(n as int, lh, valign));

    let mut wide: Vec<[u8; 2]> = Vec::new();
    let mut k: usize = 0;
    while k < max_width
        invariant
            k <= max_width,
            wide@.len() == k,
            forall|c: int| 0 <= c < k ==> le16_value(#[trigger] wide@[c][0], wide@[c][1]) == 0,
        decreases max_width - k,
    {
        wide.push([0u8, 0u8]);
        k = k + 1;
    }

    let mut line_idx: usize = 0;
    while line_idx < n
        invariant
            n == ls.len(),
            ls == lines@,
            lh == line_height,
            layout_defined(ls, lh, valign),
            max_width == max_line_len(ls),
            y_offset == layout_y_offset(n as int, lh, valign),
            line_idx <= n,
            wide@.len() == max_width,
            forall|c: int|
                0 <= c < max_width ==> le16_value(#[trigger] wide@[c][0], wide@[c][1])
                    == layout_column(ls, lh, halign, valign, c, line_idx as int),
        decreases n - line_idx,
    {
        let line = &lines[line_idx];
        let len = line.len();
        proof {
            lemma_max_line_len(ls, line_idx as int);
            assert(i32::MIN <= #[trigger] (line_idx as int * lh) <= i32::MAX);
        }
        let x_offset: usize = match halign {
            HAlign::Left => 0,
            HAlign::Center => (max_width - len) / 2,
            HAlign::Right => max_width - len,
        };
        let line_y: i32 = y_offset + line_idx as i32 * line_height;
        let ghost idx = line_idx as int;
        assert(line_y == layout_line_y(n as int, lh, valign, idx));
        assert(x_offset == layout_x_offset(max_width as int, len as int, halign));

        let mut col_idx: usize = 0;
        while col_idx < len
            invariant
                n == ls.len(),
                ls == lines@,
                lh == line_height,
                layout_defined(ls, lh, valign),
                max_width == max_line_len(ls),
                idx == line_idx,
                idx < n,
                len == ls[idx]@.len(),
                line@ == ls[idx]@,
                len <= max_width,
                x_offset + len <= max_width,
                x_offset == layout_x_offset(max_width as int, len as int, halign),
                line_y == layout_line_y(n as int, lh, valign, idx),
                col_idx <= len,
                wide@.len() == max_width,
                forall|c: int|
                    0 <= c < max_width ==> le16_value(#[trigger] wide@[c][0], wide@[c][1]) == (if line_y
                        >= 0 && x_offset <= c < x_offset + col_idx {
                        layout_column(ls, lh, halign, valign, c, idx) | layout_contribution(
                            ls,
                            lh,
                            halign,
                            valign,
                            idx,
                            c,
                        )
                    } else {
                        layout_column(ls, lh, halign, valign, c, idx)
                    }),
            decreases len - col_idx,
        {
            let col_data = line[col_idx];
            let target_col = x_offset + col_idx;
            if target_col < max_width && line_y >= 0 {
                assert(line_y < 16);
                let shifted = col_data << (line_y as u16);
                let existing = u16_from_le(wide[target_col]);
                let ghost before = wide@;
                wide.set(target_col, u16_to_le(existing | shifted));
                assert forall|c: int| 0 <= c < max_width implies le16_value(
                    #[trigger] wide@[c][0],
                    wide@[c][1],
                ) == (if line_y >= 0 && x_offset <= c < x_offset + col_idx + 1 {
                    layout_column(ls, lh, halign, valign, c, idx) | layout_contribution(
                        ls,
                        lh,
                        halign,
                        valign,
                        idx,
                        c,
                    )
                } else {
                    layout_column(ls, lh, halign, valign, c, idx)
                }) by {
                    if c != target_col {
                        assert(wide@[c] == before[c]);
                    }
                }
            }
            col_idx = col_idx + 1;
        }
        assert forall|c: int| 0 <= c < max_width implies le16_value(
            #[trigger] wide@[c][0],
            wide@[c][1],
        ) == layout_column(ls, lh, halign, valign, c, idx + 1) by {
            if !(line_y >= 0 && x_offset <= c < x_offset + len) {
                lemma_or_zero(layout_column(ls, lh, halign, valign, c, idx));
            }
        }
        line_idx = line_idx + 1;
    }
    wide
}

/// The column at position `j` of a bitmap, zero outside it.
pub open spec fn bitmap_column(wide: Seq<[u8; 2]>, j: int) -> u16 {
    if 0 <= j < wide.len() {
        le16_value(wide[j][0], wide[j][1]) as u16
    } else {
        0
    }
}

/// Whether bit `row` of `column` is set.
pub open spec fn column_bit(column: u16, row: int) -> bool {
    (column >> (row as u16)) & 1u16 == 1u16
}

/// The colour of display pixel (`row`, `col`) when the display shows the
/// bitmap from column `scroll_offset` on.
pub open spec fn frame_pixel(
    wide: Seq<[u8; 2]>,
    scroll_offset: int,
    fg: [u8; 3],
    bg: [u8; 3],
    row: int,
    col: int,
) -> [u8; 3] {
    if column_bit(bitmap_column(wide, scroll_offset + col), row) {
        fg
    } else {
        bg
    }
}

/// Renders the 16x16 window of the bitmap that starts at column
/// `scroll_offset`: pixel `row * 16 + col` is `fg` where bit `row` of
/// bitmap column `scroll_offset + col` is set, and `bg` elsewhere (also
/// outside the bitmap).
pub fn render_frame(wide_bitmap: &[[u8; 2]], scroll_offset: i32, fg: [u8; 3], bg: [u8; 3]) -> (pixels: [[u8; 3]; 256])
    requires
        scroll_offset + 15 <= i32::MAX,
    ensures
        forall|row: int, col: int|
            0 <= row < 16 && 0 <= col < 16 ==> #[trigger] pixels@[row * 16 + col] == frame_pixel(
                wide_bitmap@,
                scroll_offset as int,
                fg,
                bg,
                row,
                col,
            ),
{
    let mut pixels = [bg; 256];
    let mut screen_col: i32 = 0;
    while screen_col < 16
        invariant
            0 <= screen_col <= 16,
            scroll_offset + 15 <= i32::MAX,
            forall|row: int, col: int|
                0 <= row < 16 && 0 <= col < 16 ==> #[trigger] pixels@[row * 16 + col] == (if col
                    < screen_col {
                    frame_pixel(wide_bitmap@, scroll_offset as int, fg, bg, row, col)
                } else {
                    bg
                }),
        decreases 16 - screen_col,
    {
        let src_col = scroll_offset + screen_col;
        let column_data: u16 = if src_col >= 0 && (src_col as usize) < wide_bitmap.len() {
            u16_from_le(wide_bitmap[src_col as usize])
        } else {
            0
        };
        assert(column_data == bitmap_column(wide_bitmap@, src_col as int));
        let mut row: i32 = 0;
        while row < 16
            invariant
                0 <= row <= 16,
                0 <= screen_col < 16,
                column_data == bitmap_column(wide_bitmap@, scroll_offset + screen_col),
                forall|r: int, col: int|
                    0 <= r < 16 && 0 <= col < 16 ==> #[trigger] pixels@[r * 16 + col] == (if col
                        < screen_col || (col == screen_col && r < row) {
                        frame_pixel(wide_bitmap@, scroll_offset as int, fg, bg, r, col)
                    } else {
                        bg
                    }),
            decreases 16 - row,
        {
            let bit_set = (column_data >> (row as u16)) & 1 == 1;
            let idx = (row * 16 + screen_col) as usize;
            if bit_set {
                pixels[idx] = fg;
            }
            row = row + 1;
        }
        screen_col = screen_col + 1;
    }
    pixels
}

/// The ascent used for the glyphs: FONT_ASCENT, or else the bounding box
/// height.
pub open spec fn bdf_ascent(m: BdfFontMetrics) -> int {
    match m.ascent {
        Some(a) => a as int,
        None => m.bounding_box_height as int,
    }
}

/// The descent used for the glyphs: FONT_DESCENT, or else zero.
pub open spec fn bdf_descent(m: BdfFontMetrics) -> int {
    match m.descent {
        Some(d) => d as int,
        None => 0,
    }
}

/// `num / den` (den > 0) rounded to the nearest integer, halves away from
/// zero.
pub open spec fn round_div(num: int, den: int) -> int {
    if num >= 0 {
        (2 * num + den) / (2 * den)
    } else {
        -((2 * (-num) + den) / (2 * den))
    }
}

/// `v` saturated to the range of `i32`.
pub open spec fn clamp_i32(v: int) -> int {
    if v < i32::MIN {
        i32::MIN as int
    } else if v > i32::MAX {
        i32::MAX as int
    } else {
        v
    }
}

/// The ascent scaled from the font's height to `target_height` rows:
/// `round(ascent * target_height / (ascent + descent))` when the font has a
/// positive height, the ascent itself otherwise.
pub open spec fn bdf_scaled_ascent(m: BdfFontMetrics, target_height: int) -> int {
    let a = bdf_ascent(m);
    let h = a + bdf_descent(m);
    if h > 0 {
        clamp_i32(round_div(a * target_height, h))
    } else {
        a
    }
}

/// Pixel (`x`, `y`) of the glyph's bitmap, `y` counted downwards from the top
/// of its bounding box; unset outside the bounding box and where the bitmap
/// holds no byte for it.
pub open spec fn bdf_pixel(g: BdfGlyphView, x: int, y: int) -> bool {
    &&& 0 <= x < g.width
    &&& 0 <= y < g.height
    &&& {
        let idx = x / 8 + ((g.width + 7) / 8) * y;
        &&& idx < g.bitmap.len()
        &&& g.bitmap[idx] & (0x80u8 >> ((x % 8) as u8)) != 0u8
    }
}

/// The number of columns of a rendered glyph: its device width, at least one.
pub open spec fn bdf_glyph_columns(g: BdfGlyphView) -> int {
    if g.device_width > 1 {
        g.device_width as int
    } else {
        1
    }
}

/// Whether row `r` of column `c` of the rendered glyph is set: the glyph is
/// placed so that its baseline falls at the scaled ascent.
pub open spec fn bdf_column_bit(m: BdfFontMetrics, g: BdfGlyphView, target_height: int, c: int, r: int) -> bool {
    &&& 0 <= r < target_height
    &&& bdf_pixel(
        g,
        c - g.x_offset,
        g.y_offset + g.height - bdf_scaled_ascent(m, target_height) + r,
    )
}

/// Column `c` of the rendered glyph with its first `k` rows drawn: bit `r`
/// is set for the rows whose pixel is set.
pub open spec fn bdf_column_word(m: BdfFontMetrics, g: BdfGlyphView, target_height: int, c: int, k: int) -> u16
    decreases k,
{
    if k <= 0 {
        0
    } else {
        bdf_column_word(m, g, target_height, c, k - 1) | (if bdf_column_bit(
            m,
            g,
            target_height,
            c,
            k - 1,
        ) {
            1u16 << ((k - 1) as u16)
        } else {
            0u16
        })
    }
}

/// The columns rendered for a glyph of a font with metrics `m`: one empty
/// column for a missing glyph, else one column per unit of device width.
pub open spec fn bdf_glyph_render(m: BdfFontMetrics, glyph: Option<BdfGlyphView>, target_height: int) -> Seq<u16> {
    match glyph {
        None => seq![0u16],
        Some(g) => Seq::new(
            bdf_glyph_columns(g) as nat,
            |c: int| bdf_column_word(m, g, target_height, c, target_height),
        ),
    }
}

/// Rendering the glyph at `target_height` rows sets no bit that a 16-row
/// column cannot hold: the height is at most 16, or the glyph is missing, or
/// none of its set pixels falls in a row from the seventeenth on.
pub open spec fn bdf_glyph_fits(m: BdfFontMetrics, glyph: Option<BdfGlyphView>, target_height: int) -> bool {
    target_height <= 16 || match glyph {
        None => true,
        Some(g) => bdf_rows_clear(m, g, target_height),
    }
}

/// No set pixel of the rendered glyph lies in a row from the seventeenth on.
pub open spec fn bdf_rows_clear(m: BdfFontMetrics, g: BdfGlyphView, target_height: int) -> bool {
    forall|c: int, r: int|
        0 <= c < bdf_glyph_columns(g) && 16 <= r < target_height ==> !#[trigger] bdf_column_bit(
            m,
            g,
            target_height,
            c,
            r,
        )
}

proof fn lemma_zero_bits(r: u16)
    requires
        r < 16,
    ensures
        (0u16 >> r) & 1u16 != 1u16,
{
    assert((0u16 >> r) & 1u16 != 1u16) by (bit_vector);
}

proof fn lemma_set_bit(w: u16, row: u16, r: u16)
    requires
        row < 16,
        r < 16,
    ensures
        (((w | (1u16 << row)) >> r) & 1u16 == 1u16) == (((w >> r) & 1u16 == 1u16) || r == row),
{
    assert((((w | (1u16 << row)) >> r) & 1u16 == 1u16) == (((w >> r) & 1u16 == 1u16) || r == row))
        by (bit_vector)
        requires
            row < 16,
            r < 16,
    ;
}

/// Reads pixel (`x`, `y`) of the glyph's bitmap.
fn glyph_pixel(g: &BdfGlyph, x: i64, y: i64) -> (b: bool)
    ensures
        b == bdf_pixel(g@, x as int, y as int),
{
    if x < 0 || x >= g.width as i64 || y < 0 || y >= g.height as i64 {
        return false;
    }
    let bytes_per_row: u64 = (g.width as u64 + 7) / 8;
    proof {
        vstd::arithmetic::mul::lemma_mul_upper_bound(
            bytes_per_row as int,
            0x1000_0000,
            y as int,
            0x8000_0000,
        );
    }
    let idx: u64 = (x as u64) / 8 + bytes_per_row * (y as u64);
    if idx >= g.bitmap.len() as u64 {
        return false;
    }
    let mask: u8 = 0x80u8 >> ((x as u64 % 8) as u8);
    g.bitmap[idx as usize] & mask != 0
}

/// Renders a glyph into columns of `target_height` rows: the glyph is moved
/// up or down so that the font's ascent, scaled to `target_height`, falls on
/// the last row above the baseline; a missing glyph gives one empty column.
pub fn rasterize_bdf_glyph(metrics: &BdfFontMetrics, glyph: Option<&BdfGlyph>, target_height: i32) -> (r:
    RasterizedGlyph)
    requires
        bdf_glyph_fits(
            *metrics,
            match glyph {
                Some(g) => Some(g@),
                None => None,
            },
            target_height as int,
        ),
    ensures
        r.columns@ == bdf_glyph_render(
            *metrics,
            match glyph {
                Some(g) => Some(g@),
                None => None,
            },
            target_height as int,
        ),
{
    let g = match glyph {
        Some(g) => g,
        None => {
            let mut columns: Vec<u16> = Vec::new();
            columns.push(0);
            return RasterizedGlyph { columns };
        },
    };
    let ascent: i64 = match metrics.ascent {
        Some(a) => a as i64,
        None => metrics.bounding_box_height as i64,
    };
    let descent: i64 = match metrics.descent {
        Some(d) => d as i64,
        None => 0,
    };
    let font_height: i64 = ascent + descent;
    let scaled_ascent: i64 = if font_height > 0 {
        proof {
            assert(-0x8000_0000 * 0x8000_0000 <= ascent * target_height <= 0x8000_0000 * 0x8000_0000)
                by (nonlinear_arith)
                requires
                    -0x8000_0000 <= ascent <= 0x7fff_ffff,
                    -0x8000_0000 <= target_height <= 0x7fff_ffff,
            ;
        }
        let num: i128 = ascent as i128 * target_height as i128;
        let den: i128 = font_height as i128;
        let q: i128 = if num >= 0 {
            (2 * num + den) / (2 * den)
        } else {
            -((2 * (-num) + den) / (2 * den))
        };
        if q < i32::MIN as i128 {
            i32::MIN as i64
        } else if q > i32::MAX as i128 {
            i32::MAX as i64
        } else {
            q as i64
        }
    } else {
        ascent
    };
    assert(scaled_ascent == bdf_scaled_ascent(*metrics, target_height as int));
    let width: usize = if g.device_width > 1 {
        g.device_width as usize
    } else {
        1
    };
    let mut columns: Vec<u16> = Vec::new();
    let mut col: usize = 0;
    while col < width
        invariant
            width == bdf_glyph_columns(g@),
            bdf_glyph_fits(*metrics, Some(g@), target_height as int),
            scaled_ascent == bdf_scaled_ascent(*metrics, target_height as int),
            col <= width,
            columns@.len() == col,
            forall|c: int|
                0 <= c < col ==> #[trigger] columns@[c] == bdf_column_word(
                    *metrics,
                    g@,
                    target_height as int,
                    c,
                    target_height as int,
                ),
        decreases width - col,
    {
        let mut word: u16 = 0;
        let mut row: i32 = 0;
        while row < target_height
            invariant
                0 <= row,
                row <= target_height || target_height < 0,
                target_height < 0 ==> row == 0,
                bdf_glyph_fits(*metrics, Some(g@), target_height as int),
                width == bdf_glyph_columns(g@),
                scaled_ascent == bdf_scaled_ascent(*metrics, target_height as int),
                col < width,
                width <= i32::MAX,
                word == bdf_column_word(*metrics, g@, target_height as int, col as int, row as int),
            decreases target_height - row,
        {
            let pixel_x: i64 = col as i64 - g.x_offset as i64;
            let pixel_y: i64 = g.y_offset as i64 + g.height as i64 - scaled_ascent + row as i64;
            if glyph_pixel(g, pixel_x, pixel_y) {
                proof {
                    if target_height > 16 {
                        assert(bdf_rows_clear(*metrics, g@, target_height as int));
                    }
                }
                assert(bdf_column_bit(*metrics, g@, target_height as int, col as int, row as int));
                assert(row < 16);
                word = word | (1u16 << (row as u16));
            } else {
                proof {
                    lemma_or_zero(word);
                }
            }
            row = row + 1;
        }
        columns.push(word);
        col = col + 1;
    }
    assert(columns@ =~= bdf_glyph_render(*metrics, Some(g@), target_height as int));
    RasterizedGlyph { columns }
}

/// Renders the glyph of `ch` in `font` into columns of `target_height` rows,
/// as `rasterize_bdf_glyph` does for the font's metrics and the glyph that
/// the font holds for `ch`.
pub fn rasterize_glyph_bdf(font: &BdfFont, ch: char, target_height: i32) -> (r: RasterizedGlyph)
    requires
        bdf_glyph_fits(bdf_font_metrics(*font), find_glyph(bdf_font_glyphs(*font), ch), target_height as int),
    ensures
        r.columns@ == bdf_glyph_render(
            bdf_font_metrics(*font),
            find_glyph(bdf_font_glyphs(*font), ch),
            target_height as int,
        ),
{
    let metrics = font_metrics(font);
    let glyph = bdf_glyph(font, ch);
    match &glyph {
        Some(g) => rasterize_bdf_glyph(&metrics, Some(g), target_height),
        None => rasterize_bdf_glyph(&metrics, None, target_height),
    }
}

/// Bit `r` of a rendered glyph column is set exactly where the glyph has a
/// pixel in row `r` of the `target_height` rows; rows at or past
/// `target_height` stay clear.
pub proof fn lemma_bdf_column_bits(m: BdfFontMetrics, g: BdfGlyphView, target_height: int, c: int, r: int)
    requires
        bdf_glyph_fits(m, Some(g), target_height),
        target_height <= 16 || 0 <= c < bdf_glyph_columns(g),
        0 <= r < 16,
    ensures
        column_bit(bdf_column_word(m, g, target_height, c, target_height), r) == bdf_column_bit(
            m,
            g,
            target_height,
            c,
            r,
        ),
{
    lemma_bdf_column_word_bits(m, g, target_height, c, target_height, r);
    assert(bdf_column_bit(m, g, target_height, c, r) ==> r < target_height);
}

/// `round_div` rounds to the nearest integer, halves away from zero:
/// `2 * den * q` lies within `den` of `2 * num`, a tie going up for a
/// non-negative `num` and down for a negative one.
pub proof fn lemma_round_div(num: int, den: int)
    requires
        den > 0,
    ensures
        num >= 0 ==> -den <= 2 * num - 2 * den * round_div(num, den) < den,
        num < 0 ==> -den < 2 * num - 2 * den * round_div(num, den) <= den,
{
    let m = if num >= 0 {
        num
    } else {
        -num
    };
    let x = 2 * m + den;
    let d2 = 2 * den;
    vstd::arithmetic::div_mod::lemma_fundamental_div_mod(x, d2);
    vstd::arithmetic::div_mod::lemma_mod_pos_bound(x, d2);
    let q = x / d2;
    assert(-den <= 2 * m - 2 * den * q < den) by (nonlinear_arith)
        requires
            x == d2 * q + x % d2,
            0 <= x % d2 < d2,
            x == 2 * m + den,
            d2 == 2 * den,
    ;
    let r = round_div(num, den);
    if num >= 0 {
        assert(r == q);
    } else {
        assert(r == -q);
        assert(2 * num - 2 * den * r == -(2 * m - 2 * den * q)) by (nonlinear_arith)
            requires
                r == -q,
                m == -num,
        ;
    }
}

/// The ascent that places glyphs on `target_height` rows: with `a` the
/// FONT_ASCENT (else the bounding box height) and `d` the FONT_DESCENT
/// (else 0), it is `a` when `a + d <= 0`, and otherwise the integer nearest
/// to `a * target_height / (a + d)`, halves away from zero, wherever that
/// quotient lies within the range of `i32`.
pub proof fn lemma_bdf_scaled_ascent(m: BdfFontMetrics, target_height: int)
    ensures
        ({
            let a: int = match m.ascent {
                Some(x) => x as int,
                None => m.bounding_box_height as int,
            };
            let d: int = match m.descent {
                Some(x) => x as int,
                None => 0,
            };
            let h = a + d;
            let s = bdf_scaled_ascent(m, target_height);
            &&& h <= 0 ==> s == a
            &&& h > 0 && i32::MIN * h <= a * target_height <= i32::MAX * h ==> {
                &&& a * target_height >= 0 ==> -h <= 2 * a * target_height - 2 * h * s < h
                &&& a * target_height < 0 ==> -h < 2 * a * target_height - 2 * h * s <= h
            }
        }),
{
    let a = bdf_ascent(m);
    let h = a + bdf_descent(m);
    let n = a * target_height;
    if h > 0 && i32::MIN * h <= n <= i32::MAX * h {
        lemma_round_div(n, h);
        let q = round_div(n, h);
        assert(i32::MIN <= q <= i32::MAX) by (nonlinear_arith)
            requires
                h > 0,
                i32::MIN * h <= n <= i32::MAX * h,
                -h <= 2 * n - 2 * h * q <= h,
        ;
        assert(bdf_scaled_ascent(m, target_height) == q);
        assert(2 * a * target_height == 2 * n) by (nonlinear_arith)
            requires
                n == a * target_height,
        ;
    }
}

/// A glyph renders into as many columns as its device width, at least one;
/// a missing glyph renders into one empty column.
pub proof fn lemma_bdf_glyph_width(m: BdfFontMetrics, glyph: Option<BdfGlyphView>, target_height: int)
    ensures
        glyph is None ==> bdf_glyph_render(m, glyph, target_height) == seq![0u16],
        glyph matches Some(g) ==> bdf_glyph_render(m, glyph, target_height).len() == if g.device_width > 1 {
            g.device_width as int
        } else {
            1
        },
{
}

/// The glyph `g` with its bounding box moved by `dx` columns and `dy` rows.
pub open spec fn bdf_glyph_moved(g: BdfGlyphView, dx: int, dy: int) -> BdfGlyphView {
    BdfGlyphView {
        width: g.width,
        height: g.height,
        x_offset: (g.x_offset + dx) as i32,
        y_offset: (g.y_offset + dy) as i32,
        device_width: g.device_width,
        bitmap: g.bitmap,
    }
}

/// Where the pixels of a glyph land: bit `r` of rendered column `c` is the
/// bitmap pixel in column `c - x_offset` of the glyph's bitmap, and in row
/// `y_offset + height - a + r`, with `a` the scaled ascent; the bitmap holds
/// rows of `(width + 7) / 8` bytes, the leftmost pixel in the most
/// significant bit. Rows from `target_height` on stay clear.
pub proof fn lemma_bdf_glyph_pixels(m: BdfFontMetrics, g: BdfGlyphView, target_height: int, c: int, r: int)
    requires
        bdf_glyph_fits(m, Some(g), target_height),
        0 <= c < bdf_glyph_columns(g),
        0 <= r < 16,
    ensures
        bdf_glyph_render(m, Some(g), target_height).len() == bdf_glyph_columns(g),
        column_bit(bdf_glyph_render(m, Some(g), target_height)[c], r) == {
            let x = c - g.x_offset;
            let y = g.y_offset + g.height - bdf_scaled_ascent(m, target_height) + r;
            let i = x / 8 + ((g.width + 7) / 8) * y;
            &&& r < target_height
            &&& 0 <= x < g.width
            &&& 0 <= y < g.height
            &&& i < g.bitmap.len()
            &&& g.bitmap[i] & (0x80u8 >> ((x % 8) as u8)) != 0u8
        },
{
    lemma_bdf_column_bits(m, g, target_height, c, r);
}

/// Moving a glyph's bounding box one column to the right moves its
/// rendering one column to the right: column `c + 1` of the moved glyph is
/// column `c` of the glyph.
pub proof fn lemma_bdf_glyph_translation(m: BdfFontMetrics, g: BdfGlyphView, target_height: int, c: int, r: int)
    requires
        g.x_offset < i32::MAX,
        bdf_glyph_fits(m, Some(g), target_height),
        bdf_glyph_fits(m, Some(bdf_glyph_moved(g, 1, 0)), target_height),
        0 <= c,
        c + 1 < bdf_glyph_columns(g),
        0 <= r < 16,
    ensures
        column_bit(bdf_glyph_render(m, Some(bdf_glyph_moved(g, 1, 0)), target_height)[c + 1], r)
            == column_bit(bdf_glyph_render(m, Some(g), target_height)[c], r),
{
    let h = bdf_glyph_moved(g, 1, 0);
    lemma_bdf_column_bits(m, g, target_height, c, r);
    lemma_bdf_column_bits(m, h, target_height, c + 1, r);
    assert((c + 1) - h.x_offset == c - g.x_offset);
}

/// Raising a glyph's bounding box by one row raises its rendering by one
/// row: bit `r` of a column of the raised glyph is bit `r + 1` of the same
/// column of the glyph.
pub proof fn lemma_bdf_glyph_baseline(m: BdfFontMetrics, g: BdfGlyphView, target_height: int, c: int, r: int)
    requires
        g.y_offset < i32::MAX,
        bdf_glyph_fits(m, Some(g), target_height),
        bdf_glyph_fits(m, Some(bdf_glyph_moved(g, 0, 1)), target_height),
        0 <= c < bdf_glyph_columns(g),
        0 <= r,
        r + 1 < 16,
        r + 1 < target_height,
    ensures
        column_bit(bdf_glyph_render(m, Some(bdf_glyph_moved(g, 0, 1)), target_height)[c], r)
            == column_bit(bdf_glyph_render(m, Some(g), target_height)[c], r + 1),
{
    let h = bdf_glyph_moved(g, 0, 1);
    lemma_bdf_column_bits(m, g, target_height, c, r + 1);
    lemma_bdf_column_bits(m, h, target_height, c, r);
    assert(h.y_offset + h.height - bdf_scaled_ascent(m, target_height) + r == g.y_offset + g.height
        - bdf_scaled_ascent(m, target_height) + (r + 1));
}

/// The bottom row of a glyph's bitmap sits on the row just above the
/// baseline moved by the glyph's offset: row `a - y_offset - 1`, with `a`
/// the scaled ascent.
pub proof fn lemma_bdf_glyph_bottom_row(m: BdfFontMetrics, g: BdfGlyphView, target_height: int, c: int)
    requires
        bdf_glyph_fits(m, Some(g), target_height),
        0 <= c < bdf_glyph_columns(g),
        0 <= bdf_scaled_ascent(m, target_height) - g.y_offset - 1 < 16,
        bdf_scaled_ascent(m, target_height) - g.y_offset - 1 < target_height,
        0 <= c - g.x_offset < g.width,
        g.height > 0,
    ensures
        column_bit(
            bdf_glyph_render(m, Some(g), target_height)[c],
            bdf_scaled_ascent(m, target_height) - g.y_offset - 1,
        ) == bdf_pixel(g, c - g.x_offset, g.height - 1),
{
    lemma_bdf_column_bits(m, g, target_height, c, bdf_scaled_ascent(m, target_height) - g.y_offset - 1);
}

proof fn lemma_bdf_column_word_bits(
    m: BdfFontMetrics,
    g: BdfGlyphView,
    target_height: int,
    c: int,
    k: int,
    r: int,
)
    requires
        k <= target_height,
        target_height <= 16 || 0 <= c < bdf_glyph_columns(g),
        bdf_glyph_fits(m, Some(g), target_height),
        0 <= r < 16,
    ensures
        column_bit(bdf_column_word(m, g, target_height, c, k), r) == (r < k && bdf_column_bit(
            m,
            g,
            target_height,
            c,
            r,
        )),
    decreases k,
{
    if k <= 0 {
        lemma_zero_bits(r as u16);
    } else {
        lemma_bdf_column_word_bits(m, g, target_height, c, k - 1, r);
        let w = bdf_column_word(m, g, target_height, c, k - 1);
        if bdf_column_bit(m, g, target_height, c, k - 1) {
            if target_height > 16 {
                assert(bdf_rows_clear(m, g, target_height));
            }
            assert(k - 1 < 16);
            lemma_set_bit(w, (k - 1) as u16, r as u16);
        } else {
            lemma_or_zero(w);
        }
    }
}

/// The columns of a line of text: the rendered glyphs of its characters,
/// side by side.
pub open spec fn bdf_line_render(font: BdfFont, chars: Seq<char>, target_height: int) -> Seq<u16>
    decreases chars.len(),
{
    if chars.len() == 0 {
        seq![]
    } else {
        bdf_line_render(font, chars.drop_last(), target_height) + bdf_glyph_render(
            bdf_font_metrics(font),
            find_glyph(bdf_font_glyphs(font), chars.last()),
            target_height,
        )
    }
}

/// The columns of a text are those of its beginning followed by those of
/// its end.
pub proof fn lemma_bdf_line_render_concat(font: BdfFont, s: Seq<char>, t: Seq<char>, target_height: int)
    ensures
        bdf_line_render(font, s + t, target_height) == bdf_line_render(font, s, target_height)
            + bdf_line_render(font, t, target_height),
    decreases t.len(),
{
    if t.len() == 0 {
        assert(s + t =~= s);
        assert(bdf_line_render(font, s, target_height) + bdf_line_render(font, t, target_height)
            =~= bdf_line_render(font, s, target_height));
    } else {
        lemma_bdf_line_render_concat(font, s, t.drop_last(), target_height);
        assert((s + t).drop_last() =~= s + t.drop_last());
        assert((s + t).last() == t.last());
        let g = bdf_glyph_render(bdf_font_metrics(font), find_glyph(bdf_font_glyphs(font), t.last()), target_height);
        assert(bdf_line_render(font, s, target_height) + bdf_line_render(font, t.drop_last(), target_height) + g
            =~= bdf_line_render(font, s, target_height) + (bdf_line_render(font, t.drop_last(), target_height) + g));
    }
}

/// A single character renders as its glyph.
pub proof fn lemma_bdf_line_render_char(font: BdfFont, ch: char, target_height: int)
    ensures
        bdf_line_render(font, seq![ch], target_height) == bdf_glyph_render(
            bdf_font_metrics(font),
            find_glyph(bdf_font_glyphs(font), ch),
            target_height,
        ),
{
    assert(seq![ch].drop_last() =~= Seq::<char>::empty());
    assert(seq![ch].last() == ch);
    assert(bdf_line_render(font, seq![ch].drop_last(), target_height) =~= Seq::<u16>::empty());
    assert(Seq::<u16>::empty() + bdf_glyph_render(
        bdf_font_metrics(font),
        find_glyph(bdf_font_glyphs(font), ch),
        target_height,
    ) =~= bdf_glyph_render(bdf_font_metrics(font), find_glyph(bdf_font_glyphs(font), ch), target_height));
}

/// Appends the columns of `src` to `dst`.
fn append_columns(dst: &mut Vec<u16>, src: &Vec<u16>)
    ensures
        final(dst)@ == old(dst)@ + src@,
{
    let n = src.len();
    let mut i: usize = 0;
    while i < n
        invariant
            n == src@.len(),
            i <= n,
            dst@ == old(dst)@ + src@.subrange(0, i as int),
        decreases n - i,
    {
        dst.push(src[i]);
        i = i + 1;
        assert(src@.subrange(0, i as int) =~= src@.subrange(0, i - 1).push(src@[i - 1]));
    }
    assert(src@.subrange(0, n as int) =~= src@);
}

/// Every character of `chars` renders in `font` at `target_height` rows
/// within 16-row columns.
pub open spec fn bdf_chars_fit(font: BdfFont, chars: Seq<char>, target_height: int) -> bool {
    forall|i: int|
        0 <= i < chars.len() ==> bdf_glyph_fits(
            bdf_font_metrics(font),
            find_glyph(bdf_font_glyphs(font), #[trigger] chars[i]),
            target_height,
        )
}

/// Every character of `text` but the line breaks renders in `font` at
/// `target_height` rows within 16-row columns.
pub open spec fn bdf_text_fits(font: BdfFont, text: Seq<char>, target_height: int) -> bool {
    forall|i: int|
        0 <= i < text.len() && text[i] != '\n' ==> bdf_glyph_fits(
            bdf_font_metrics(font),
            find_glyph(bdf_font_glyphs(font), #[trigger] text[i]),
            target_height,
        )
}

/// Renders a line of text in `font` into columns of `target_height` rows,
/// glyph after glyph.
pub fn rasterize_line_bdf(font: &BdfFont, text: &str, target_height: i32) -> (columns: Vec<u16>)
    requires
        bdf_chars_fit(*font, text@, target_height as int),
    ensures
        columns@ == bdf_line_render(*font, text@, target_height as int),
{
    let chars = chars_of(text);
    let n = chars.len();
    let mut columns: Vec<u16> = Vec::new();
    let mut i: usize = 0;
    while i < n
        invariant
            chars@ == text@,
            n == chars@.len(),
            i <= n,
            bdf_chars_fit(*font, text@, target_height as int),
            columns@ == bdf_line_render(*font, chars@.take(i as int), target_height as int),
        decreases n - i,
    {
        let ch = chars[i];
        assert(text@[i as int] == ch);
        let glyph = rasterize_glyph_bdf(font, ch, target_height);
        append_columns(&mut columns, &glyph.columns);
        assert(chars@.take(i + 1).drop_last() =~= chars@.take(i as int));
        i = i + 1;
    }
    assert(chars@.take(n as int) =~= text@);
    columns
}

/// The lines of `s`, split at each '\\n' (an empty text is one empty line, a
/// trailing '\\n' ends with an empty line).
pub open spec fn split_lines(s: Seq<char>) -> Seq<Seq<char>>
    decreases s.len(),
{
    if s.len() == 0 {
        seq![seq![]]
    } else {
        let p = split_lines(s.drop_last());
        if s.last() == '\n' {
            p.push(seq![])
        } else {
            p.update(p.len() - 1, p.last().push(s.last()))
        }
    }
}

/// A text always has at least one line.
pub proof fn lemma_split_lines_nonempty(s: Seq<char>)
    ensures
        split_lines(s).len() >= 1,
    decreases s.len(),
{
    if s.len() > 0 {
        lemma_split_lines_nonempty(s.drop_last());
    }
}

/// The lines of `text`, split at each '\\n', as characters.
pub fn text_lines(text: &str) -> (lines: Vec<Vec<char>>)
    ensures
        lines@.len() == split_lines(text@).len(),
        forall|i: int| 0 <= i < lines@.len() ==> (#[trigger] lines@[i])@ == split_lines(text@)[i],
{
    let mut lines: Vec<Vec<char>> = Vec::new();
    let mut current: Vec<char> = Vec::new();
    let ghost mut seen: Seq<char> = Seq::empty();
    for ch in it: text.chars()
        invariant
            seen == it.seq().take(it.index() as int),
            lines@.len() + 1 == split_lines(seen).len(),
            forall|i: int| 0 <= i < lines@.len() ==> (#[trigger] lines@[i])@ == split_lines(seen)[i],
            current@ == split_lines(seen).last(),
    {
        let ghost pre = seen;
        proof {
            seen = seen.push(ch);
            assert(seen.drop_last() =~= pre);
            assert(it.seq().take(it.index() + 1) =~= seen);
            lemma_split_lines_nonempty(pre);
        }
        if ch == '\n' {
            let done = current;
            lines.push(done);
            current = Vec::new();
            assert(current@ =~= split_lines(seen).last());
        } else {
            current.push(ch);
        }
    }
    assert(seen =~= text@);
    lines.push(current);
    lines
}

/// Why a text cannot be rendered.
#[derive(Clone, Copy, Debug, PartialEq, Eq, Structural)]
pub enum TextError {
    /// The text is empty.
    Empty,
    /// The text has more than 16 lines.
    TooManyLines,
    /// The font file is not a valid BDF font.
    FontParse,
    /// The rendered text is wider than the display offsets, 32-bit signed
    /// integers, can reach.
    TooWide,
}

/// The height of each line when `text` is shown on the 16 rows of the
/// display: 16 divided by the number of lines.
pub open spec fn spec_text_line_height(text: Seq<char>) -> Result<i32, TextError> {
    let n = split_lines(text).len();
    if text.len() == 0 {
        Err(TextError::Empty)
    } else if n > 16 {
        Err(TextError::TooManyLines)
    } else {
        Ok((16nat / n) as i32)
    }
}

/// The height of each line of `text` on the display, or why the text cannot
/// be shown.
pub fn text_line_height(text: &str) -> (r: Result<i32, TextError>)
    ensures
        r == spec_text_line_height(text@),
{
    if text.is_empty() {
        return Err(TextError::Empty);
    }
    let mut num_lines: usize = 1;
    let ghost mut seen: Seq<char> = Seq::empty();
    for ch in it: text.chars()
        invariant
            seen == it.seq().take(it.index() as int),
            1 <= num_lines <= 17,
            num_lines == (if split_lines(seen).len() > 17 {
                17
            } else {
                split_lines(seen).len()
            }),
    {
        proof {
            let prev = seen;
            seen = seen.push(ch);
            assert(seen.drop_last() =~= prev);
            assert(it.seq().take(it.index() + 1) =~= seen);
            lemma_split_lines_nonempty(prev);
        }
        if ch == '\n' && num_lines <= 16 {
            num_lines = num_lines + 1;
        }
    }
    assert(seen =~= text@);
    if num_lines > 16 {
        return Err(TextError::TooManyLines);
    }
    Ok((16 / num_lines) as i32)
}

/// Renders every line of `text` in `font` into columns of `line_height`
/// rows: one list of columns per line.
pub fn rasterize_text_bdf(font: &BdfFont, text: &str, line_height: i32) -> (lines: Vec<Vec<u16>>)
    requires
        bdf_text_fits(*font, text@, line_height as int),
    ensures
        lines@.len() == split_lines(text@).len(),
        forall|i: int|
            0 <= i < lines@.len() ==> (#[trigger] lines@[i])@ == bdf_line_render(
                *font,
                split_lines(text@)[i],
                line_height as int,
            ),
{
    let chars = chars_of(text);
    let n = chars.len();
    let mut lines: Vec<Vec<u16>> = Vec::new();
    let mut current: Vec<u16> = Vec::new();
    let mut k: usize = 0;
    while k < n
        invariant
            chars@ == text@,
            n == chars@.len(),
            k <= n,
            bdf_text_fits(*font, text@, line_height as int),
            lines@.len() + 1 == split_lines(chars@.take(k as int)).len(),
            forall|i: int|
                0 <= i < lines@.len() ==> (#[trigger] lines@[i])@ == bdf_line_render(
                    *font,
                    split_lines(chars@.take(k as int))[i],
                    line_height as int,
                ),
            current@ == bdf_line_render(*font, split_lines(chars@.take(k as int)).last(), line_height as int),
        decreases n - k,
    {
        let ghost pre = chars@.take(k as int);
        let ch = chars[k];
        assert(text@[k as int] == ch);
        proof {
            assert(chars@.take(k + 1).drop_last() =~= pre);
            assert(chars@.take(k + 1).last() == ch);
            lemma_split_lines_nonempty(pre);
        }
        if ch == '\n' {
            let done = current;
            lines.push(done);
            current = Vec::new();
        } else {
            let glyph = rasterize_glyph_bdf(font, ch, line_height);
            append_columns(&mut current, &glyph.columns);
            proof {
                let last = split_lines(pre).last();
                assert(last.push(ch).drop_last() =~= last);
            }
        }
        k = k + 1;
    }
    assert(chars@.take(n as int) =~= text@);
    lines.push(current);
    lines
}

/// Renders every line of `text` in the BDF font stored in `font_data`, or
/// reports that the font data is not a valid BDF font.
pub fn bdf_text_lines(font_data: &[u8], text: &str, line_height: i32) -> (r: Result<
    Vec<Vec<u16>>,
    TextError,
>)
    requires
        line_height <= 16 || match bdf_parse(font_data@) {
            Some(font) => bdf_text_fits(font, text@, line_height as int),
            None => true,
        },
    ensures
        match r {
            Ok(lines) => {
                &&& bdf_parse(font_data@) is Some
                &&& lines@.len() == split_lines(text@).len()
                &&& forall|i: int|
                    0 <= i < lines@.len() ==> (#[trigger] lines@[i])@ == bdf_line_render(
                        bdf_parse(font_data@)->Some_0,
                        split_lines(text@)[i],
                        line_height as int,
                    )
            },
            Err(e) => e == TextError::FontParse && bdf_parse(font_data@) is None,
        },
{
    match parse_bdf_font(font_data) {
        Some(font) => Ok(rasterize_text_bdf(&font, text, line_height)),
        None => Err(TextError::FontParse),
    }
}

/// A text that can be shown (at most 16 lines, each `16 / lines` rows high)
/// always lays out inside the display: whatever its lines hold, `layout_text`
/// is defined on them for every vertical alignment.
pub proof fn lemma_text_layout_defined(lines: Seq<Vec<u16>>, line_height: int, valign: VAlign)
    requires
        1 <= lines.len() <= 16,
        line_height == 16int / (lines.len() as int),
    ensures
        layout_defined(lines, line_height, valign),
{
    let n = lines.len() as int;
    assert(1 <= line_height <= 16) by (nonlinear_arith)
        requires
            line_height == 16int / n,
            1 <= n <= 16,
    ;
    assert(n * line_height <= 16) by (nonlinear_arith)
        requires
            line_height == 16int / n,
            n >= 1,
    ;
    assert(n * line_height >= 1) by (nonlinear_arith)
        requires
            line_height >= 1,
            n >= 1,
    ;
    assert forall|i: int| 0 <= i < n implies {
        &&& i32::MIN <= #[trigger] (i * line_height) <= i32::MAX
        &&& i32::MIN <= layout_line_y(n, line_height, valign, i) <= i32::MAX
        &&& 0 <= layout_line_y(n, line_height, valign, i) < 16
    } by {
        assert(0 <= i * line_height <= (n - 1) * line_height) by (nonlinear_arith)
            requires
                0 <= i < n,
                line_height >= 1,
        ;
        assert((n - 1) * line_height == n * line_height - line_height) by (nonlinear_arith);
    }
}

/// Whether row `r` of column `c` of a glyph rendered from a coverage bitmap
/// (`width` x `height`, one byte per pixel, row-major) is set: the bitmap is
/// shifted by (`x_offset`, `y_offset`) and a pixel is set from half coverage
/// (128) up.
pub open spec fn coverage_bit(
    bitmap: Seq<u8>,
    width: int,
    height: int,
    x_offset: int,
    y_offset: int,
    target_height: int,
    c: int,
    r: int,
) -> bool {
    let bx = c - x_offset;
    let by = r - y_offset;
    &&& 0 <= r < target_height
    &&& 0 <= bx < width
    &&& 0 <= by < height
    &&& bitmap[by * width + bx] >= 128
}

/// Column `c` of a glyph rendered from a coverage bitmap, its first `k` rows
/// drawn.
pub open spec fn coverage_word(
    bitmap: Seq<u8>,
    width: int,
    height: int,
    x_offset: int,
    y_offset: int,
    target_height: int,
    c: int,
    k: int,
) -> u16
    decreases k,
{
    if k <= 0 {
        0
    } else {
        coverage_word(bitmap, width, height, x_offset, y_offset, target_height, c, k - 1) | (if coverage_bit(
            bitmap,
            width,
            height,
            x_offset,
            y_offset,
            target_height,
            c,
            k - 1,
        ) {
            1u16 << ((k - 1) as u16)
        } else {
            0u16
        })
    }
}

/// No pixel drawn from the coverage bitmap into the `columns` columns lies
/// in a row from the seventeenth on: a 16-row column holds the glyph.
pub open spec fn coverage_rows_clear(
    bitmap: Seq<u8>,
    width: int,
    height: int,
    x_offset: int,
    y_offset: int,
    target_height: int,
    columns: int,
) -> bool {
    forall|c: int, r: int|
        0 <= c < columns && 16 <= r < target_height ==> !#[trigger] coverage_bit(
            bitmap,
            width,
            height,
            x_offset,
            y_offset,
            target_height,
            c,
            r,
        )
}

/// Renders a glyph given as a coverage bitmap into `max(advance, 1)` columns
/// of `target_height` rows: bitmap pixel (`bx`, `by`) lands in column
/// `bx + x_offset`, row `by + y_offset`, and is drawn where its coverage is at
/// least half.
pub fn rasterize_coverage(
    bitmap: &[u8],
    width: usize,
    height: usize,
    x_offset: i32,
    y_offset: i32,
    advance: i32,
    target_height: i32,
) -> (r: RasterizedGlyph)
    requires
        bitmap@.len() == width * height,
        width <= i32::MAX,
        height <= i32::MAX,
        target_height <= 16 || coverage_rows_clear(
            bitmap@,
            width as int,
            height as int,
            x_offset as int,
            y_offset as int,
            target_height as int,
            if advance > 1 {
                advance as int
            } else {
                1
            },
        ),
    ensures
        r.columns@.len() == (if advance > 1 {
            advance as int
        } else {
            1
        }),
        forall|c: int|
            0 <= c < r.columns@.len() ==> #[trigger] r.columns@[c] == coverage_word(
                bitmap@,
                width as int,
                height as int,
                x_offset as int,
                y_offset as int,
                target_height as int,
                c,
                target_height as int,
            ),
{
    let columns_len: usize = if advance > 1 {
        advance as usize
    } else {
        1
    };
    let mut columns: Vec<u16> = Vec::new();
    let mut col: usize = 0;
    while col < columns_len
        invariant
            bitmap@.len() == width * height,
            width <= i32::MAX,
            height <= i32::MAX,
            target_height <= 16 || coverage_rows_clear(
                bitmap@,
                width as int,
                height as int,
                x_offset as int,
                y_offset as int,
                target_height as int,
                columns_len as int,
            ),
            columns_len <= i32::MAX,
            col <= columns_len,
            columns@.len() == col,
            forall|c: int|
                0 <= c < col ==> #[trigger] columns@[c] == coverage_word(
                    bitmap@,
                    width as int,
                    height as int,
                    x_offset as int,
                    y_offset as int,
                    target_height as int,
                    c,
                    target_height as int,
                ),
        decreases columns_len - col,
    {
        let mut word: u16 = 0;
        let mut row: i32 = 0;
        while row < target_height
            invariant
                bitmap@.len() == width * height,
                width <= i32::MAX,
                height <= i32::MAX,
                0 <= row,
                row <= target_height || target_height < 0,
                target_height < 0 ==> row == 0,
                target_height <= 16 || coverage_rows_clear(
                    bitmap@,
                    width as int,
                    height as int,
                    x_offset as int,
                    y_offset as int,
                    target_height as int,
                    columns_len as int,
                ),
                col < columns_len,
                columns_len <= i32::MAX,
                word == coverage_word(
                    bitmap@,
                    width as int,
                    height as int,
                    x_offset as int,
                    y_offset as int,
                    target_height as int,
                    col as int,
                    row as int,
                ),
            decreases target_height - row,
        {
            let bx: i64 = col as i64 - x_offset as i64;
            let by: i64 = row as i64 - y_offset as i64;
            let set = if bx >= 0 && bx < width as i64 && by >= 0 && by < height as i64 {
                proof {
                    assert(by * width + bx < width * height) by (nonlinear_arith)
                        requires
                            0 <= bx < width,
                            0 <= by < height,
                    ;
                    assert(0 <= by * width) by (nonlinear_arith)
                        requires
                            0 <= by,
                            0 <= width,
                    ;
                }
                let n = bitmap.len();
                let y = by as usize;
                let x = bx as usize;
                assert(y * width + x < n);
                bitmap[y * width + x] >= 128
            } else {
                false
            };
            if set {
                assert(coverage_bit(
                    bitmap@,
                    width as int,
                    height as int,
                    x_offset as int,
                    y_offset as int,
                    target_height as int,
                    col as int,
                    row as int,
                ));
                assert(row < 16);
                word = word | (1u16 << (row as u16));
            } else {
                proof {
                    lemma_or_zero(word);
                }
            }
            row = row + 1;
        }
        columns.push(word);
        col = col + 1;
    }
    RasterizedGlyph { columns }
}

/// The colours of a 16x16 frame, pixel after pixel in row-major order.
pub open spec fn frame_colors(pixels: [[u8; 3]; 256]) -> Seq<Rgb> {
    Seq::new(256, |i: int| (pixels@[i][0], pixels@[i][1], pixels@[i][2]))
}

/// The first colour of a palette is the colour of the first pixel.
proof fn lemma_distinct_in_order_first(s: Seq<Rgb>)
    requires
        s.len() > 0,
    ensures
        distinct_in_order(s).len() > 0,
        distinct_in_order(s)[0] == s[0],
    decreases s.len(),
{
    let p = distinct_in_order(s.drop_last());
    if s.len() > 1 {
        lemma_distinct_in_order_first(s.drop_last());
        assert(s.drop_last()[0] == s[0]);
        if !p.contains(s.last()) {
            assert(p.push(s.last())[0] == p[0]);
        }
    } else {
        assert(s.drop_last().len() == 0);
        assert(p.len() == 0);
        assert(p.push(s.last())[0] == s[0]);
    }
}

/// The palette of a frame holds each colour of its pixels once, as
/// (red, green, blue): a colour is in it exactly when some pixel `p` has
/// that colour `(p[0], p[1], p[2])`. Its first entry is the colour of the
/// top-left pixel.
pub proof fn lemma_frame_palette_colors(pixels: [[u8; 3]; 256])
    ensures
        distinct_in_order(frame_colors(pixels)).no_duplicates(),
        forall|c: Rgb|
            #[trigger] distinct_in_order(frame_colors(pixels)).contains(c) <==> exists|i: int|
                0 <= i < 256 && c == (pixels@[i][0], pixels@[i][1], pixels@[i][2]),
        distinct_in_order(frame_colors(pixels)).len() > 0,
        distinct_in_order(frame_colors(pixels))[0] == (pixels@[0][0], pixels@[0][1], pixels@[0][2]),
{
    let s = frame_colors(pixels);
    lemma_distinct_in_order(s);
    lemma_distinct_in_order_first(s);
    assert forall|c: Rgb| #[trigger] distinct_in_order(s).contains(c) <==> exists|i: int|
        0 <= i < 256 && c == (pixels@[i][0], pixels@[i][1], pixels@[i][2]) by {
        if s.contains(c) {
            let i = choose|i: int| 0 <= i < s.len() && s[i] == c;
            assert(c == (pixels@[i][0], pixels@[i][1], pixels@[i][2]));
        }
        if exists|i: int| 0 <= i < 256 && c == (pixels@[i][0], pixels@[i][1], pixels@[i][2]) {
            let i = choose|i: int| 0 <= i < 256 && c == (pixels@[i][0], pixels@[i][1], pixels@[i][2]);
            assert(s[i] == c);
        }
    }
}

/// The palette of a frame: its distinct colours in the order of their first
/// occurrence.
pub fn frame_palette(pixels: &[[u8; 3]; 256]) -> (palette: Vec<Rgb>)
    ensures
        palette@ == distinct_in_order(frame_colors(*pixels)),
        palette@.no_duplicates(),
        forall|c: Rgb|
            #[trigger] palette@.contains(c) <==> exists|i: int|
                0 <= i < 256 && c == (pixels@[i][0], pixels@[i][1], pixels@[i][2]),
{
    proof {
        lemma_frame_palette_colors(*pixels);
    }
    let mut set = palette_new();
    let mut i: usize = 0;
    while i < 256
        invariant
            i <= 256,
            palette_items(set) == distinct_in_order(frame_colors(*pixels).subrange(0, i as int)),
        decreases 256 - i,
    {
        let ghost before = frame_colors(*pixels).subrange(0, i as int);
        let p = pixels[i];
        palette_insert(&mut set, (p[0], p[1], p[2]));
        i = i + 1;
        assert(frame_colors(*pixels).subrange(0, i as int).drop_last() =~= before);
    }
    assert(frame_colors(*pixels).subrange(0, 256) =~= frame_colors(*pixels));
    let n = palette_len(&set);
    let mut palette: Vec<Rgb> = Vec::new();
    let mut k: usize = 0;
    while k < n
        invariant
            n == palette_items(set).len(),
            k <= n,
            palette@ == palette_items(set).subrange(0, k as int),
        decreases n - k,
    {
        match palette_get(&set, k) {
            Some(c) => palette.push(c),
            None => {},
        }
        k = k + 1;
        assert(palette_items(set).subrange(0, k as int) =~= palette_items(set).subrange(0, k - 1).push(
            palette_items(set)[k - 1],
        ));
    }
    assert(palette_items(set).subrange(0, n as int) =~= palette_items(set));
    palette
}

/// `pixels` shows the window of the bitmap that starts at column `offset`.
pub open spec fn shows_window(pixels: [[u8; 3]; 256], wide: Seq<[u8; 2]>, offset: int, fg: [u8; 3], bg: [u8; 3]) -> bool {
    forall|row: int, col: int|
        0 <= row < 16 && 0 <= col < 16 ==> #[trigger] pixels@[row * 16 + col] == frame_pixel(
            wide,
            offset,
            fg,
            bg,
            row,
            col,
        )
}

/// A scrolling text ready to be played: its frames, each already encoded
/// in the device's animation format.
pub struct ScrollingText {
    pub encoded_frames: Vec<Vec<u8>>,
}

/// One frame of scrolling text before encoding: its pixels and its palette.
pub struct TextFrame {
    pub pixels: [[u8; 3]; 256],
    pub palette: Vec<Rgb>,
}

/// The frames of a text scrolling through the display from right to left:
/// frame `k` shows the bitmap from column `k - 16` on, from the frame where
/// the text has not yet entered to the last one that still shows its last
/// column.
pub fn scrolling_text_frames(wide_bitmap: &[[u8; 2]], fg: [u8; 3], bg: [u8; 3]) -> (frames: Vec<TextFrame>)
    requires
        wide_bitmap@.len() <= i32::MAX - 16,
    ensures
        frames@.len() == wide_bitmap@.len() + 16,
        forall|k: int|
            0 <= k < frames@.len() ==> shows_window(
                (#[trigger] frames@[k]).pixels,
                wide_bitmap@,
                k - 16,
                fg,
                bg,
            ),
        forall|k: int|
            0 <= k < frames@.len() ==> (#[trigger] frames@[k]).palette@ == distinct_in_order(
                frame_colors(frames@[k].pixels),
            ),
{
    let total_width = wide_bitmap.len() as i32;
    let mut frames: Vec<TextFrame> = Vec::new();
    let mut offset: i32 = -16;
    while offset < total_width
        invariant
            total_width == wide_bitmap@.len(),
            total_width <= i32::MAX - 16,
            -16 <= offset <= total_width,
            frames@.len() == offset + 16,
            forall|k: int|
                0 <= k < frames@.len() ==> shows_window(
                    (#[trigger] frames@[k]).pixels,
                    wide_bitmap@,
                    k - 16,
                    fg,
                    bg,
                ),
            forall|k: int|
                0 <= k < frames@.len() ==> (#[trigger] frames@[k]).palette@ == distinct_in_order(
                    frame_colors(frames@[k].pixels),
                ),
        decreases total_width - offset,
    {
        let pixels = render_frame(wide_bitmap, offset, fg, bg);
        let palette = frame_palette(&pixels);
        frames.push(TextFrame { pixels, palette });
        offset = offset + 1;
    }
    frames
}

/// A frame at scroll offset `offset` shows bitmap column `offset + col` in
/// display column `col`: pixel (`row`, `col`) is `fg` exactly where that
/// column exists and bit `row` of its value (low byte first) is set.
pub proof fn lemma_frame_pixel_window(
    wide: Seq<[u8; 2]>,
    offset: int,
    fg: [u8; 3],
    bg: [u8; 3],
    row: int,
    col: int,
)
    requires
        0 <= row < 16,
    ensures
        frame_pixel(wide, offset, fg, bg, row, col) == if 0 <= offset + col < wide.len() && column_bit(
            (wide[offset + col][0] as int + 256 * wide[offset + col][1] as int) as u16,
            row,
        ) {
            fg
        } else {
            bg
        },
{
    lemma_zero_bits(row as u16);
}

/// Scrolling moves the picture one column to the left per frame: what a
/// frame shows in screen column `col + 1` the next frame shows in column
/// `col`; and the first frame, before the text enters, shows only the
/// background.
pub proof fn lemma_scrolling_shifts_left(
    wide: Seq<[u8; 2]>,
    offset: int,
    fg: [u8; 3],
    bg: [u8; 3],
    row: int,
    col: int,
)
    requires
        0 <= row < 16,
        0 <= col < 15,
    ensures
        frame_pixel(wide, offset + 1, fg, bg, row, col) == frame_pixel(wide, offset, fg, bg, row, col + 1),
        frame_pixel(wide, -16, fg, bg, row, col) == bg,
{
    assert(offset + 1 + col == offset + (col + 1));
    assert(column_bit(0u16, row) == false) by {
        lemma_zero_bits(row as u16);
    }
}

/// A text that can be shown has lines of 16 rows or fewer, 16 divided by
/// their number.
pub proof fn lemma_line_height_at_most_16(text: Seq<char>)
    ensures
        split_lines(text).len() >= 1,
        spec_text_line_height(text) matches Ok(lh) ==> 1 <= lh <= 16 && lh == 16int / (split_lines(
            text,
        ).len() as int) && split_lines(text).len() <= 16,
{
    lemma_split_lines_nonempty(text);
    let n = split_lines(text).len() as int;
    if n <= 16 {
        assert(1 <= 16int / n <= 16) by (nonlinear_arith)
            requires
                1 <= n <= 16,
        ;
    }
}

/// `lines` are the lines of `text` rendered in `font` at `line_height` rows,
/// one list of columns per line.
pub open spec fn renders_lines(lines: Seq<Vec<u16>>, font: BdfFont, text: Seq<char>, line_height: int) -> bool {
    &&& lines.len() == split_lines(text).len()
    &&& forall|i: int|
        0 <= i < lines.len() ==> (#[trigger] lines[i])@ == bdf_line_render(
            font,
            split_lines(text)[i],
            line_height,
        )
}

/// `wide` is the bitmap that `layout_text` builds from `lines`.
pub open spec fn lays_out(
    wide: Seq<[u8; 2]>,
    lines: Seq<Vec<u16>>,
    line_height: int,
    halign: HAlign,
    valign: VAlign,
) -> bool {
    &&& wide.len() == max_line_len(lines)
    &&& forall|c: int|
        0 <= c < wide.len() ==> le16_value(#[trigger] wide[c][0], wide[c][1]) == layout_column(
            lines,
            line_height,
            halign,
            valign,
            c,
            lines.len() as int,
        )
}

/// The frames of `text` scrolling through the display in the BDF font
/// stored in `font_data`: the text is split into lines of `16 / lines` rows,
/// laid out by `halign` and `valign`, and scrolled from right to left. The
/// errors come in this order: an empty text, more than 16 lines, data that
/// is no BDF font, a text too wide for the frame offsets.
pub fn bdf_scrolling_text_frames(
    font_data: &[u8],
    text: &str,
    fg: [u8; 3],
    bg: [u8; 3],
    halign: HAlign,
    valign: VAlign,
) -> (r: Result<Vec<TextFrame>, TextError>)
    ensures
        match spec_text_line_height(text@) {
            Err(e) => r == Err::<Vec<TextFrame>, TextError>(e),
            Ok(lh) => match bdf_parse(font_data@) {
                None => r == Err::<Vec<TextFrame>, TextError>(TextError::FontParse),
                Some(font) => match r {
                    Ok(frames) => exists|lines: Seq<Vec<u16>>, wide: Seq<[u8; 2]>|
                        #![trigger renders_lines(lines, font, text@, lh as int), lays_out(wide, lines, lh as int, halign, valign)]
                        {
                            &&& renders_lines(lines, font, text@, lh as int)
                            &&& lays_out(wide, lines, lh as int, halign, valign)
                            &&& frames@.len() == wide.len() + 16
                            &&& forall|k: int|
                                0 <= k < frames@.len() ==> shows_window(
                                    (#[trigger] frames@[k]).pixels,
                                    wide,
                                    k - 16,
                                    fg,
                                    bg,
                                ) && frames@[k].palette@ == distinct_in_order(frame_colors(frames@[k].pixels))
                        },
                    Err(e) => e == TextError::TooWide && exists|lines: Seq<Vec<u16>>|
                        #[trigger] renders_lines(lines, font, text@, lh as int) && max_line_len(lines) > i32::MAX
                            - 16,
                },
            },
        },
{
    let line_height = match text_line_height(text) {
        Ok(h) => h,
        Err(e) => return Err(e),
    };
    proof {
        lemma_line_height_at_most_16(text@);
    }
    let lines = match bdf_text_lines(font_data, text, line_height) {
        Ok(lines) => lines,
        Err(e) => return Err(e),
    };
    let ghost font = bdf_parse(font_data@)->Some_0;
    assert(renders_lines(lines@, font, text@, line_height as int));
    let n = lines.len();
    let mut widest: usize = 0;
    let mut i: usize = 0;
    while i < n
        invariant
            n == lines@.len(),
            i <= n,
            widest == max_line_len(lines@.subrange(0, i as int)),
        decreases n - i,
    {
        assert(lines@.subrange(0, i + 1).drop_last() =~= lines@.subrange(0, i as int));
        if lines[i].len() > widest {
            widest = lines[i].len();
        }
        i = i + 1;
    }
    assert(lines@.subrange(0, n as int) =~= lines@);
    if widest > (i32::MAX - 16) as usize {
        return Err(TextError::TooWide);
    }
    proof {
        lemma_text_layout_defined(lines@, line_height as int, valign);
    }
    let wide = layout_text(lines.as_slice(), line_height, halign, valign);
    assert(lays_out(wide@, lines@, line_height as int, halign, valign));
    let frames = scrolling_text_frames(wide.as_slice(), fg, bg);
    Ok(frames)
}

} // verus!
