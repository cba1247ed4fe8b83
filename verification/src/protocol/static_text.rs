use vstd::prelude::*;

use super::bdf_font::bdf_parse;
use super::scrolling_text::{
    bdf_text_lines, bitmap_column, column_bit, frame_pixel, layout_column, layout_text,
    lemma_line_height_at_most_16, lemma_text_layout_defined, max_line_len, render_frame, renders_lines,
    spec_text_line_height, text_line_height, trunc_half, HAlign, TextError, VAlign,
};

verus! {

/// Column `j` of the bitmap that `layout_text` builds from `lines`; zero
/// outside the bitmap.
pub open spec fn layout_bitmap_column(
    lines: Seq<Vec<u16>>,
    line_height: int,
    halign: HAlign,
    valign: VAlign,
    j: int,
) -> u16 {
    if 0 <= j < max_line_len(lines) {
        layout_column(lines, line_height, halign, valign, j, lines.len() as int)
    } else {
        0
    }
}

/// The first bitmap column shown on a still display: the left edge, the
/// middle or the right edge of the bitmap aligned with the display's.
pub open spec fn static_text_offset(width: int, halign: HAlign) -> int {
    match halign {
        HAlign::Left => 0,
        HAlign::Center => trunc_half(width - 16),
        HAlign::Right => width - 16,
    }
}

/// The colour of display pixel (`row`, `col`) of the still text.
pub open spec fn static_text_pixel(
    lines: Seq<Vec<u16>>,
    line_height: int,
    halign: HAlign,
    valign: VAlign,
    fg: [u8; 3],
    bg: [u8; 3],
    row: int,
    col: int,
) -> [u8; 3] {
    let offset = static_text_offset(max_line_len(lines) as int, halign);
    if column_bit(layout_bitmap_column(lines, line_height, halign, valign, offset + col), row) {
        fg
    } else {
        bg
    }
}

/// A still text is aligned with its whole laid-out bitmap, whose width is
/// that of the widest line: display column `col` shows bitmap column `col`
/// when left-aligned, `col + (w - 16) / 2` (rounded toward zero) when
/// centred and `col + w - 16` when right-aligned, `w` the widest line's
/// width; a pixel is the foreground colour exactly where that column's bit
/// for its row is set, the background colour elsewhere.
pub proof fn lemma_static_text_alignment(
    lines: Seq<Vec<u16>>,
    line_height: int,
    halign: HAlign,
    valign: VAlign,
    fg: [u8; 3],
    bg: [u8; 3],
    row: int,
    col: int,
)
    requires
        0 <= row < 16,
        0 <= col < 16,
    ensures
        ({
            let w = max_line_len(lines) as int;
            let first = match halign {
                HAlign::Left => 0,
                HAlign::Center => if w >= 16 {
                    (w - 16) / 2
                } else {
                    -((16 - w) / 2)
                },
                HAlign::Right => w - 16,
            };
            static_text_pixel(lines, line_height, halign, valign, fg, bg, row, col) == if column_bit(
                layout_bitmap_column(lines, line_height, halign, valign, first + col),
                row,
            ) {
                fg
            } else {
                bg
            }
        }),
{
}

/// A text whose widest line is exactly as wide as the display shows every
/// column of the laid-out bitmap in place, whatever the alignment and the
/// other lines: display column `col` is bitmap column `col`.
pub proof fn lemma_static_text_full_width(
    lines: Seq<Vec<u16>>,
    line_height: int,
    halign: HAlign,
    valign: VAlign,
    fg: [u8; 3],
    bg: [u8; 3],
    row: int,
    col: int,
)
    requires
        max_line_len(lines) == 16,
        0 <= row < 16,
        0 <= col < 16,
    ensures
        static_text_pixel(lines, line_height, halign, valign, fg, bg, row, col) == if column_bit(
            layout_bitmap_column(lines, line_height, halign, valign, col),
            row,
        ) {
            fg
        } else {
            bg
        },
{
    lemma_static_text_alignment(lines, line_height, halign, valign, fg, bg, row, col);
}

/// The 16x16 pixels of a still text: its rendered lines (`line_height` rows
/// each, 16 divided by their number) laid out by `halign` and `valign`, and
/// the display aligned with the bitmap by `halign`.
pub fn static_text_pixels(
    lines: &[Vec<u16>],
    line_height: i32,
    fg: [u8; 3],
    bg: [u8; 3],
    halign: HAlign,
    valign: VAlign,
) -> (pixels: [[u8; 3]; 256])
    requires
        1 <= lines@.len() <= 16,
        line_height == 16int / (lines@.len() as int),
        max_line_len(lines@) <= i32::MAX,
    ensures
        forall|row: int, col: int|
            0 <= row < 16 && 0 <= col < 16 ==> #[trigger] pixels@[row * 16 + col] == static_text_pixel(
                lines@,
                line_height as int,
                halign,
                valign,
                fg,
                bg,
                row,
                col,
            ),
{
    proof {
        lemma_text_layout_defined(lines@, line_height as int, valign);
    }
    let wide = layout_text(lines, line_height, halign, valign);
    let width = wide.len() as i32;
    let offset: i32 = match halign {
        HAlign::Left => 0,
        HAlign::Center => (width - 16) / 2,
        HAlign::Right => width - 16,
    };
    assert(offset == static_text_offset(width as int, halign));
    let pixels = render_frame(wide.as_slice(), offset, fg, bg);
    assert forall|j: int| #[trigger] bitmap_column(wide@, j) == layout_bitmap_column(
        lines@,
        line_height as int,
        halign,
        valign,
        j,
    ) by {
        if 0 <= j < wide@.len() {
            assert(super::packet::le16_value(wide@[j][0], wide@[j][1]) == layout_column(
                lines@,
                line_height as int,
                halign,
                valign,
                j,
                lines@.len() as int,
            ));
        }
    }
    assert forall|row: int, col: int| 0 <= row < 16 && 0 <= col < 16 implies #[trigger] pixels@[row
        * 16 + col] == static_text_pixel(
        lines@,
        line_height as int,
        halign,
        valign,
        fg,
        bg,
        row,
        col,
    ) by {
        assert(pixels@[row * 16 + col] == frame_pixel(wide@, offset as int, fg, bg, row, col));
        assert(bitmap_column(wide@, offset + col) == layout_bitmap_column(
            lines@,
            line_height as int,
            halign,
            valign,
            offset + col,
        ));
    }
    pixels
}

/// The 16x16 pixels of `text` shown still in the BDF font stored in
/// `font_data`: the text is split into lines of `16 / lines` rows, laid out
/// by `halign` and `valign`, and the display aligned with the bitmap by
/// `halign`. The errors come in this order: an empty text, more than 16
/// lines, data that is no BDF font, a text too wide for the display offset.
pub fn bdf_static_text_pixels(
    font_data: &[u8],
    text: &str,
    fg: [u8; 3],
    bg: [u8; 3],
    halign: HAlign,
    valign: VAlign,
) -> (r: Result<[[u8; 3]; 256], TextError>)
    ensures
        match spec_text_line_height(text@) {
            Err(e) => r == Err::<[[u8; 3]; 256], TextError>(e),
            Ok(lh) => match bdf_parse(font_data@) {
                None => r == Err::<[[u8; 3]; 256], TextError>(TextError::FontParse),
                Some(font) => match r {
                    Ok(pixels) => exists|lines: Seq<Vec<u16>>|
                        #[trigger] renders_lines(lines, font, text@, lh as int) && forall|row: int, col: int|
                            0 <= row < 16 && 0 <= col < 16 ==> #[trigger] pixels@[row * 16 + col]
                                == static_text_pixel(lines, lh as int, halign, valign, fg, bg, row, col),
                    Err(e) => e == TextError::TooWide && exists|lines: Seq<Vec<u16>>|
                        #[trigger] renders_lines(lines, font, text@, lh as int) && max_line_len(lines) > i32::MAX,
                },
            },
        },
{
    let line_height = match text_line_height(text) {
        Ok(h) => h,
        Err(e) => return Err(e),
    };
    proof {
        lemma_line_height_at_most_16(text@);
    }
    let lines = match bdf_text_lines(font_data, text, line_height) {
        Ok(lines) => lines,
        Err(e) => return Err(e),
    };
    let ghost font = bdf_parse(font_data@)->Some_0;
    assert(renders_lines(lines@, font, text@, line_height as int));
    let n = lines.len();
    let mut widest: usize = 0;
    let mut i: usize = 0;
    while i < n
        invariant
            n == lines@.len(),
            i <= n,
            widest == max_line_len(lines@.subrange(0, i as int)),
        decreases n - i,
    {
        assert(lines@.subrange(0, i + 1).drop_last() =~= lines@.subrange(0, i as int));
        if lines[i].len() > widest {
            widest = lines[i].len();
        }
        i = i + 1;
    }
    assert(lines@.subrange(0, n as int) =~= lines@);
    if widest > i32::MAX as usize {
        return Err(TextError::TooWide);
    }
    let pixels = static_text_pixels(lines.as_slice(), line_height, fg, bg, halign, valign);
    Ok(pixels)
}

} // verus!
