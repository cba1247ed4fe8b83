use bdf_parser::BdfFont;

use divoom_ditoo_pro_controller::protocol::bdf_font::{BdfFontMetrics, BdfGlyph};
use divoom_ditoo_pro_controller::protocol::scrolling_text::{
    bdf_text_lines, frame_palette, layout_text, rasterize_coverage, rasterize_bdf_glyph, rasterize_glyph_bdf,
    rasterize_line_bdf, rasterize_text_bdf, render_frame, scrolling_text_frames, text_line_height,
    bdf_scrolling_text_frames, text_lines, HAlign, TextError, VAlign,
};
use divoom_ditoo_pro_controller::protocol::static_text::{bdf_static_text_pixels, static_text_pixels};

// Minimal BDF font: 4-wide, 6-tall glyph for 'A' in a font with ascent=6, descent=2 (height=8).
//
// Bitmap (row-major, MSB=leftmost pixel):
//   F0 = ####  (row 0)
//   90 = #  #  (row 1)
//   F0 = ####  (row 2)
//   90 = #  #  (row 3)
//   90 = #  #  (row 4)
//   90 = #  #  (row 5)
const TEST_BDF: &[u8] = b"STARTFONT 2.1
FONT -Test
SIZE 8 72 72
FONTBOUNDINGBOX 4 8 0 -2
STARTPROPERTIES 2
FONT_ASCENT 6
FONT_DESCENT 2
ENDPROPERTIES
CHARS 1
STARTCHAR A
ENCODING 65
SWIDTH 400 0
DWIDTH 4 0
BBX 4 6 0 0
BITMAP
F0
90
F0
90
90
90
ENDCHAR
ENDFONT
";

fn parse_test_font() -> BdfFont {
    BdfFont::parse(TEST_BDF).expect("failed to parse test BDF font")
}

/// Format glyph columns as a visual grid for debugging.
/// Each column is a u16 where bit N means row N is set.
fn dump_columns(columns: &[u16], height: i32) -> String {
    let mut lines = Vec::new();
    for row in 0..height {
        let mut line = String::new();
        for &col in columns {
            line.push(if (col >> row) & 1 == 1 { '#' } else { '.' });
        }
        lines.push(line);
    }
    lines.join("\n")
}

#[test]
fn bdf_rasterize_full_height() {
    let font = parse_test_font();
    let glyph = rasterize_glyph_bdf(&font, 'A', 8);

    let visual = dump_columns(&glyph.columns, 8);
    println!("full height (8):\n{}", visual);

    assert_eq!(glyph.columns.len(), 4, "advance width should be 4");
    // Column 0 (x=0): all 6 glyph rows on, rows 6-7 empty
    assert_eq!(glyph.columns[0], 0b00111111);
    // Column 1 (x=1): only rows 0,2 on (the F0 rows)
    assert_eq!(glyph.columns[1], 0b00000101);
    // Column 2 (x=2): same as column 1
    assert_eq!(glyph.columns[2], 0b00000101);
    // Column 3 (x=3): same as column 0
    assert_eq!(glyph.columns[3], 0b00111111);
}

#[test]
fn bdf_rasterize_half_height() {
    let font = parse_test_font();
    let glyph = rasterize_glyph_bdf(&font, 'A', 4);

    let visual = dump_columns(&glyph.columns, 4);
    println!("half height (4):\n{}", visual);

    // Width stays the same (no pixel scaling, just repositioning)
    assert_eq!(glyph.columns.len(), 4);
    // The glyph should have pixels set (not pushed out of view)
    let total_bits: u32 = glyph.columns.iter().map(|c| c.count_ones()).sum();
    assert!(total_bits > 0, "glyph should have pixels set");
}

#[test]
fn bdf_rasterize_missing_glyph() {
    let font = parse_test_font();
    let glyph = rasterize_glyph_bdf(&font, 'Z', 8);
    assert_eq!(glyph.columns.len(), 1);
    assert_eq!(glyph.columns[0], 0);
}

#[test]
fn bdf_rasterize_line() {
    let font = parse_test_font();
    let columns = rasterize_line_bdf(&font, "AA", 8);
    // Two glyphs, each 4 wide
    assert_eq!(columns.len(), 8);
}

#[test]
fn layout_single_line_center() {
    let line = vec![0b11u16, 0b10u16, 0b01u16];
    let result = layout_text(&[line], 16, HAlign::Center, VAlign::Center);
    assert_eq!(result.len(), 3);
    // With single line at height 16 and valign center, y_offset = 0
    assert_eq!(u16::from_le_bytes(result[0]), 0b11);
    assert_eq!(u16::from_le_bytes(result[1]), 0b10);
    assert_eq!(u16::from_le_bytes(result[2]), 0b01);
}

#[test]
fn layout_two_lines_vertical_positioning() {
    // Two 8-px-tall lines
    let line0 = vec![0b1111_1111u16]; // all 8 bits set
    let line1 = vec![0b0000_0001u16]; // only bit 0
    let result = layout_text(&[line0, line1], 8, HAlign::Center, VAlign::Top);
    assert_eq!(result.len(), 1);
    let col = u16::from_le_bytes(result[0]);
    // Line 0 at y_offset=0: bits 0-7 from line0 -> 0xFF
    // Line 1 at y_offset=8: bit 0 from line1 shifted left by 8 -> bit 8 set
    assert_eq!(col, 0b1_0000_0000 | 0b1111_1111);
}

#[test]
fn layout_two_lines_halign_left() {
    let line0 = vec![1u16, 2u16, 3u16]; // 3 wide
    let line1 = vec![4u16]; // 1 wide
    let result = layout_text(&[line0, line1], 8, HAlign::Left, VAlign::Top);
    // Max width is 3
    assert_eq!(result.len(), 3);
    // Line 1 left-aligned: col 0 has line1 data, cols 1-2 have nothing from line1
    let col0 = u16::from_le_bytes(result[0]);
    assert_eq!(col0 & 0xFF, 1); // line0 contribution in low 8 bits
    assert_eq!((col0 >> 8) & 0xFF, 4); // line1 contribution in high 8 bits
}

#[test]
fn layout_two_lines_halign_right() {
    let line0 = vec![1u16, 2u16, 3u16]; // 3 wide
    let line1 = vec![4u16]; // 1 wide
    let result = layout_text(&[line0, line1], 8, HAlign::Right, VAlign::Top);
    assert_eq!(result.len(), 3);
    // Line 1 right-aligned: placed at col 2 (max_width 3 - line_width 1 = 2)
    let col2 = u16::from_le_bytes(result[2]);
    assert_eq!(col2 & 0xFF, 3); // line0[2]
    assert_eq!((col2 >> 8) & 0xFF, 4); // line1[0] shifted to col 2
}

fn dump_wide_bitmap(wide_bitmap: &[[u8; 2]]) -> String {
    let mut lines = Vec::new();
    for row in 0..16 {
        let mut line = String::new();
        for col_bytes in wide_bitmap {
            let col = u16::from_le_bytes(*col_bytes);
            line.push(if (col >> row) & 1 == 1 { '#' } else { '.' });
        }
        lines.push(line);
    }
    lines.join("\n")
}

// Taller font: ascent=9, descent=2 (height=11), simulating creep-like metrics.
// Glyph is still 4x6, but positioned higher in the taller line height.
const TALL_BDF: &[u8] = b"STARTFONT 2.1
FONT -Tall
SIZE 11 72 72
FONTBOUNDINGBOX 4 11 0 -2
STARTPROPERTIES 2
FONT_ASCENT 9
FONT_DESCENT 2
ENDPROPERTIES
CHARS 1
STARTCHAR A
ENCODING 65
SWIDTH 400 0
DWIDTH 4 0
BBX 4 6 0 0
BITMAP
F0
90
F0
90
90
90
ENDCHAR
ENDFONT
";

fn parse_tall_font() -> BdfFont {
    BdfFont::parse(TALL_BDF).expect("failed to parse tall BDF font")
}

#[test]
fn bdf_tall_font_full_height() {
    let font = parse_tall_font();
    let glyph = rasterize_glyph_bdf(&font, 'A', 16);

    let visual = dump_columns(&glyph.columns, 16);
    println!("tall font, target=16:\n{}", visual);

    let total_bits: u32 = glyph.columns.iter().map(|c| c.count_ones()).sum();
    assert!(total_bits > 0, "glyph should be visible at full height");
}

#[test]
fn bdf_tall_font_half_height() {
    // Simulates 2-line mode: target_height = 8, but font_height = 11
    let font = parse_tall_font();
    let glyph = rasterize_glyph_bdf(&font, 'A', 8);

    let visual = dump_columns(&glyph.columns, 8);
    println!("tall font, target=8:\n{}", visual);

    let total_bits: u32 = glyph.columns.iter().map(|c| c.count_ones()).sum();
    assert!(total_bits > 0, "glyph should still be visible with repositioning");
    // Should show more than just 2-3 rows of the glyph
    assert!(total_bits >= 8, "glyph should show most of its rows, got {} bits", total_bits);
}

#[test]
fn bdf_multiline_two_lines() {
    let font = parse_test_font();

    let line0 = rasterize_line_bdf(&font, "A", 8);
    let line1 = rasterize_line_bdf(&font, "A", 8);
    let composed = layout_text(&[line0, line1], 8, HAlign::Center, VAlign::Center);

    let visual = dump_wide_bitmap(&composed);
    println!("two lines 'A\\nA':\n{}", visual);

    // Should have 4 columns (both lines same width)
    assert_eq!(composed.len(), 4);
    // Both halves (rows 0-7 and 8-15) should have pixels
    let top_bits: u32 = composed
        .iter()
        .map(|c| (u16::from_le_bytes(*c) & 0x00FF).count_ones())
        .sum();
    let bottom_bits: u32 = composed.iter().map(|c| (u16::from_le_bytes(*c) >> 8).count_ones()).sum();
    assert!(top_bits > 0, "top line should have pixels");
    assert!(bottom_bits > 0, "bottom line should have pixels");
}

fn test_glyph() -> BdfGlyph {
    BdfGlyph {
        width: 4,
        height: 6,
        x_offset: 0,
        y_offset: 0,
        device_width: 4,
        bitmap: vec![0xF0, 0x90, 0xF0, 0x90, 0x90, 0x90],
    }
}

#[test]
fn rasterize_bdf_glyph_scales_the_ascent() {
    let metrics = BdfFontMetrics { ascent: Some(9), descent: Some(2), bounding_box_height: 11 };
    // round(9 * 8 / 11) = round(6.54) = 7: the glyph moves one row down.
    let glyph = rasterize_bdf_glyph(&metrics, Some(&test_glyph()), 8);
    assert_eq!(glyph.columns, vec![0b0111_1110, 0b0000_1010, 0b0000_1010, 0b0111_1110]);
    // round(9 * 16 / 11) = round(13.09) = 13: the glyph starts on row 7.
    let glyph = rasterize_bdf_glyph(&metrics, Some(&test_glyph()), 16);
    assert_eq!(glyph.columns[0], 0b0001_1111_1000_0000);
    // Halves round away from zero: round(3 * 3 / 6) = round(1.5) = 2.
    let metrics = BdfFontMetrics { ascent: Some(3), descent: Some(3), bounding_box_height: 6 };
    let glyph = rasterize_bdf_glyph(&metrics, Some(&test_glyph()), 3);
    // pixel row = 0 + 6 - 2 + row, so rows 0..3 show glyph rows 4, 5 and nothing.
    assert_eq!(glyph.columns, vec![0b011, 0b000, 0b000, 0b011]);
}

#[test]
fn rasterize_bdf_glyph_defaults() {
    // Without FONT_ASCENT the bounding box height is the ascent; without
    // FONT_DESCENT the descent is zero: round(6 * 6 / 6) = 6.
    let metrics = BdfFontMetrics { ascent: None, descent: None, bounding_box_height: 6 };
    let glyph = rasterize_bdf_glyph(&metrics, Some(&test_glyph()), 6);
    assert_eq!(glyph.columns, vec![0b11_1111, 0b00_0101, 0b00_0101, 0b11_1111]);
    // A missing glyph is one empty column.
    let glyph = rasterize_bdf_glyph(&metrics, None, 6);
    assert_eq!(glyph.columns, vec![0]);
    // A device width below one still gives one column.
    let mut narrow = test_glyph();
    narrow.device_width = 0;
    let glyph = rasterize_bdf_glyph(&metrics, Some(&narrow), 6);
    assert_eq!(glyph.columns, vec![0b11_1111]);
    // Bitmap bytes that are missing read as unset pixels.
    let mut short = test_glyph();
    short.bitmap.truncate(2);
    let glyph = rasterize_bdf_glyph(&metrics, Some(&short), 6);
    assert_eq!(glyph.columns, vec![0b11, 0b01, 0b01, 0b11]);
}

#[test]
fn render_frame_places_columns() {
    let wide = [[0b0000_0011u8, 0x00], [0x00, 0x80]];
    let fg = [255, 0, 0];
    let bg = [0, 0, 9];
    let pixels = render_frame(&wide, -1, fg, bg);
    // Screen column 0 shows bitmap column -1 (empty), column 1 shows column 0.
    assert_eq!(pixels[0], bg);
    assert_eq!(pixels[1], fg);
    assert_eq!(pixels[16 + 1], fg);
    assert_eq!(pixels[2 * 16 + 1], bg);
    assert_eq!(pixels[15 * 16 + 2], fg);
    let lit = pixels.iter().filter(|p| **p == fg).count();
    assert_eq!(lit, 3);
}

#[test]
fn text_line_height_cases() {
    assert_eq!(text_line_height(""), Err(TextError::Empty));
    assert_eq!(text_line_height("Hi"), Ok(16));
    assert_eq!(text_line_height("a\nb"), Ok(8));
    assert_eq!(text_line_height("a\nb\nc"), Ok(5));
    assert_eq!(text_line_height("a\n"), Ok(8));
    assert_eq!(text_line_height(&"x\n".repeat(15)), Ok(1));
    assert_eq!(text_line_height(&"x\n".repeat(16)), Err(TextError::TooManyLines));
}

#[test]
fn rasterize_text_bdf_splits_lines() {
    let font = parse_test_font();
    let lines = rasterize_text_bdf(&font, "AA\nA\n", 8);
    assert_eq!(lines.len(), 3);
    assert_eq!(lines[0].len(), 8);
    assert_eq!(lines[1], vec![0b0011_1111, 0b0000_0101, 0b0000_0101, 0b0011_1111]);
    assert!(lines[2].is_empty());
}

#[test]
fn bdf_text_lines_parses_the_font() {
    let lines = bdf_text_lines(TEST_BDF, "A", 16).unwrap();
    // round(6 * 16 / 8) = 12: the glyph starts on row 6.
    assert_eq!(lines, vec![vec![0b1111_1100_0000, 0b0001_0100_0000, 0b0001_0100_0000, 0b1111_1100_0000]]);
    assert_eq!(bdf_text_lines(b"not a font", "A", 16), Err(TextError::FontParse));
}

#[test]
fn static_text_pixels_centers_the_text() {
    let fg = [1, 2, 3];
    let bg = [0, 0, 0];
    // One line of two full-height columns, centred: bitmap offset (2 - 16) / 2 = -7.
    let pixels = static_text_pixels(&[vec![0xFFFF, 0x0001]], 16, fg, bg, HAlign::Center, VAlign::Center);
    assert_eq!(pixels[7], fg);
    assert_eq!(pixels[15 * 16 + 7], fg);
    assert_eq!(pixels[8], fg);
    assert_eq!(pixels[16 + 8], bg);
    assert_eq!(pixels.iter().filter(|p| **p == fg).count(), 17);
    // Left aligned: bitmap column 0 on screen column 0.
    let pixels = static_text_pixels(&[vec![0x0001]], 16, fg, bg, HAlign::Left, VAlign::Top);
    assert_eq!(pixels[0], fg);
    // Right aligned: offset 1 - 16 = -15, column 0 on screen column 15.
    let pixels = static_text_pixels(&[vec![0x0001]], 16, fg, bg, HAlign::Right, VAlign::Top);
    assert_eq!(pixels[15], fg);
}

#[test]
fn scrolling_frames_cover_the_text() {
    let fg = [9, 9, 9];
    let bg = [1, 1, 1];
    let frames = scrolling_text_frames(&[[0x01, 0x00]], fg, bg);
    assert_eq!(frames.len(), 17);
    // First frame: column 0 enters at screen column 15 only in frame 1.
    assert!(frames[0].pixels.iter().all(|p| *p == bg));
    assert_eq!(frames[0].palette, vec![(1, 1, 1)]);
    assert_eq!(frames[1].pixels[15], fg);
    assert_eq!(frames[16].pixels[0], fg);
    assert_eq!(frames[16].palette, vec![(9, 9, 9), (1, 1, 1)]);
    assert_eq!(frames[1].palette, vec![(1, 1, 1), (9, 9, 9)]);
}

#[test]
fn frame_palette_keeps_first_occurrence_order() {
    let mut pixels = [[0u8, 0, 0]; 256];
    pixels[3] = [5, 5, 5];
    pixels[10] = [7, 7, 7];
    pixels[20] = [5, 5, 5];
    assert_eq!(frame_palette(&pixels), vec![(0, 0, 0), (5, 5, 5), (7, 7, 7)]);
}

#[test]
fn rasterize_coverage_thresholds_at_half() {
    let bitmap = [200u8, 10, 128, 127];
    let glyph = rasterize_coverage(&bitmap, 2, 2, 1, 3, 4, 8);
    assert_eq!(glyph.columns, vec![0, 0b1_1000, 0, 0]);
    let glyph = rasterize_coverage(&bitmap, 2, 2, 1, 3, 4, 4);
    assert_eq!(glyph.columns, vec![0, 0b1000, 0, 0]);
    let glyph = rasterize_coverage(&bitmap, 2, 2, 0, 0, 0, 16);
    assert_eq!(glyph.columns, vec![0b11]);
}

#[test]
fn layout_offsets_round_toward_zero() {
    // Two 9-row lines: 18 rows; centred, the block starts at (16 - 18) / 2 = -1,
    // so the first line is dropped and the second starts on row 8.
    let result = layout_text(&[vec![0x1FFu16], vec![0b1u16]], 9, HAlign::Left, VAlign::Center);
    assert_eq!(result, vec![[0x00, 0x01]]);
    // One 8-row line at the bottom starts on row 8.
    let result = layout_text(&[vec![0b11u16, 0b1]], 8, HAlign::Left, VAlign::Bottom);
    assert_eq!(result, vec![[0x00, 0x03], [0x00, 0x01]]);
    // Centred horizontally, a line of 1 in a bitmap of 4 starts at column 1.
    let result = layout_text(&[vec![1u16, 1, 1, 1], vec![2u16]], 8, HAlign::Center, VAlign::Top);
    assert_eq!(u16::from_le_bytes(result[1]), 1 | (2 << 8));
    assert_eq!(u16::from_le_bytes(result[0]), 1);
}

#[test]
fn text_lines_split_at_newlines() {
    let chars = |s: &str| s.chars().collect::<Vec<char>>();
    assert_eq!(text_lines("Line1\nLine2"), vec![chars("Line1"), chars("Line2")]);
    assert_eq!(text_lines(""), vec![chars("")]);
    assert_eq!(text_lines("a\n"), vec![chars("a"), chars("")]);
    assert_eq!(text_lines("\n\nb"), vec![chars(""), chars(""), chars("b")]);
    for text in ["Hello world", "x\ny\nz", "\n", "é\nü"] {
        let expected: Vec<Vec<char>> = text.split('\n').map(chars).collect();
        assert_eq!(text_lines(text), expected);
    }
}

#[test]
fn bdf_rasterize_taller_than_the_display() {
    let font = parse_test_font();
    // Ascent 6 of 8 scaled to 20 rows is 15: the glyph's rows 0..5 land on
    // rows 9..14, all inside a 16-row column.
    let glyph = rasterize_glyph_bdf(&font, 'A', 20);
    assert_eq!(glyph.columns, vec![0x7E00, 0x0A00, 0x0A00, 0x7E00]);
    // A missing glyph renders at any height.
    assert_eq!(rasterize_glyph_bdf(&font, 'Z', 100).columns, vec![0]);
    assert_eq!(rasterize_line_bdf(&font, "AZ", 20), vec![0x7E00, 0x0A00, 0x0A00, 0x7E00, 0]);
}

#[test]
fn rasterize_coverage_taller_than_the_display() {
    let bitmap = [200u8, 10, 128, 127];
    // The set pixels land on rows 3 and 4: a height of 40 draws the same.
    let glyph = rasterize_coverage(&bitmap, 2, 2, 1, 3, 4, 40);
    assert_eq!(glyph.columns, vec![0, 0b1_1000, 0, 0]);
}

#[test]
fn bdf_scrolling_text_frames_compose_the_steps() {
    let fg = [255, 255, 0];
    let bg = [0, 0, 0];
    let frames = bdf_scrolling_text_frames(TEST_BDF, "A\nA", fg, bg, HAlign::Center, VAlign::Center)
        .expect("frames");
    let lines = bdf_text_lines(TEST_BDF, "A\nA", 8).unwrap();
    let wide = layout_text(&lines, 8, HAlign::Center, VAlign::Center);
    let expected = scrolling_text_frames(&wide, fg, bg);
    assert_eq!(frames.len(), wide.len() + 16);
    assert_eq!(frames.len(), 20);
    for (a, b) in frames.iter().zip(expected.iter()) {
        assert_eq!(a.pixels, b.pixels);
        assert_eq!(a.palette, b.palette);
    }
    // The whole glyph is on screen 16 frames in.
    assert_eq!(frames[16].pixels[0], fg);
    assert!(frames[0].pixels.iter().all(|p| *p == bg));
}

#[test]
fn bdf_scrolling_text_frames_errors() {
    let (fg, bg) = ([1, 1, 1], [0, 0, 0]);
    let err = |text: &str, font: &[u8]| {
        bdf_scrolling_text_frames(font, text, fg, bg, HAlign::Left, VAlign::Top).err()
    };
    assert_eq!(err("", TEST_BDF), Some(TextError::Empty));
    assert_eq!(err("", b"not a font"), Some(TextError::Empty));
    assert_eq!(err(&"x\n".repeat(16), b"not a font"), Some(TextError::TooManyLines));
    assert_eq!(err("A", b"not a font"), Some(TextError::FontParse));
    assert_eq!(err("A", TEST_BDF), None);
}

#[test]
fn bdf_static_text_pixels_compose_the_steps() {
    let fg = [200, 0, 0];
    let bg = [0, 0, 30];
    for halign in [HAlign::Left, HAlign::Center, HAlign::Right] {
        for valign in [VAlign::Top, VAlign::Center, VAlign::Bottom] {
            let pixels = bdf_static_text_pixels(TEST_BDF, "AA\nA", fg, bg, halign, valign).unwrap();
            let lines = bdf_text_lines(TEST_BDF, "AA\nA", 8).unwrap();
            assert_eq!(pixels, static_text_pixels(&lines, 8, fg, bg, halign, valign));
        }
    }
    assert_eq!(
        bdf_static_text_pixels(b"", "A", fg, bg, HAlign::Left, VAlign::Top),
        Err(TextError::FontParse)
    );
    assert_eq!(
        bdf_static_text_pixels(TEST_BDF, "", fg, bg, HAlign::Left, VAlign::Top),
        Err(TextError::Empty)
    );
}
