use vstd::prelude::*;

use bdf_parser::{BdfFont, Property};

verus! {

#[verifier::external_type_specification]
#[verifier::external_body]
pub struct ExBdfFont(BdfFont);

/// One glyph of a BDF font: its bounding box (size and offset), its device
/// width and its bitmap, rows of `(width + 7) / 8` bytes, most significant
/// bit leftmost.
pub struct BdfGlyph {
    pub width: i32,
    pub height: i32,
    pub x_offset: i32,
    pub y_offset: i32,
    pub device_width: i32,
    pub bitmap: Vec<u8>,
}

/// A glyph as plain values.
pub struct BdfGlyphView {
    pub width: i32,
    pub height: i32,
    pub x_offset: i32,
    pub y_offset: i32,
    pub device_width: i32,
    pub bitmap: Seq<u8>,
}

impl View for BdfGlyph {
    type V = BdfGlyphView;

    open spec fn view(&self) -> BdfGlyphView {
        BdfGlyphView {
            width: self.width,
            height: self.height,
            x_offset: self.x_offset,
            y_offset: self.y_offset,
            device_width: self.device_width,
            bitmap: self.bitmap@,
        }
    }
}

/// The vertical metrics of a BDF font: its FONT_ASCENT and FONT_DESCENT
/// properties where they are integers, and the height of its bounding box.
#[derive(Clone, Copy, Debug, PartialEq, Eq, Structural)]
pub struct BdfFontMetrics {
    pub ascent: Option<i32>,
    pub descent: Option<i32>,
    pub bounding_box_height: i32,
}

/// An integer property of a BDF font that the rendering reads.
#[derive(Clone, Copy, Debug, PartialEq, Eq, Structural)]
pub enum FontMetric {
    Ascent,
    Descent,
}

/// The name of the property behind `m`.
pub open spec fn font_metric_name(m: FontMetric) -> Seq<char> {
    match m {
        FontMetric::Ascent => seq!['F', 'O', 'N', 'T', '_', 'A', 'S', 'C', 'E', 'N', 'T'],
        FontMetric::Descent => seq!['F', 'O', 'N', 'T', '_', 'D', 'E', 'S', 'C', 'E', 'N', 'T'],
    }
}

/// What the glyph table of a parsed BDF font holds, in file order: the
/// encoding of each glyph and the glyph.
pub uninterp spec fn bdf_font_glyphs(font: BdfFont) -> Seq<(Option<char>, BdfGlyphView)>;

/// What the property table of a parsed BDF font holds, restricted to the
/// properties whose value is an integer: name to value.
pub uninterp spec fn bdf_font_int_properties(font: BdfFont) -> Map<Seq<char>, i32>;

/// The height of the bounding box that a parsed BDF font declares.
pub uninterp spec fn bdf_font_bounding_box_height(font: BdfFont) -> i32;

/// The first glyph of `glyphs` whose encoding is `ch`.
pub open spec fn find_glyph(glyphs: Seq<(Option<char>, BdfGlyphView)>, ch: char) -> Option<BdfGlyphView>
    decreases glyphs.len(),
{
    if glyphs.len() == 0 {
        None
    } else if glyphs[0].0 == Some(ch) {
        Some(glyphs[0].1)
    } else {
        find_glyph(glyphs.drop_first(), ch)
    }
}

/// The integer value of property `name` in `props`, if it has one.
pub open spec fn int_property(props: Map<Seq<char>, i32>, name: Seq<char>) -> Option<i32> {
    if props.dom().contains(name) {
        Some(props[name])
    } else {
        None
    }
}

/// The vertical metrics of `font`, as its names give them.
pub open spec fn bdf_font_metrics(font: BdfFont) -> BdfFontMetrics {
    BdfFontMetrics {
        ascent: int_property(bdf_font_int_properties(font), font_metric_name(FontMetric::Ascent)),
        descent: int_property(bdf_font_int_properties(font), font_metric_name(FontMetric::Descent)),
        bounding_box_height: bdf_font_bounding_box_height(font),
    }
}

/// `Glyphs::get` (bdf_parser) on the glyph table of `font`: the first glyph
/// whose encoding is `ch`, copied field by field (bounding box size and
/// offset, device width, bitmap bytes).
#[verifier::external_body]
pub(crate) fn bdf_glyph(font: &BdfFont, ch: char) -> (g: Option<BdfGlyph>)
    ensures
        match g {
            Some(x) => find_glyph(bdf_font_glyphs(*font), ch) == Some(x@),
            None => find_glyph(bdf_font_glyphs(*font), ch) is None,
        },
{
    match font.glyphs.get(ch) {
        Some(g) => Some(
            BdfGlyph {
                width: g.bounding_box.size.x,
                height: g.bounding_box.size.y,
                x_offset: g.bounding_box.offset.x,
                y_offset: g.bounding_box.offset.y,
                device_width: g.device_width.x,
                bitmap: g.bitmap.clone(),
            },
        ),
        None => None,
    }
}

/// `Properties::try_get::<i32>` (bdf_parser) for FONT_ASCENT or FONT_DESCENT:
/// the value when the property is defined with an integer value, `None` when
/// it is undefined or not an integer.
#[verifier::external_body]
pub(crate) fn bdf_int_property(font: &BdfFont, which: FontMetric) -> (v: Option<i32>)
    ensures
        v == int_property(bdf_font_int_properties(*font), font_metric_name(which)),
{
    let property = match which {
        FontMetric::Ascent => Property::FontAscent,
        FontMetric::Descent => Property::FontDescent,
    };
    font.properties.try_get::<i32>(property).ok()
}

/// The height of the font's bounding box (`font.metadata.bounding_box.size.y`
/// in bdf_parser).
#[verifier::external_body]
pub(crate) fn bdf_bounding_box_height(font: &BdfFont) -> (h: i32)
    ensures
        h == bdf_font_bounding_box_height(*font),
{
    font.metadata.bounding_box.size.y
}

/// The font that `BdfFont::parse` (bdf_parser) gives for the file contents
/// `data`, or `None` where it refuses them.
pub uninterp spec fn bdf_parse(data: Seq<u8>) -> Option<BdfFont>;

/// `BdfFont::parse` (bdf_parser): parses the contents of a BDF file; the
/// parser's error is dropped.
#[verifier::external_body]
pub(crate) fn parse_bdf_font(data: &[u8]) -> (r: Option<BdfFont>)
    ensures
        r == bdf_parse(data@),
{
    BdfFont::parse(data).ok()
}

/// The vertical metrics of `font`.
pub fn font_metrics(font: &BdfFont) -> (m: BdfFontMetrics)
    ensures
        m == bdf_font_metrics(*font),
{
    BdfFontMetrics {
        ascent: bdf_int_property(font, FontMetric::Ascent),
        descent: bdf_int_property(font, FontMetric::Descent),
        bounding_box_height: bdf_bounding_box_height(font),
    }
}

} // verus!
