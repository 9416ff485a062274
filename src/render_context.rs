//! Glyph metrics and placement for one text in one font at the font's native
//! pixel size.

use vstd::prelude::*;

use crate::anchors::{
    lemma_anchor_offsets_in_range, spec_anchor_offsets, spec_compute_transform,
    Anchor, AnchorOffsets, ComputeTransformParams, Placement,
};
use crate::filtered_string::{filter_supported, lemma_filter_supported_in_map};
use crate::font::ImageFont;

verus! {

/// How a text is laid out.
#[derive(Clone, Copy, Debug, PartialEq, Eq, Structural)]
pub struct RenderConfig {
    /// The point of the text block that sits at the text's position.
    pub text_anchor: Anchor,
    /// Centre each glyph on its own cursor position.
    pub offset_characters: bool,
    /// Pixels added to the width of every glyph.
    pub letter_spacing: i16,
}

/// Width of the glyph of `c`, spacing included.
pub open spec fn glyph_width(font: &ImageFont, c: char, spacing: i16) -> int {
    font.spec_rect(c).spec_width() + spacing
}

pub open spec fn glyph_height(font: &ImageFont, c: char) -> int {
    font.spec_rect(c).spec_height()
}

/// Height of the tallest glyph of `cs`, and at least 1.
pub open spec fn spec_max_height(font: &ImageFont, cs: Seq<char>) -> int
    decreases cs.len(),
{
    if cs.len() == 0 {
        1
    } else {
        let m = spec_max_height(font, cs.drop_last());
        let h = glyph_height(font, cs.last());
        if h > m {
            h
        } else {
            m
        }
    }
}

/// Sum of the glyph widths of `cs`.
pub open spec fn spec_text_width(font: &ImageFont, cs: Seq<char>, spacing: i16) -> int
    decreases cs.len(),
{
    if cs.len() == 0 {
        0
    } else {
        spec_text_width(font, cs.drop_last(), spacing) + glyph_width(font, cs.last(), spacing)
    }
}

/// How far the cursor moves after `c`: the font's advance if it gives one,
/// else the glyph width.
pub open spec fn spec_advance(font: &ImageFont, c: char, spacing: i16) -> int {
    match font.chars()[c].x_advance {
        Some(a) => a as int,
        None => glyph_width(font, c, spacing),
    }
}

/// Where the cursor is after `cs`, having started at 0.
pub open spec fn spec_cursor(font: &ImageFont, cs: Seq<char>, spacing: i16) -> int
    decreases cs.len(),
{
    if cs.len() == 0 {
        0
    } else {
        spec_cursor(font, cs.drop_last(), spacing) + spec_advance(font, cs.last(), spacing)
    }
}

pub open spec fn step_bound() -> int {
    0x2_0000_0000
}

/// Every character of `cs` is in the font.
pub open spec fn all_in_font(font: &ImageFont, cs: Seq<char>) -> bool {
    forall|i: int| 0 <= i < cs.len() ==> font.chars().contains_key(#[trigger] cs[i])
}

proof fn lemma_glyph_bounds(font: &ImageFont, c: char, spacing: i16)
    requires
        font.wf(),
        font.chars().contains_key(c),
    ensures
        -step_bound() <= glyph_width(font, c, spacing) <= step_bound(),
        -step_bound() <= spec_advance(font, c, spacing) <= step_bound(),
        0 <= glyph_height(font, c) <= u32::MAX,
{
    let ch = font.chars()[c];
    assert(font.atlas_layouts@[ch.page_index as int].wf());
}

proof fn lemma_sums_bounded(font: &ImageFont, cs: Seq<char>, spacing: i16)
    requires
        font.wf(),
        all_in_font(font, cs),
    ensures
        -cs.len() * step_bound() <= spec_text_width(font, cs, spacing) <= cs.len() * step_bound(),
        -cs.len() * step_bound() <= spec_cursor(font, cs, spacing) <= cs.len() * step_bound(),
        1 <= spec_max_height(font, cs) <= u32::MAX,
    decreases cs.len(),
{
    if cs.len() > 0 {
        assert(all_in_font(font, cs.drop_last())) by {
            assert forall|i: int| 0 <= i < cs.drop_last().len() implies font.chars().contains_key(
                #[trigger] cs.drop_last()[i],
            ) by {
                assert(cs.drop_last()[i] == cs[i]);
            }
        }
        lemma_sums_bounded(font, cs.drop_last(), spacing);
        assert(font.chars().contains_key(cs[cs.len() - 1]));
        lemma_glyph_bounds(font, cs.last(), spacing);
        assert((cs.len() - 1) * step_bound() + step_bound() == cs.len() * step_bound())
            by (nonlinear_arith);
    }
}

proof fn lemma_step(i: int)
    requires
        0 <= i < 0x1_0000_0000_0000_0000,
    ensures
        i * step_bound() + step_bound() == (i + 1) * step_bound(),
        i * step_bound() < 0x2_0000_0000_0000_0000_0000_0000,
{
    assert(i * step_bound() + step_bound() == (i + 1) * step_bound()) by (nonlinear_arith);
    assert(i * step_bound() < 0x2_0000_0000_0000_0000_0000_0000) by (nonlinear_arith)
        requires
            i < 0x1_0000_0000_0000_0000,
    ;
}

/// The tallest glyph bounds the line, which is never less than 1 pixel high;
/// a text with no glyph is exactly 1 pixel high.
pub proof fn lemma_max_height_floor(font: &ImageFont, cs: Seq<char>)
    ensures
        spec_max_height(font, cs) >= 1,
        cs.len() == 0 ==> spec_max_height(font, cs) == 1,
        forall|i: int| 0 <= i < cs.len() ==> spec_max_height(font, cs) >= glyph_height(font, #[trigger] cs[i]),
    decreases cs.len(),
{
    if cs.len() > 0 {
        lemma_max_height_floor(font, cs.drop_last());
        assert forall|i: int| 0 <= i < cs.len() implies spec_max_height(font, cs) >= glyph_height(
            font,
            #[trigger] cs[i],
        ) by {
            if i < cs.len() - 1 {
                assert(cs.drop_last()[i] == cs[i]);
            }
        }
    }
}

/// A run of one character is as wide as that many copies of its glyph.
pub proof fn lemma_width_linear(font: &ImageFont, cs: Seq<char>, c: char, spacing: i16)
    requires
        forall|i: int| 0 <= i < cs.len() ==> cs[i] == c,
    ensures
        spec_text_width(font, cs, spacing) == cs.len() * glyph_width(font, c, spacing),
    decreases cs.len(),
{
    if cs.len() > 0 {
        lemma_width_linear(font, cs.drop_last(), c, spacing);
        assert((cs.len() - 1) * glyph_width(font, c, spacing) + glyph_width(font, c, spacing)
            == cs.len() * glyph_width(font, c, spacing)) by (nonlinear_arith);
    }
}

/// A font, the characters of a text that it can draw, and the layout
/// settings.
pub struct RenderContext<'a> {
    image_font: &'a ImageFont,
    render_config: RenderConfig,
    filtered_text: Vec<char>,
    max_height: u32,
}

impl<'a> RenderContext<'a> {
    pub closed spec fn font(&self) -> &'a ImageFont {
        self.image_font
    }

    pub closed spec fn config(&self) -> RenderConfig {
        self.render_config
    }

    /// The filtered text.
    pub closed spec fn text(&self) -> Seq<char> {
        self.filtered_text@
    }

    pub closed spec fn wf(&self) -> bool {
        &&& self.image_font.wf()
        &&& all_in_font(self.image_font, self.filtered_text@)
        &&& self.max_height == spec_max_height(self.image_font, self.filtered_text@)
        &&& self.filtered_text@.len() <= usize::MAX
    }

    pub open spec fn spacing(&self) -> i16 {
        self.config().letter_spacing
    }

    /// The placement of `c` with the cursor at `x`.
    #[verifier::opaque]
    pub open spec fn spec_transform(&self, x: int, c: char) -> Placement {
        spec_compute_transform(
            spec_anchor_offsets(self.config().text_anchor, self.config().offset_characters),
            ComputeTransformParams {
                x_pos: x as i128,
                text_width: spec_text_width(self.font(), self.text(), self.spacing()) as i128,
                width: glyph_width(self.font(), c, self.spacing()) as i64,
                height: glyph_height(self.font(), c) as u32,
                max_height: spec_max_height(self.font(), self.text()) as u32,
                offset_x: self.font().chars()[c].offset_x,
                offset_y: self.font().chars()[c].offset_y,
            },
        )
    }

    /// Lays out `text` in `image_font`; the tallest glyph is measured here,
    /// once.
    pub fn new(image_font: &'a ImageFont, text: &str, render_config: RenderConfig) -> (r: Self)
        requires
            image_font.wf(),
        ensures
            r.wf(),
            r.font() == image_font,
            r.config() == render_config,
            r.text() == filter_supported(text@, image_font.chars()),
    {
        let filtered_text = image_font.filter_string(text).filtered_chars();
        proof {
            lemma_filter_supported_in_map(text@, image_font.chars());
        }
        let max_height = compute_max_height(image_font, &filtered_text);
        RenderContext { image_font, render_config, filtered_text, max_height }
    }

    /// The filtered text.
    pub fn filtered_chars(&self) -> (r: &Vec<char>)
        ensures
            r@ == self.text(),
    {
        &self.filtered_text
    }

    /// Height of the tallest glyph, at least 1.
    pub fn max_height(&self) -> (r: u32)
        requires
            self.wf(),
        ensures
            r == spec_max_height(self.font(), self.text()),
    {
        self.max_height
    }

    /// Width and height of the glyph of `c`, letter spacing included in the
    /// width.
    pub fn character_dimensions(&self, c: char) -> (r: (i64, u32))
        requires
            self.wf(),
            self.font().chars().contains_key(c),
        ensures
            r.0 == glyph_width(self.font(), c, self.spacing()),
            r.1 == glyph_height(self.font(), c),
    {
        let rect = self.image_font.rect(c);
        (rect.width() as i64 + self.render_config.letter_spacing as i64, rect.height())
    }

    /// Sum of the glyph widths of the filtered text.
    pub fn text_width(&self) -> (r: i128)
        requires
            self.wf(),
        ensures
            r == spec_text_width(self.font(), self.text(), self.spacing()),
    {
        let cs = &self.filtered_text;
        let mut width: i128 = 0;
        let mut i: usize = 0;
        while i < cs.len()
            invariant
                self.wf(),
                cs@ == self.text(),
                i <= cs@.len(),
                width == spec_text_width(self.font(), cs@.take(i as int), self.spacing()),
                -i * step_bound() <= width <= i * step_bound(),
            decreases cs@.len() - i,
        {
            let c = cs[i];
            proof {
                assert(cs@.take(i + 1).drop_last() == cs@.take(i as int));
                lemma_glyph_bounds(self.font(), c, self.spacing());
                lemma_step(i as int);
            }
            let (w, _) = self.character_dimensions(c);
            width = width + w as i128;
            i += 1;
        }
        proof {
            assert(cs@.take(cs@.len() as int) == cs@);
        }
        width
    }

    /// How far the cursor moves after `c`.
    pub fn character_advance(&self, c: char) -> (r: i64)
        requires
            self.wf(),
            self.font().chars().contains_key(c),
        ensures
            r == spec_advance(self.font(), c, self.spacing()),
    {
        match self.image_font.character(c).x_advance {
            Some(a) => a as i64,
            None => self.character_dimensions(c).0,
        }
    }

    /// The anchor offsets of this layout.
    pub fn anchor_offsets(&self) -> (r: AnchorOffsets)
        ensures
            r == spec_anchor_offsets(self.config().text_anchor, self.config().offset_characters),
    {
        self.render_config.text_anchor.to_anchor_offsets(self.render_config.offset_characters)
    }

    /// Places `c` at the cursor `x_pos`, then moves the cursor past it. The
    /// result depends on nothing but the context, the cursor and `c`.
    pub fn transform(&self, x_pos: &mut i128, c: char) -> (r: Placement)
        requires
            self.wf(),
            self.font().chars().contains_key(c),
            -0x4_0000_0000_0000_0000_0000_0000 <= *old(x_pos) <= 0x4_0000_0000_0000_0000_0000_0000,
        ensures
            r == self.spec_transform(*old(x_pos) as int, c),
            *final(x_pos) == *old(x_pos) + spec_advance(self.font(), c, self.spacing()),
    {
        let x = *x_pos;
        let (width, height) = self.character_dimensions(c);
        proof {
            lemma_glyph_bounds(self.font(), c, self.spacing());
            lemma_sums_bounded(self.font(), self.text(), self.spacing());
            assert(self.text().len() * step_bound() <= 0x2_0000_0000_0000_0000_0000_0000)
                by (nonlinear_arith)
                requires
                    self.text().len() <= 0x1_0000_0000_0000_0000,
            ;
            lemma_anchor_offsets_in_range(self.config().text_anchor, self.config().offset_characters);
        }
        *x_pos = x + self.character_advance(c) as i128;
        let ch = self.image_font.character(c);
        proof {
            reveal(RenderContext::spec_transform);
        }
        let params = ComputeTransformParams {
            x_pos: x,
            text_width: self.text_width(),
            width,
            height,
            max_height: self.max_height,
            offset_x: ch.offset_x,
            offset_y: ch.offset_y,
        };
        self.anchor_offsets().compute_transform(params)
    }

    /// Places every glyph of the text, left to right, starting with the
    /// cursor at 0.
    pub fn layout(&self) -> (r: Vec<Placement>)
        requires
            self.wf(),
        ensures
            r@.len() == self.text().len(),
            forall|i: int|
                0 <= i < self.text().len() ==> r@[i] == self.spec_transform(
                    spec_cursor(self.font(), self.text().take(i), self.spacing()),
                    #[trigger] self.text()[i],
                ),
    {
        let cs = &self.filtered_text;
        let mut out: Vec<Placement> = Vec::new();
        let mut x_pos: i128 = 0;
        let mut i: usize = 0;
        while i < cs.len()
            invariant
                self.wf(),
                cs@ == self.text(),
                i <= cs@.len(),
                out@.len() == i,
                x_pos == spec_cursor(self.font(), cs@.take(i as int), self.spacing()),
                -i * step_bound() <= x_pos <= i * step_bound(),
                forall|j: int|
                    0 <= j < i ==> out@[j] == self.spec_transform(
                        spec_cursor(self.font(), cs@.take(j), self.spacing()),
                        #[trigger] cs@[j],
                    ),
            decreases cs@.len() - i,
        {
            let c = cs[i];
            proof {
                assert(cs@.take(i + 1).drop_last() == cs@.take(i as int));
                lemma_glyph_bounds(self.font(), c, self.spacing());
                lemma_step(i as int);
            }
            let p = self.transform(&mut x_pos, c);
            let ghost prev = out@;
            out.push(p);
            proof {
                assert forall|j: int| 0 <= j < i + 1 implies out@[j] == self.spec_transform(
                    spec_cursor(self.font(), cs@.take(j), self.spacing()),
                    #[trigger] cs@[j],
                ) by {
                    if j < i {
                        assert(out@[j] == prev[j]);
                    }
                }
            }
            i += 1;
        }
        out
    }
}

/// Height of the tallest glyph of `cs`, at least 1.
fn compute_max_height(font: &ImageFont, cs: &Vec<char>) -> (r: u32)
    requires
        font.wf(),
        all_in_font(font, cs@),
    ensures
        r == spec_max_height(font, cs@),
        cs@.len() <= usize::MAX,
{
    let mut max_height: u32 = 1;
    let mut i: usize = 0;
    while i < cs.len()
        invariant
            font.wf(),
            all_in_font(font, cs@),
            i <= cs@.len(),
            max_height == spec_max_height(font, cs@.take(i as int)),
        decreases cs@.len() - i,
    {
        proof {
            assert(cs@.take(i + 1).drop_last() == cs@.take(i as int));
        }
        let h = font.rect(cs[i]).height();
        if h > max_height {
            max_height = h;
        }
        i += 1;
    }
    proof {
        assert(cs@.take(cs@.len() as int) == cs@);
    }
    max_height
}

} // verus!
