//! Rendering a text into one image: which region of which page goes where
//! in the output, and how large the output is.

use vstd::prelude::*;

use crate::anchors::Anchor;
use crate::filtered_string::{filter_supported, lemma_filter_supported_in_map};
use crate::font::{ImageFont, Rect};
use crate::render_context::{
    all_in_font, spec_cursor, spec_max_height, spec_text_width, RenderConfig, RenderContext,
};

verus! {

/// One glyph copied from a font page into the output image, at row 0.
#[derive(Clone, Copy, Debug, PartialEq, Eq, Structural)]
pub struct GlyphBlit {
    /// The page that holds the glyph.
    pub page_index: usize,
    /// The glyph's region of that page.
    pub source: Rect,
    /// The output column of the glyph's left edge.
    pub dest_x: u32,
}

/// The output image of a text: its size and the glyphs copied into it, in
/// text order. Pixels that no glyph covers are transparent.
#[derive(Debug)]
pub struct TextImagePlan {
    pub width: u32,
    pub height: u32,
    pub blits: Vec<GlyphBlit>,
}

/// `x` clamped into `u32`.
pub open spec fn saturate_u32(x: int) -> u32 {
    if x < 0 {
        0
    } else if x > u32::MAX {
        u32::MAX
    } else {
        x as u32
    }
}

/// The layout settings of a rendered image: centred, glyphs flush to their
/// cursor, no extra spacing.
pub open spec fn image_config() -> RenderConfig {
    RenderConfig { text_anchor: Anchor::Center, offset_characters: false, letter_spacing: 0 }
}

fn saturate(x: i128) -> (r: u32)
    ensures
        r == saturate_u32(x as int),
{
    if x < 0 {
        0
    } else if x > u32::MAX as i128 {
        u32::MAX
    } else {
        x as u32
    }
}

/// Plans the image of `text` at the font's native size. A text with no glyph
/// gives a single transparent pixel, never an empty image. Otherwise the
/// image is as wide as the glyphs together and as high as the tallest one,
/// and each glyph is copied at the cursor position that the layout gives it.
pub fn plan_text_image(font: &ImageFont, text: &str) -> (r: TextImagePlan)
    requires
        font.wf(),
    ensures
        ({
            let cs = filter_supported(text@, font.chars());
            if cs.len() == 0 {
                r.width == 1 && r.height == 1 && r.blits@.len() == 0
            } else {
                &&& r.width == saturate_u32(spec_text_width(font, cs, 0))
                &&& r.height == spec_max_height(font, cs)
                &&& r.blits@.len() == cs.len()
                &&& forall|i: int|
                    0 <= i < cs.len() ==> #[trigger] r.blits@[i] == (GlyphBlit {
                        page_index: font.chars()[cs[i]].page_index,
                        source: font.spec_rect(cs[i]),
                        dest_x: saturate_u32(spec_cursor(font, cs.take(i), 0)),
                    })
            }
        }),
{
    let config = RenderConfig {
        text_anchor: Anchor::Center,
        offset_characters: false,
        letter_spacing: 0,
    };
    let context = RenderContext::new(font, text, config);
    proof {
        lemma_filter_supported_in_map(text@, font.chars());
    }
    let cs = context.filtered_chars();
    if cs.len() == 0 {
        return TextImagePlan { width: 1, height: 1, blits: Vec::new() };
    }
    let width = saturate(context.text_width());
    let height = context.max_height();
    let mut blits: Vec<GlyphBlit> = Vec::new();
    let mut x_pos: i128 = 0;
    let mut i: usize = 0;
    while i < cs.len()
        invariant
            context.wf(),
            context.font() == font,
            context.config() == config,
            config == image_config(),
            cs@ == context.text(),
            cs@ == filter_supported(text@, font.chars()),
            font.wf(),
            all_in_font(font, cs@),
            i <= cs@.len(),
            blits@.len() == i,
            x_pos == spec_cursor(font, cs@.take(i as int), 0),
            -i * 0x2_0000_0000 <= x_pos <= i * 0x2_0000_0000,
            forall|j: int|
                0 <= j < i ==> #[trigger] blits@[j] == (GlyphBlit {
                    page_index: font.chars()[cs@[j]].page_index,
                    source: font.spec_rect(cs@[j]),
                    dest_x: saturate_u32(spec_cursor(font, cs@.take(j), 0)),
                }),
        decreases cs@.len() - i,
    {
        let c = cs[i];
        proof {
            assert(cs@.take(i + 1).drop_last() == cs@.take(i as int));
            assert(cs@.take(i + 1).last() == c);
            assert(i * 0x2_0000_0000 < 0x2_0000_0000_0000_0000_0000_0000) by (nonlinear_arith)
                requires
                    i < 0x1_0000_0000_0000_0000,
            ;
            assert(font.chars().contains_key(c));
        }
        let blit = GlyphBlit {
            page_index: font.character(c).page_index,
            source: font.rect(c),
            dest_x: saturate(x_pos),
        };
        let ghost before = x_pos;
        context.transform(&mut x_pos, c);
        proof {
            let ch = font.chars()[c];
            assert(font.atlas_layouts@[ch.page_index as int].wf());
            assert(i * 0x2_0000_0000 + 0x2_0000_0000 == (i + 1) * 0x2_0000_0000) by (nonlinear_arith);
        }
        let ghost prev = blits@;
        blits.push(blit);
        proof {
            assert forall|j: int| 0 <= j < i + 1 implies #[trigger] blits@[j] == (GlyphBlit {
                page_index: font.chars()[cs@[j]].page_index,
                source: font.spec_rect(cs@[j]),
                dest_x: saturate_u32(spec_cursor(font, cs@.take(j), 0)),
            }) by {
                if j < i {
                    assert(blits@[j] == prev[j]);
                }
            }
        }
        i += 1;
    }
    TextImagePlan { width, height, blits }
}

} // verus!
