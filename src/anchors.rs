//! Anchors and the offsets that place a text block and its glyphs around a
//! text's position. Offsets are kept in half units: a value `v` stands for
//! `v / 2`.

use vstd::prelude::*;

verus! {

/// Which point of a text block sits at the text's position.
#[derive(Clone, Copy, Debug, PartialEq, Eq, Structural)]
pub enum Anchor {
    Center,
    BottomLeft,
    BottomCenter,
    BottomRight,
    CenterLeft,
    CenterRight,
    TopLeft,
    TopCenter,
    TopRight,
}

/// The normalized anchor point of each preset, in half units; the block spans
/// `-1..=1` in both directions.
pub open spec fn spec_anchor_vec(a: Anchor) -> (int, int) {
    match a {
        Anchor::Center => (0, 0),
        Anchor::BottomLeft => (-1, -1),
        Anchor::BottomCenter => (0, -1),
        Anchor::BottomRight => (1, -1),
        Anchor::CenterLeft => (-1, 0),
        Anchor::CenterRight => (1, 0),
        Anchor::TopLeft => (-1, 1),
        Anchor::TopCenter => (0, 1),
        Anchor::TopRight => (1, 1),
    }
}

impl Anchor {
    /// The anchor point in half units.
    pub fn as_vec2(self) -> (r: (i32, i32))
        ensures
            r.0 == spec_anchor_vec(self).0,
            r.1 == spec_anchor_vec(self).1,
    {
        match self {
            Anchor::Center => (0, 0),
            Anchor::BottomLeft => (-1, -1),
            Anchor::BottomCenter => (0, -1),
            Anchor::BottomRight => (1, -1),
            Anchor::CenterLeft => (-1, 0),
            Anchor::CenterRight => (1, 0),
            Anchor::TopLeft => (-1, 1),
            Anchor::TopCenter => (0, 1),
            Anchor::TopRight => (1, 1),
        }
    }

    /// The offsets for this anchor; with `center_characters_horizontally`,
    /// each glyph is moved right by half its width and the block back by the
    /// same fraction of its own width.
    pub fn to_anchor_offsets(self, center_characters_horizontally: bool) -> (r: AnchorOffsets)
        ensures
            r == spec_anchor_offsets(self, center_characters_horizontally),
    {
        let (ax, ay) = self.as_vec2();
        let ix: i32 = if center_characters_horizontally {
            1
        } else {
            0
        };
        AnchorOffsets { whole_x2: -(ax + ix), whole_y2: -ay, individual_x2: ix, individual_y2: 0 }
    }
}

/// Offsets of the whole text block and of each glyph, as fractions of their
/// sizes, in half units.
#[derive(Clone, Copy, Debug, PartialEq, Eq, Structural)]
pub struct AnchorOffsets {
    pub whole_x2: i32,
    pub whole_y2: i32,
    pub individual_x2: i32,
    pub individual_y2: i32,
}

/// `whole = -(anchor + individual)`, `individual = (1/2, 0)` or `(0, 0)`.
pub open spec fn spec_anchor_offsets(a: Anchor, center: bool) -> AnchorOffsets {
    let ix: i32 = if center {
        1
    } else {
        0
    };
    AnchorOffsets {
        whole_x2: -(spec_anchor_vec(a).0 + ix) as i32,
        whole_y2: -spec_anchor_vec(a).1 as i32,
        individual_x2: ix,
        individual_y2: 0,
    }
}

/// With centred glyphs, the centre anchor moves the block left by half its
/// width, the top-left anchor moves it down by half its height, and the
/// bottom-right anchor moves it left by its whole width and up by half its
/// height.
pub proof fn lemma_anchor_offsets_symmetry()
    ensures
        spec_anchor_offsets(Anchor::Center, true).whole_x2 == -1,
        spec_anchor_offsets(Anchor::Center, true).whole_y2 == 0,
        spec_anchor_offsets(Anchor::TopLeft, true).whole_x2 == 0,
        spec_anchor_offsets(Anchor::TopLeft, true).whole_y2 == -1,
        spec_anchor_offsets(Anchor::BottomRight, true).whole_x2 == -2,
        spec_anchor_offsets(Anchor::BottomRight, true).whole_y2 == 1,
        forall|a: Anchor, c: bool|
            #![trigger spec_anchor_offsets(a, c)]
            spec_anchor_offsets(a, c).whole_x2 + spec_anchor_offsets(a, c).individual_x2 == -spec_anchor_vec(a).0
                && spec_anchor_offsets(a, c).whole_y2 == -spec_anchor_vec(a).1,
{
}

/// What places one glyph.
#[derive(Clone, Copy, Debug)]
pub struct ComputeTransformParams {
    /// The cursor, in pixels.
    pub x_pos: i128,
    /// Width of the whole text, in pixels.
    pub text_width: i128,
    /// Width of the glyph, in pixels.
    pub width: i64,
    /// Height of the glyph, in pixels.
    pub height: u32,
    /// Height of the tallest glyph of the text, in pixels.
    pub max_height: u32,
    /// The glyph's own offset, in pixels.
    pub offset_x: i32,
    pub offset_y: i32,
}

/// Where a glyph goes, in half pixels: the translation is `(x2 / 2, y2 / 2)`,
/// at the font's native scale.
#[derive(Clone, Copy, Debug, PartialEq, Eq, Structural)]
pub struct Placement {
    pub x2: i128,
    pub y2: i128,
}

/// Bound on the magnitudes in a layout, far beyond any real text.
pub open spec fn coord_bound() -> int {
    0x10_0000_0000_0000_0000_0000_0000
}

pub open spec fn params_in_range(p: ComputeTransformParams) -> bool {
    &&& -coord_bound() <= p.x_pos <= coord_bound()
    &&& -coord_bound() <= p.text_width <= coord_bound()
}

/// The placement of a glyph: start at the cursor, shift by the block's
/// offset times the block's size, by the glyph's offset times its width,
/// centre the glyph vertically within the line, and add its own offset.
pub open spec fn spec_compute_transform(o: AnchorOffsets, p: ComputeTransformParams) -> Placement {
    Placement {
        x2: (2 * p.x_pos + p.text_width * o.whole_x2 + p.width * o.individual_x2 + 2
            * p.offset_x) as i128,
        y2: (p.max_height * o.whole_y2 + (p.max_height - p.height) + 2 * p.offset_y) as i128,
    }
}

pub open spec fn offsets_in_range(o: AnchorOffsets) -> bool {
    &&& -2 <= o.whole_x2 <= 2
    &&& -2 <= o.whole_y2 <= 2
    &&& -2 <= o.individual_x2 <= 2
}

pub proof fn lemma_anchor_offsets_in_range(a: Anchor, c: bool)
    ensures
        offsets_in_range(spec_anchor_offsets(a, c)),
{
}

impl AnchorOffsets {
    /// Places a glyph at native scale.
    pub fn compute_transform(self, params: ComputeTransformParams) -> (r: Placement)
        requires
            offsets_in_range(self),
            params_in_range(params),
        ensures
            r == spec_compute_transform(self, params),
    {
        let p = params;
        let ghost b = coord_bound();
        proof {
            assert(-2 * b <= p.text_width * self.whole_x2 <= 2 * b) by (nonlinear_arith)
                requires
                    -b <= p.text_width <= b,
                    -2 <= self.whole_x2 <= 2,
                    b > 0,
            ;
            assert(-2 * 0x8000_0000_0000_0000 <= p.width * self.individual_x2 <= 2 * 0x8000_0000_0000_0000)
                by (nonlinear_arith)
                requires
                    -0x8000_0000_0000_0000 <= p.width < 0x8000_0000_0000_0000,
                    -2 <= self.individual_x2 <= 2,
            ;
            assert(-2 * 0x1_0000_0000 <= p.max_height * self.whole_y2 <= 2 * 0x1_0000_0000)
                by (nonlinear_arith)
                requires
                    0 <= p.max_height < 0x1_0000_0000,
                    -2 <= self.whole_y2 <= 2,
            ;
        }
        let x2 = 2 * p.x_pos + p.text_width * (self.whole_x2 as i128) + (p.width as i128) * (
        self.individual_x2 as i128) + 2 * (p.offset_x as i128);
        let y2 = (p.max_height as i128) * (self.whole_y2 as i128) + (p.max_height as i128 - p.height as i128)
            + 2 * (p.offset_y as i128);
        Placement { x2, y2 }
    }
}

} // verus!
