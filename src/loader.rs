//! The description of an image font: the image that holds its glyphs and the
//! layout of the glyphs on it.

use vstd::prelude::*;

use crate::char_map::CharMap;
use crate::font::{AtlasLayout, ImageFont, ImageFontCharacter, Rect};
use crate::layout::{
    grid_text, is_line_break, spec_rect_map, trim_end_breaks, trim_start_breaks, ImageFontLayout,
    ImageFontLayoutValidationError,
};
use crate::text::chars_of;

verus! {

/// Unicode's `White_Space` characters.
pub open spec fn is_white_space(c: char) -> bool {
    ('\u{9}' <= c <= '\u{d}') || c == ' ' || c == '\u{85}' || c == '\u{a0}' || c == '\u{1680}'
        || ('\u{2000}' <= c <= '\u{200a}') || c == '\u{2028}' || c == '\u{2029}' || c
        == '\u{202f}' || c == '\u{205f}' || c == '\u{3000}'
}

/// `s` has nothing but white space.
pub open spec fn is_blank(s: Seq<char>) -> bool {
    forall|i: int| 0 <= i < s.len() ==> is_white_space(#[trigger] s[i])
}

pub(crate) fn white_space(c: char) -> (r: bool)
    ensures
        r == is_white_space(c),
{
    ('\u{9}' <= c && c <= '\u{d}') || c == ' ' || c == '\u{85}' || c == '\u{a0}' || c == '\u{1680}'
        || ('\u{2000}' <= c && c <= '\u{200a}') || c == '\u{2028}' || c == '\u{2029}' || c
        == '\u{202f}' || c == '\u{205f}' || c == '\u{3000}'
}

/// `s` is empty once white space is trimmed from both ends.
pub fn blank(s: &str) -> (r: bool)
    ensures
        r == is_blank(s@),
{
    let cs = chars_of(s);
    let mut i: usize = 0;
    while i < cs.len()
        invariant
            cs@ == s@,
            i <= cs@.len(),
            forall|j: int| 0 <= j < i ==> is_white_space(#[trigger] cs@[j]),
        decreases cs@.len() - i,
    {
        if !white_space(cs[i]) {
            return false;
        }
        i += 1;
    }
    true
}

proof fn lemma_trim_start_keeps(s: Seq<char>, i: int)
    requires
        0 <= i < s.len(),
        !is_line_break(s[i]),
    ensures
        exists|j: int|
            0 <= j < trim_start_breaks(s).len() && !is_line_break(#[trigger] trim_start_breaks(s)[j]),
    decreases s.len(),
{
    if is_line_break(s[0]) {
        assert(s.drop_first()[i - 1] == s[i]);
        lemma_trim_start_keeps(s.drop_first(), i - 1);
        assert(trim_start_breaks(s) == trim_start_breaks(s.drop_first()));
    } else {
        assert(!is_line_break(trim_start_breaks(s)[i]));
    }
}

proof fn lemma_trim_end_keeps(s: Seq<char>, i: int)
    requires
        0 <= i < s.len(),
        !is_line_break(s[i]),
    ensures
        trim_end_breaks(s).len() > 0,
    decreases s.len(),
{
    if is_line_break(s.last()) {
        assert(s.drop_last()[i] == s[i]);
        lemma_trim_end_keeps(s.drop_last(), i);
    }
}

/// A layout text with something besides white space leaves a grid.
proof fn lemma_grid_text_nonempty(s: Seq<char>)
    requires
        !is_blank(s),
    ensures
        grid_text(s).len() > 0,
{
    let i = choose|i: int| 0 <= i < s.len() && !is_white_space(s[i]);
    lemma_trim_start_keeps(s, i);
    let t = trim_start_breaks(s);
    let j = choose|j: int| 0 <= j < t.len() && !is_line_break(#[trigger] t[j]);
    lemma_trim_end_keeps(t, j);
}

/// Why a font description is rejected.
#[derive(Debug, PartialEq, Eq, Structural)]
pub enum ImageFontDescriptorValidationError {
    /// The image path is empty or white space.
    EmptyImagePath,
    /// The grid of an automatic layout is empty or white space.
    EmptyLayoutString,
}

/// A font description: the image that holds the glyphs, relative to the
/// description, and where on it the glyphs are.
#[derive(Debug)]
pub struct ImageFontDescriptor {
    image: String,
    layout: ImageFontLayout,
}

/// What validation of a description finds.
pub open spec fn spec_validate(image: Seq<char>, layout: &ImageFontLayout) -> Result<
    (),
    ImageFontDescriptorValidationError,
> {
    if is_blank(image) {
        Err(ImageFontDescriptorValidationError::EmptyImagePath)
    } else if layout matches ImageFontLayout::Automatic(s) && is_blank(s@) {
        Err(ImageFontDescriptorValidationError::EmptyLayoutString)
    } else {
        Ok(())
    }
}

impl ImageFontDescriptor {
    pub closed spec fn spec_image(&self) -> Seq<char> {
        self.image@
    }

    pub closed spec fn spec_layout(&self) -> &ImageFontLayout {
        &self.layout
    }

    /// A description, if it passes validation.
    pub fn new(image: String, layout: ImageFontLayout) -> (r: Result<
        Self,
        ImageFontDescriptorValidationError,
    >)
        ensures
            match r {
                Ok(d) => spec_validate(image@, &layout) is Ok && d.spec_image() == image@
                    && d.spec_layout() == &layout,
                Err(e) => spec_validate(image@, &layout) == Err::<(), _>(e),
            },
    {
        let value = ImageFontDescriptor { image, layout };
        match value.validate() {
            Ok(()) => Ok(value),
            Err(e) => Err(e),
        }
    }

    /// Rejects an empty image path and an empty automatic layout.
    pub fn validate(&self) -> (r: Result<(), ImageFontDescriptorValidationError>)
        ensures
            r == spec_validate(self.spec_image(), self.spec_layout()),
    {
        if blank(self.image.as_str()) {
            return Err(ImageFontDescriptorValidationError::EmptyImagePath);
        }
        if let ImageFontLayout::Automatic(s) = &self.layout {
            if blank(s.as_str()) {
                return Err(ImageFontDescriptorValidationError::EmptyLayoutString);
            }
        }
        Ok(())
    }

    /// The path of the image, relative to the description.
    pub fn image(&self) -> (r: &str)
        ensures
            r@ == self.spec_image(),
    {
        self.image.as_str()
    }

    /// Where the glyphs are on the image.
    pub fn layout(&self) -> (r: &ImageFontLayout)
        ensures
            r == self.spec_layout(),
    {
        &self.layout
    }

    /// The layout, taking the description apart.
    pub fn into_layout(self) -> (r: ImageFontLayout)
        ensures
            r == *self.spec_layout(),
    {
        self.layout
    }
}

/// Loader of fonts described in RON.
#[derive(Debug, Default)]
pub struct ImageFontLoader;

impl ImageFontLoader {
    /// The file extension of the descriptions.
    pub fn extensions(&self) -> (r: Vec<&'static str>)
        ensures
            r@.len() == 1,
            r@[0]@ == seq!['i', 'm', 'a', 'g', 'e', '_', 'f', 'o', 'n', 't', '.', 'r', 'o', 'n'],
    {
        proof {
            reveal_strlit("image_font.ron");
        }
        vec!["image_font.ron"]
    }
}

/// Why loading a font fails.
#[derive(Debug, PartialEq, Eq)]
pub enum ImageFontLoadError {
    /// The description could not be parsed; the parser's message.
    ParseFailure(String),
    /// The description is invalid.
    DescriptorValidationError(ImageFontDescriptorValidationError),
    /// The layout does not fit the image.
    LayoutValidationError(ImageFontLayoutValidationError),
    /// Reading failed; the reader's message.
    Io(String),
    /// The file at this path is not an image.
    NotAnImage(String),
    /// The path is not valid UTF-8.
    InvalidPath(String),
    /// The description's path has no parent directory.
    MissingParentPath,
}

/// The description can be applied to an image: its layout fits in `u32`.
pub open spec fn descriptor_can_map(d: &ImageFontDescriptor) -> bool {
    spec_validate(d.spec_image(), d.spec_layout()) is Ok && match d.spec_layout() {
        ImageFontLayout::Automatic(s) => s@.len() < u32::MAX,
        _ => d.spec_layout().can_map(),
    }
}

/// The character map and page layout of a one-page font described by
/// `font_descriptor` on an image of the given size.
pub fn descriptor_to_character_map_and_layout(
    font_descriptor: ImageFontDescriptor,
    size_x: u32,
    size_y: u32,
) -> (r: Result<(CharMap<ImageFontCharacter>, AtlasLayout), ImageFontLoadError>)
    requires
        descriptor_can_map(&font_descriptor),
    ensures
        match r {
            Ok((map, layout)) => exists|rects: CharMap<Rect>|
                rects.wf() && spec_rect_map(font_descriptor.spec_layout(), size_x, size_y, Ok(rects@))
                    && map.wf() && map@.dom() == rects@.dom() && layout.size_x == size_x
                    && layout.size_y == size_y && forall|c: char| #[trigger]
                    map@.contains_key(c) ==> map@[c].page_index == 0 && map@[c].character_index
                        < layout.textures@.len() && layout.textures@[map@[c].character_index as int]
                        == rects@[c],
            Err(ImageFontLoadError::LayoutValidationError(e)) => spec_rect_map(
                font_descriptor.spec_layout(),
                size_x,
                size_y,
                Err(e),
            ),
            Err(_) => false,
        },
{
    proof {
        if let ImageFontLayout::Automatic(s) = font_descriptor.spec_layout() {
            lemma_grid_text_nonempty(s@);
        }
    }
    let ghost layout = *font_descriptor.spec_layout();
    let rect_character_map = match font_descriptor.into_layout().into_character_rect_map(
        size_x,
        size_y,
    ) {
        Ok(m) => m,
        Err(e) => {
            return Err(ImageFontLoadError::LayoutValidationError(e));
        },
    };
    let (atlas_character_map, atlas_layout) = ImageFont::mapped_atlas_layout_from_char_map(
        0,
        size_x,
        size_y,
        &rect_character_map,
    );
    Ok((atlas_character_map, atlas_layout))
}

} // verus!
