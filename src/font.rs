//! The font data model: atlas pages with their glyph regions, and the map
//! from characters to the region that draws each of them.

use vstd::prelude::*;

use crate::char_map::CharMap;

verus! {

/// An axis-aligned pixel rectangle; `min` is inclusive, `max` exclusive.
#[derive(Clone, Copy, Debug, PartialEq, Eq, Structural)]
pub struct Rect {
    pub min_x: u32,
    pub min_y: u32,
    pub max_x: u32,
    pub max_y: u32,
}

impl Rect {
    /// Neither side is negative.
    pub open spec fn wf(self) -> bool {
        self.min_x <= self.max_x && self.min_y <= self.max_y
    }

    pub open spec fn spec_width(self) -> int {
        self.max_x - self.min_x
    }

    pub open spec fn spec_height(self) -> int {
        self.max_y - self.min_y
    }

    /// The rectangle spanned by two corners, given in any order.
    pub fn new(x0: u32, y0: u32, x1: u32, y1: u32) -> (r: Rect)
        ensures
            r.wf(),
            r.min_x == if x0 <= x1 { x0 } else { x1 },
            r.max_x == if x0 <= x1 { x1 } else { x0 },
            r.min_y == if y0 <= y1 { y0 } else { y1 },
            r.max_y == if y0 <= y1 { y1 } else { y0 },
    {
        let (min_x, max_x) = if x0 <= x1 { (x0, x1) } else { (x1, x0) };
        let (min_y, max_y) = if y0 <= y1 { (y0, y1) } else { (y1, y0) };
        Rect { min_x, min_y, max_x, max_y }
    }

    pub fn width(&self) -> (r: u32)
        requires
            self.wf(),
        ensures
            r == self.spec_width(),
    {
        self.max_x - self.min_x
    }

    pub fn height(&self) -> (r: u32)
        requires
            self.wf(),
        ensures
            r == self.spec_height(),
    {
        self.max_y - self.min_y
    }
}

/// The glyph regions of one atlas page.
#[derive(Debug)]
pub struct AtlasLayout {
    /// Width of the page in pixels.
    pub size_x: u32,
    /// Height of the page in pixels.
    pub size_y: u32,
    /// The regions, addressed by their index.
    pub textures: Vec<Rect>,
}

impl AtlasLayout {
    pub open spec fn wf(&self) -> bool {
        forall|i: int| 0 <= i < self.textures@.len() ==> (#[trigger] self.textures@[i]).wf()
    }

    /// A page of the given size with no regions yet.
    pub fn new_empty(size_x: u32, size_y: u32) -> (r: AtlasLayout)
        ensures
            r.size_x == size_x,
            r.size_y == size_y,
            r.textures@.len() == 0,
    {
        AtlasLayout { size_x, size_y, textures: Vec::new() }
    }

    /// Adds a region and returns its index.
    pub fn add_texture(&mut self, rect: Rect) -> (r: usize)
        ensures
            r == old(self).textures@.len(),
            final(self).textures@ == old(self).textures@.push(rect),
            final(self).size_x == old(self).size_x,
            final(self).size_y == old(self).size_y,
    {
        self.textures.push(rect);
        self.textures.len() - 1
    }
}

/// Where a character's glyph is and how it sits on the line.
#[derive(Clone, Copy, Debug, PartialEq, Eq, Structural)]
pub struct ImageFontCharacter {
    /// Index of the glyph's region within its page.
    pub character_index: usize,
    /// Index of the page that holds the glyph.
    pub page_index: usize,
    /// Horizontal offset of the glyph from its cursor position, in pixels.
    pub offset_x: i32,
    /// Vertical offset of the glyph from the baseline, in pixels.
    pub offset_y: i32,
    /// How far the cursor moves after the glyph; `None` means by the glyph's
    /// width.
    pub x_advance: Option<i32>,
}

impl ImageFontCharacter {
    /// A character at region `character_index` of page `page_index`, with no
    /// offset and the default advance.
    pub fn new(page_index: usize, character_index: usize) -> (r: ImageFontCharacter)
        ensures
            r == (ImageFontCharacter {
                character_index,
                page_index,
                offset_x: 0,
                offset_y: 0,
                x_advance: None,
            }),
    {
        ImageFontCharacter { character_index, page_index, offset_x: 0, offset_y: 0, x_advance: None }
    }
}

/// A bitmap font: its pages and the characters it can draw.
#[derive(Debug)]
pub struct ImageFont {
    /// One layout per page.
    pub atlas_layouts: Vec<AtlasLayout>,
    /// The character map.
    pub atlas_character_map: CharMap<ImageFontCharacter>,
}

/// Every entry of `map` names a region that exists in `layouts`.
pub open spec fn entries_in_bounds(
    layouts: Seq<AtlasLayout>,
    map: Map<char, ImageFontCharacter>,
) -> bool {
    forall|c: char|
        #[trigger] map.contains_key(c) ==> map[c].page_index < layouts.len()
            && map[c].character_index < layouts[map[c].page_index as int].textures@.len()
}

pub open spec fn layouts_wf(layouts: Seq<AtlasLayout>) -> bool {
    forall|p: int| 0 <= p < layouts.len() ==> (#[trigger] layouts[p]).wf()
}

impl ImageFont {
    /// The character map as a mathematical map.
    pub open spec fn chars(&self) -> Map<char, ImageFontCharacter> {
        self.atlas_character_map@
    }

    /// The region that draws `c`.
    pub open spec fn spec_rect(&self, c: char) -> Rect {
        self.atlas_layouts@[self.chars()[c].page_index as int].textures@[self.chars()[
            c
        ].character_index as int]
    }

    /// The font is consistent: each character's region exists and no region
    /// has a negative side.
    pub open spec fn wf(&self) -> bool {
        &&& self.atlas_character_map.wf()
        &&& layouts_wf(self.atlas_layouts@)
        &&& entries_in_bounds(self.atlas_layouts@, self.chars())
    }

    /// A font from its page layouts and its character map.
    pub fn new(
        atlas_layouts: Vec<AtlasLayout>,
        atlas_character_map: CharMap<ImageFontCharacter>,
    ) -> (r: ImageFont)
        requires
            atlas_character_map.wf(),
            layouts_wf(atlas_layouts@),
            entries_in_bounds(atlas_layouts@, atlas_character_map@),
        ensures
            r.wf(),
            r.atlas_layouts@ == atlas_layouts@,
            r.chars() == atlas_character_map@,
    {
        ImageFont { atlas_layouts, atlas_character_map }
    }

    /// The region that draws `c`.
    pub fn rect(&self, c: char) -> (r: Rect)
        requires
            self.wf(),
            self.chars().contains_key(c),
        ensures
            r == self.spec_rect(c),
            r.wf(),
    {
        let ch = self.atlas_character_map.get(c).unwrap();
        let layout = &self.atlas_layouts[ch.page_index];
        proof {
            assert(layout.wf());
        }
        layout.textures[ch.character_index]
    }

    /// The map entry of `c`.
    pub fn character(&self, c: char) -> (r: ImageFontCharacter)
        requires
            self.wf(),
            self.chars().contains_key(c),
        ensures
            r == self.chars()[c],
    {
        self.atlas_character_map.get(c).unwrap()
    }

    /// Builds the character map and the layout of page `page` from regions
    /// given per character: each region is added to the layout in the order
    /// of `char_rects`, and its character is mapped to it.
    pub fn mapped_atlas_layout_from_char_map(
        page: usize,
        size_x: u32,
        size_y: u32,
        char_rects: &CharMap<Rect>,
    ) -> (r: (CharMap<ImageFontCharacter>, AtlasLayout))
        requires
            char_rects.wf(),
        ensures
            r.0.wf(),
            r.0@.dom() == char_rects@.dom(),
            r.1.size_x == size_x,
            r.1.size_y == size_y,
            r.1.textures@.len() == char_rects@.dom().len(),
            forall|c: char| #[trigger]
                r.0@.contains_key(c) ==> r.0@[c].page_index == page
                    && r.0@[c].character_index < r.1.textures@.len()
                    && r.1.textures@[r.0@[c].character_index as int] == char_rects@[c]
                    && r.0@[c].offset_x == 0 && r.0@[c].offset_y == 0
                    && r.0@[c].x_advance is None,
    {
        let mut map: CharMap<ImageFontCharacter> = CharMap::new();
        let mut layout = AtlasLayout::new_empty(size_x, size_y);
        let n = char_rects.len();
        proof {
            char_rects.lemma_entries();
        }
        let mut i: usize = 0;
        while i < n
            invariant
                n == char_rects.entries_view().len(),
                char_rects.wf(),
                i <= n,
                map.wf(),
                layout.size_x == size_x,
                layout.size_y == size_y,
                layout.textures@.len() == i,
                forall|j: int| 0 <= j < i ==> layout.textures@[j] == char_rects.entries_view()[j].1,
                forall|c: char|
                    #[trigger] map@.contains_key(c) <==> exists|j: int|
                        0 <= j < i && char_rects.entries_view()[j].0 == c,
                forall|c: char| #[trigger]
                    map@.contains_key(c) ==> map@[c].page_index == page
                        && map@[c].character_index < i
                        && char_rects.entries_view()[map@[c].character_index as int].0 == c
                        && map@[c].offset_x == 0 && map@[c].offset_y == 0
                        && map@[c].x_advance is None,
            decreases n - i,
        {
            let c = char_rects.key_at(i);
            let rect = char_rects.value_at(i);
            let index = layout.add_texture(rect);
            map.insert(c, ImageFontCharacter::new(page, index));
            proof {
                assert forall|d: char| #[trigger] map@.contains_key(d) <==> exists|j: int|
                    0 <= j < i + 1 && char_rects.entries_view()[j].0 == d by {
                    if d == c {
                        assert(char_rects.entries_view()[i as int].0 == d);
                    } else if map@.contains_key(d) {
                        let j = choose|j: int| 0 <= j < i && char_rects.entries_view()[j].0 == d;
                        assert(0 <= j < i + 1 && char_rects.entries_view()[j].0 == d);
                    }
                }
            }
            i += 1;
        }
        proof {
            assert forall|c: char| #[trigger] map@.contains_key(c) implies layout.textures@[map@[
                c
            ].character_index as int] == char_rects@[c] by {
                let j = map@[c].character_index as int;
                assert(char_rects@.contains_key(char_rects.entries_view()[j].0));
            }
            assert(map@.dom() =~= char_rects@.dom());
        }
        (map, layout)
    }
}

} // verus!
