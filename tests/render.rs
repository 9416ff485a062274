use image_font::anchors::{Anchor, AnchorOffsets, ComputeTransformParams, Placement};
use image_font::atlas_sprites::ImageFontTextData;
use image_font::char_map::CharMap;
use image_font::filtered_string::FilteredString;
use image_font::font::{AtlasLayout, ImageFont, ImageFontCharacter, Rect};
use image_font::render_context::{RenderConfig, RenderContext};
use image_font::rendered::{plan_text_image, GlyphBlit};
use image_font::{extract_asset_id, sync_texts_with_font_changes, AssetEvent};

const MONOSPACE_FONT_WIDTH: u32 = 5;
const MONOSPACE_FONT_HEIGHT: u32 = 12;
const VARIABLE_WIDTH_FONT_HEIGHT: u32 = 8;

/// A one-page font with a cell of the given size per character, side by side.
fn monospace_font(chars: &str) -> ImageFont {
    let mut rects = CharMap::new();
    for (i, c) in chars.chars().enumerate() {
        let x = i as u32 * MONOSPACE_FONT_WIDTH;
        rects.insert(c, Rect::new(x, 0, x + MONOSPACE_FONT_WIDTH, MONOSPACE_FONT_HEIGHT));
    }
    let (map, layout) = ImageFont::mapped_atlas_layout_from_char_map(0, 500, 12, &rects);
    ImageFont::new(vec![layout], map)
}

fn variable_width_font(widths: &[(char, u32)]) -> ImageFont {
    let mut rects = CharMap::new();
    let mut x = 0;
    for &(c, w) in widths {
        rects.insert(c, Rect::new(x, 0, x + w, VARIABLE_WIDTH_FONT_HEIGHT));
        x += w;
    }
    let (map, layout) = ImageFont::mapped_atlas_layout_from_char_map(0, x, 8, &rects);
    ImageFont::new(vec![layout], map)
}

fn sprite_config() -> RenderConfig {
    RenderConfig {
        text_anchor: Anchor::Center,
        offset_characters: true,
        letter_spacing: 0,
    }
}

fn map_of(entries: &[(char, usize)]) -> CharMap<ImageFontCharacter> {
    let mut map = CharMap::new();
    for &(c, i) in entries {
        map.insert(c, ImageFontCharacter::new(0, i));
    }
    map
}

#[test]
fn filters_chars() {
    let atlas_character_map = map_of(&[('a', 1), ('b', 2)]);
    let filtered_string = FilteredString::new("abcd", &atlas_character_map);
    assert_eq!(filtered_string.filtered_chars(), vec!['a', 'b']);
}

#[test]
fn is_empty_when_no_characters_retained() {
    let atlas_character_map = map_of(&[('x', 1), ('y', 2)]);
    let filtered_string = FilteredString::new("abc", &atlas_character_map);
    assert!(filtered_string.is_empty());
}

#[test]
fn is_not_empty_when_characters_retained() {
    let atlas_character_map = map_of(&[('a', 1)]);
    let filtered_string = FilteredString::new("abc", &atlas_character_map);
    assert!(!filtered_string.is_empty());
}

#[test]
fn display_shows_filtered_text() {
    let atlas_character_map = map_of(&[('a', 1), ('b', 2), ('d', 3)]);
    let filtered_string = FilteredString::new("abcd", &atlas_character_map);
    assert_eq!(filtered_string.to_string(), "abd");
}

#[test]
fn test_image_font_filter_string() {
    let font = monospace_font("AB");
    let filtered = font.filter_string("ABC");
    assert_eq!(filtered.to_string(), "AB");
}

#[test]
fn filtering_twice_changes_nothing() {
    let font = monospace_font("ab");
    let once = font.filter_string("xaybzab").to_string();
    let twice = font.filter_string(&once).filtered_chars();
    assert_eq!(once, "abab");
    assert_eq!(twice, font.filter_string("xaybzab").filtered_chars());
}

#[test]
fn max_height() {
    let font = monospace_font("Test");
    let render_context = RenderContext::new(&font, "Test", sprite_config());
    let max_height = render_context.max_height();
    assert_eq!(max_height, MONOSPACE_FONT_HEIGHT);
    assert_eq!(render_context.max_height(), max_height);
}

#[test]
fn max_height_takes_the_tallest_glyph() {
    let mut rects = CharMap::new();
    rects.insert('a', Rect::new(0, 0, 4, 3));
    rects.insert('b', Rect::new(4, 0, 8, 9));
    rects.insert('c', Rect::new(8, 0, 12, 0));
    let (map, layout) = ImageFont::mapped_atlas_layout_from_char_map(0, 12, 9, &rects);
    let font = ImageFont::new(vec![layout], map);
    assert_eq!(RenderContext::new(&font, "ab", sprite_config()).max_height(), 9);
    assert_eq!(RenderContext::new(&font, "a", sprite_config()).max_height(), 3);
    assert_eq!(RenderContext::new(&font, "c", sprite_config()).max_height(), 1);
}

#[test]
fn text_width() {
    let font = monospace_font("Test");
    let render_context = RenderContext::new(&font, "Test", sprite_config());
    let width = render_context.text_width();
    assert_eq!(
        width,
        render_context.filtered_chars().len() as i128 * MONOSPACE_FONT_WIDTH as i128
    );
}

#[test]
fn character_dimensions() {
    let font = monospace_font("ATest");
    let render_context = RenderContext::new(&font, "Test", sprite_config());
    let (width, height) = render_context.character_dimensions('A');
    assert_eq!(width, MONOSPACE_FONT_WIDTH as i64);
    assert_eq!(height, MONOSPACE_FONT_HEIGHT);
}

#[test]
fn character_dimensions_include_letter_spacing() {
    let font = monospace_font("A");
    let config = RenderConfig {
        letter_spacing: -2,
        ..sprite_config()
    };
    let render_context = RenderContext::new(&font, "AAA", config);
    assert_eq!(render_context.character_dimensions('A'), (3, 12));
    assert_eq!(render_context.text_width(), 9);
}

#[test]
fn test_mixed_character_widths() {
    let font = variable_width_font(&[('I', 4), ('M', 9)]);
    let render_context = RenderContext::new(&font, "IIMMII", sprite_config());

    assert_eq!(render_context.text_width(), 4 * 4 + 2 * 9);

    for &character in render_context.filtered_chars() {
        let (width, height) = render_context.character_dimensions(character);
        let expected = if character == 'I' { 4 } else { 9 };
        assert_eq!(width, expected);
        assert_eq!(height, VARIABLE_WIDTH_FONT_HEIGHT);
    }
}

#[test]
fn anchor_offsets() {
    let font = monospace_font("Test");
    let render_context = RenderContext::new(&font, "Test", sprite_config());
    assert_eq!(
        render_context.anchor_offsets(),
        Anchor::Center.to_anchor_offsets(true)
    );
}

#[test]
fn transform() {
    let font = monospace_font("Test");
    let render_context = RenderContext::new(&font, "Test", sprite_config());
    let mut x_pos = 0;
    let first = render_context.filtered_chars()[0];
    let placement = render_context.transform(&mut x_pos, first);

    // -7.5 pixels
    assert_eq!(placement.x2, -15);
    assert_eq!(x_pos, MONOSPACE_FONT_WIDTH as i128);
}

#[test]
fn transform_is_deterministic() {
    let font = monospace_font("Test");
    let render_context = RenderContext::new(&font, "Test", sprite_config());
    let mut x_a = 7;
    let mut x_b = 7;
    let a = render_context.transform(&mut x_a, 'e');
    let b = render_context.transform(&mut x_b, 'e');
    assert_eq!(a, b);
    assert_eq!(x_a, x_b);
}

#[test]
fn two_glyph_scenario() {
    let font = monospace_font("AB");
    let render_context = RenderContext::new(&font, "AB", sprite_config());
    assert_eq!(render_context.text_width(), 10);
    assert_eq!(render_context.max_height(), 12);
    let layout = render_context.layout();
    // First glyph: 0 - 10 / 2 + 5 / 2 = -2.5 pixels, vertically centred.
    assert_eq!(layout[0], Placement { x2: -5, y2: 0 });
    assert_eq!(layout[1], Placement { x2: 5, y2: 0 });
}

#[test]
fn layout_uses_advances_and_offsets() {
    let mut rects = CharMap::new();
    rects.insert('a', Rect::new(0, 0, 4, 10));
    rects.insert('b', Rect::new(4, 0, 10, 6));
    let (mut map, layout) = ImageFont::mapped_atlas_layout_from_char_map(0, 10, 10, &rects);
    let mut b = map.get('b').unwrap();
    b.offset_x = 1;
    b.offset_y = -2;
    let mut a = map.get('a').unwrap();
    a.x_advance = Some(7);
    map.insert('a', a);
    map.insert('b', b);
    let font = ImageFont::new(vec![layout], map);
    let config = RenderConfig {
        text_anchor: Anchor::TopLeft,
        offset_characters: false,
        letter_spacing: 0,
    };
    let render_context = RenderContext::new(&font, "ab", config);
    let placements = render_context.layout();
    // Text width 10, height 10. The top-left anchor moves the block right by
    // half its width and down by half its height: x2 = 2 * x + 10 + 2 * offset_x,
    // y2 = 10 * -1 + (10 - h) + 2 * offset_y; 'a' advances the cursor by 7.
    assert_eq!(placements[0], Placement { x2: 10, y2: -10 });
    assert_eq!(placements[1], Placement { x2: 26, y2: -10 });
}

#[test]
fn empty_text() {
    let font = monospace_font("Test");
    let render_context = RenderContext::new(&font, "", sprite_config());
    assert_eq!(render_context.text_width(), 0);
    assert_eq!(render_context.max_height(), 1);
}

#[test]
fn large_text_block() {
    let font = monospace_font("A");
    let text = "A".repeat(10_000);
    let render_context = RenderContext::new(&font, &text, sprite_config());
    assert_eq!(
        render_context.text_width(),
        10_000 * MONOSPACE_FONT_WIDTH as i128
    );
}

#[test]
fn anchors_to_anchor_offsets_are_as_expected() {
    let offsets = Anchor::Center.to_anchor_offsets(true);
    assert_eq!((offsets.whole_x2, offsets.whole_y2), (-1, 0));
    assert_eq!((offsets.individual_x2, offsets.individual_y2), (1, 0));

    let offsets = Anchor::TopLeft.to_anchor_offsets(true);
    assert_eq!((offsets.whole_x2, offsets.whole_y2), (0, -1));
    assert_eq!((offsets.individual_x2, offsets.individual_y2), (1, 0));

    let offsets = Anchor::BottomRight.to_anchor_offsets(true);
    assert_eq!((offsets.whole_x2, offsets.whole_y2), (-2, 1));
    assert_eq!((offsets.individual_x2, offsets.individual_y2), (1, 0));
}

#[test]
fn anchor_offsets_without_centred_glyphs() {
    let offsets = Anchor::CenterRight.to_anchor_offsets(false);
    assert_eq!(
        offsets,
        AnchorOffsets {
            whole_x2: -1,
            whole_y2: 0,
            individual_x2: 0,
            individual_y2: 0
        }
    );
}

#[test]
fn compute_transform_at_native_scale() {
    let offsets = AnchorOffsets {
        whole_x2: 2,
        whole_y2: -2,
        individual_x2: 1,
        individual_y2: 0,
    };
    let params = ComputeTransformParams {
        x_pos: 10,
        text_width: 20,
        width: 5,
        height: 20,
        max_height: 30,
        offset_x: 0,
        offset_y: 0,
    };
    // x: 10 + 20 + 2.5 = 32.5; y: -30 + (30 - 20) / 2 = -25.
    assert_eq!(
        offsets.compute_transform(params),
        Placement { x2: 65, y2: -50 }
    );
}

#[test]
fn empty_text_renders_one_transparent_pixel() {
    let font = monospace_font("AB");
    let plan = plan_text_image(&font, "xyz");
    assert_eq!((plan.width, plan.height), (1, 1));
    assert!(plan.blits.is_empty());
    let plan = plan_text_image(&font, "");
    assert_eq!((plan.width, plan.height), (1, 1));
}

#[test]
fn rendered_image_places_glyphs_side_by_side() {
    let font = monospace_font("AB");
    let plan = plan_text_image(&font, "BxA");
    assert_eq!((plan.width, plan.height), (10, 12));
    assert_eq!(
        plan.blits,
        vec![
            GlyphBlit {
                page_index: 0,
                source: Rect::new(5, 0, 10, 12),
                dest_x: 0
            },
            GlyphBlit {
                page_index: 0,
                source: Rect::new(0, 0, 5, 12),
                dest_x: 5
            },
        ]
    );
}

#[test]
fn sprite_count_converges() {
    let mut data = ImageFontTextData::new();
    assert_eq!(data.missing_sprites(3), 3);
    let removed = data.adjust_sprite_count(3, vec![10, 11, 12]);
    assert!(removed.is_empty());
    assert_eq!(data.sprites, vec![10, 11, 12]);

    assert_eq!(data.sprites_to_update(1), 1);
    let removed = data.adjust_sprite_count(1, Vec::new());
    assert_eq!(removed, vec![11, 12]);
    assert_eq!(data.sprites, vec![10]);

    let removed = data.adjust_sprite_count(1, Vec::new());
    assert!(removed.is_empty());
    assert_eq!(data.sprites.len(), 1);
}

#[test]
fn missing_font_is_reported_once() {
    let mut data = ImageFontTextData::new();
    data.sprites.push(4);
    assert!(data.note_missing_font());
    assert!(!data.note_missing_font());
    assert_eq!(data.sprites, vec![4]);
}

#[test]
fn changed_after_modified_event() {
    let events = vec![AssetEvent::Modified { id: 1 }];
    assert_eq!(sync_texts_with_font_changes(&events, &vec![1]), vec![true]);
}

#[test]
fn changed_after_loaded_with_dependencies_event() {
    let events = vec![AssetEvent::LoadedWithDependencies { id: 1 }];
    assert_eq!(sync_texts_with_font_changes(&events, &vec![1]), vec![true]);
}

#[test]
fn not_changed_after_events_on_other_fonts() {
    let events = vec![
        AssetEvent::Modified { id: 42 },
        AssetEvent::LoadedWithDependencies { id: 42 },
    ];
    assert_eq!(sync_texts_with_font_changes(&events, &vec![1]), vec![false]);
}

#[test]
fn not_changed_on_irrelevant_events() {
    let events = vec![
        AssetEvent::Added { id: 1 },
        AssetEvent::Removed { id: 1 },
        AssetEvent::Unused { id: 1 },
    ];
    assert_eq!(sync_texts_with_font_changes(&events, &vec![1, 2]), vec![false, false]);
    assert_eq!(extract_asset_id(&AssetEvent::Added { id: 1 }), None);
    assert_eq!(extract_asset_id(&AssetEvent::Modified { id: 3 }), Some(3));
}

#[test]
fn atlas_layout_indexes_regions() {
    let mut layout = AtlasLayout::new_empty(8, 8);
    assert_eq!(layout.add_texture(Rect::new(0, 0, 2, 2)), 0);
    assert_eq!(layout.add_texture(Rect::new(4, 4, 2, 2)), 1);
    assert_eq!(layout.textures[1], Rect { min_x: 2, min_y: 2, max_x: 4, max_y: 4 });
}

#[test]
fn render_context_creation() {
    let font = monospace_font("Test");
    let render_context = RenderContext::new(&font, "Test!", sprite_config());
    assert_eq!(render_context.filtered_chars(), &vec!['T', 'e', 's', 't']);
    assert_eq!(render_context.layout().len(), 4);
}
