use image_font::char_map::CharMap;
use image_font::font::{ImageFont, ImageFontCharacter, Rect};
use image_font::layout::{ImageFontLayout, ImageFontLayoutValidationError};
use image_font::loader::{
    descriptor_to_character_map_and_layout, ImageFontDescriptor,
    ImageFontDescriptorValidationError, ImageFontLoadError,
};

#[test]
fn layout_automatic() {
    let layout = ImageFontLayout::Automatic("ABCD\nEFGH\nIJKL".to_string());

    // Each char is 100x100
    let char_map = layout
        .into_character_rect_map(400, 300)
        .expect("valid layout");

    assert_eq!(char_map.len(), 12);
    assert!(('A'..'L').all(|character| char_map.contains_key(character)));
    assert_eq!(
        char_map.get('A'),
        Some(Rect::new(0, 0, 100, 100)),
        "Character 'A' has incorrect bounds."
    );
    assert_eq!(
        char_map.get('H'),
        Some(Rect::new(300, 100, 400, 200)),
        "Character 'H' has incorrect bounds."
    );
    assert_eq!(
        char_map.get('J'),
        Some(Rect::new(100, 200, 200, 300)),
        "Character 'J' has incorrect bounds."
    );
}

#[test]
fn layout_automatic_invalid_image_width() {
    let layout = ImageFontLayout::Automatic("AB\nCD".to_string());
    let result = layout.into_character_rect_map(301, 200);

    assert!(matches!(
        result,
        Err(ImageFontLayoutValidationError::InvalidImageWidth {
            width: 301,
            per_line_character_count: 2
        })
    ));
}

#[test]
fn layout_automatic_invalid_image_height() {
    let layout = ImageFontLayout::Automatic("AB\nCD".to_string());
    let result = layout.into_character_rect_map(300, 201);

    assert!(matches!(
        result,
        Err(ImageFontLayoutValidationError::InvalidImageHeight {
            height: 201,
            line_count: 2
        })
    ));
}

#[test]
fn layout_automatic_repeated_characters_error() {
    let layout = ImageFontLayout::Automatic("AB\nAC".to_string());
    let result = layout.into_character_rect_map(200, 100);

    assert!(
        matches!(
            result,
            Err(ImageFontLayoutValidationError::AutomaticRepeatedCharacter {
                row: 1,
                column: 0,
                character: 'A'
            })
        ),
        "{result:?}"
    );
}

#[test]
fn layout_automatic_trims_line_breaks_and_crlf() {
    let layout = ImageFontLayout::Automatic("\r\n\nAB\r\nC\n\n".to_string());
    let char_map = layout.into_character_rect_map(20, 40).expect("valid layout");

    assert_eq!(char_map.len(), 3);
    assert_eq!(char_map.get('A'), Some(Rect::new(0, 0, 10, 20)));
    assert_eq!(char_map.get('B'), Some(Rect::new(10, 0, 20, 20)));
    assert_eq!(char_map.get('C'), Some(Rect::new(0, 20, 10, 40)));
    assert!(!char_map.contains_key('\r'));
}

#[test]
fn layout_automatic_keeps_spaces_as_cells() {
    let layout = ImageFontLayout::Automatic(" A\nB ".to_string());
    let result = layout.into_character_rect_map(20, 20);

    assert!(matches!(
        result,
        Err(ImageFontLayoutValidationError::AutomaticRepeatedCharacter {
            row: 1,
            column: 1,
            character: ' '
        })
    ));
}

#[test]
fn layout_manual_monospace() {
    let mut coords = CharMap::new();
    coords.insert('a', (0, 0));
    coords.insert('b', (10, 0));
    let layout = ImageFontLayout::ManualMonospace {
        size_x: 10,
        size_y: 20,
        coords,
    };

    let char_map = layout
        .into_character_rect_map(100, 50)
        .expect("valid layout");

    assert_eq!(char_map.len(), 2);
    assert_eq!(char_map.get('a'), Some(Rect::new(0, 0, 10, 20)));
    assert_eq!(char_map.get('b'), Some(Rect::new(10, 0, 20, 20)));
}

#[test]
fn test_image_font_layout_manual() {
    let mut rects = CharMap::new();
    rects.insert('x', Rect::new(0, 0, 5, 5));
    rects.insert('y', Rect::new(5, 5, 15, 15));
    let layout = ImageFontLayout::Manual(rects);

    let char_map = layout
        .into_character_rect_map(100, 100)
        .expect("valid layout");

    assert_eq!(char_map.len(), 2);
    assert_eq!(char_map.get('x'), Some(Rect::new(0, 0, 5, 5)));
    assert_eq!(char_map.get('y'), Some(Rect::new(5, 5, 15, 15)));
}

#[test]
fn layout_manual_empty_map() {
    let layout = ImageFontLayout::Manual(CharMap::new());
    let char_map = layout
        .into_character_rect_map(100, 100)
        .expect("valid layout");

    assert!(
        char_map.is_empty(),
        "Expected empty char map for empty input."
    );
}

#[test]
fn validation_accepts_valid_descriptor() {
    let valid_descriptor = ImageFontDescriptor::new(
        String::from("some/path"),
        ImageFontLayout::Automatic(String::from("A")),
    );

    assert!(valid_descriptor.is_ok());

    println!("{:?}", valid_descriptor.unwrap().layout());
}

#[test]
fn validation_rejects_empty_path() {
    let invalid_descriptor = ImageFontDescriptor::new(
        String::from(""),
        ImageFontLayout::Automatic(String::from("A")),
    );

    assert!(matches!(
        invalid_descriptor,
        Err(ImageFontDescriptorValidationError::EmptyImagePath)
    ));
}

#[test]
fn validation_rejects_empty_automatic_layout() {
    let invalid_descriptor = ImageFontDescriptor::new(
        String::from("some/path"),
        ImageFontLayout::Automatic(String::new()),
    );

    assert!(matches!(
        invalid_descriptor,
        Err(ImageFontDescriptorValidationError::EmptyLayoutString)
    ));
}

#[test]
fn validation_rejects_white_space_only_values() {
    let blank_path = ImageFontDescriptor::new(
        String::from(" \t\u{3000}"),
        ImageFontLayout::Automatic(String::from("A")),
    );
    assert!(matches!(
        blank_path,
        Err(ImageFontDescriptorValidationError::EmptyImagePath)
    ));

    let blank_layout = ImageFontDescriptor::new(
        String::from("font.png"),
        ImageFontLayout::Automatic(String::from("\r\n \n")),
    );
    assert!(matches!(
        blank_layout,
        Err(ImageFontDescriptorValidationError::EmptyLayoutString)
    ));
}

#[test]
fn descriptor_to_character_map_and_layout_succeeds_on_valid_descriptor() {
    let font_descriptor = ImageFontDescriptor::new(
        String::from("path/to/image.png"),
        ImageFontLayout::Automatic(String::from("ABCD")),
    )
    .expect("valid descriptor");

    let result = descriptor_to_character_map_and_layout(font_descriptor, 100, 50);

    assert!(result.is_ok());
    let (map, layout) = result.unwrap();
    assert_eq!(map.len(), 4);
    let c = map.get('C').unwrap();
    assert_eq!(c.page_index, 0);
    assert_eq!(layout.textures[c.character_index], Rect::new(50, 0, 75, 50));
}

#[test]
fn descriptor_to_character_map_and_layout_fails_on_invalid_layout() {
    let font_descriptor = ImageFontDescriptor::new(
        String::from("path/to/image.png"),
        ImageFontLayout::Automatic(String::from("ABCD")),
    )
    .expect("valid descriptor");

    let result = descriptor_to_character_map_and_layout(font_descriptor, 101, 50);

    assert!(
        matches!(result, Err(ImageFontLoadError::LayoutValidationError(_))),
        "{result:?}"
    );
}

#[test]
fn mapped_atlas_layout_from_char_map_creates_correct_character_map_and_layout() {
    let mut char_rect_map = CharMap::new();
    char_rect_map.insert('A', Rect::new(0, 0, 16, 16));
    char_rect_map.insert('B', Rect::new(16, 0, 32, 16));

    let (atlas_character_map, atlas_layout) =
        ImageFont::mapped_atlas_layout_from_char_map(0, 256, 256, &char_rect_map);

    assert_eq!(atlas_character_map.len(), 2);
    assert!(atlas_character_map.contains_key('A'));
    assert!(atlas_character_map.contains_key('B'));
    assert_eq!(atlas_layout.textures.len(), 2);
    assert_eq!(
        atlas_layout.textures[atlas_character_map.get('A').unwrap().character_index],
        char_rect_map.get('A').unwrap()
    );
    assert_eq!(
        atlas_layout.textures[atlas_character_map.get('B').unwrap().character_index],
        char_rect_map.get('B').unwrap()
    );
}

#[test]
fn creating_image_font_works() {
    let font = ImageFont::new(Vec::new(), CharMap::new());
    assert!(font.atlas_layouts.is_empty());
    assert!(font.atlas_character_map.is_empty());
}

#[test]
fn char_map_insert_replaces_in_place() {
    let mut map = CharMap::new();
    assert_eq!(map.insert('a', ImageFontCharacter::new(0, 1)), None);
    assert_eq!(map.insert('b', ImageFontCharacter::new(0, 2)), None);
    assert_eq!(
        map.insert('a', ImageFontCharacter::new(1, 3)),
        Some(ImageFontCharacter::new(0, 1))
    );
    assert_eq!(map.len(), 2);
    assert_eq!(map.key_at(0), 'a');
    assert_eq!(map.get('a'), Some(ImageFontCharacter::new(1, 3)));
}
