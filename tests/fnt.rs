use image_font::bmf::{parse_bm_font, BmFontExtension, BmFontLoadError, BmFontLoader};
use image_font::font::Rect;
use image_font::layout::ImageFontLayout;
use image_font::loader::{
    descriptor_to_character_map_and_layout, ImageFontDescriptorValidationError,
    ImageFontLoadError, ImageFontLoader,
};
use image_font::loader_fnt::ImageFntFontLoader;

#[test]
fn fnt_text_gives_manual_layout() {
    let text = "info face=\"x\" size=8\r\n\
page id=0 file=\"font.png\"\r\n\
char id=65 x=0 y=0 width=5 height=8\n\
char id=66 x=5 y=0 width=+4 height=8 xoffset=0\n\
char id=67 x=1 y=1 width=3\n\
char id=300 x=abc y=1 width=2 height=2\n";
    let descriptor = ImageFntFontLoader
        .parse_descriptor(text)
        .expect("a valid fnt text");
    assert_eq!(descriptor.image(), "font.png");
    let ImageFontLayout::Manual(rects) = descriptor.layout() else {
        panic!("expected a manual layout");
    };
    assert_eq!(rects.len(), 3);
    assert_eq!(rects.get('A'), Some(Rect::new(0, 0, 5, 8)));
    assert_eq!(rects.get('B'), Some(Rect::new(5, 0, 9, 8)));
    assert!(!rects.contains_key('C'));
    // An id that is not a byte, and an x that is not a number, count as 0.
    assert_eq!(rects.get('\0'), Some(Rect::new(0, 1, 2, 3)));

    let (map, layout) = descriptor_to_character_map_and_layout(descriptor, 16, 8).unwrap();
    assert_eq!(map.len(), 3);
    assert_eq!(layout.textures.len(), 3);
}

#[test]
fn fnt_text_without_page_or_chars_is_refused() {
    let no_page = "char id=65 x=0 y=0 width=5 height=8\n";
    assert!(matches!(
        ImageFntFontLoader.parse_descriptor(no_page),
        Err(ImageFontLoadError::DescriptorValidationError(
            ImageFontDescriptorValidationError::EmptyImagePath
        ))
    ));
    let no_chars = "page id=0 file=\"font.png\"\n";
    assert!(matches!(
        ImageFntFontLoader.parse_descriptor(no_chars),
        Err(ImageFontLoadError::DescriptorValidationError(
            ImageFontDescriptorValidationError::EmptyLayoutString
        ))
    ));
    let quoted_blank = "page id=0 file=\"\"\nchar id=65 x=0 y=0 width=5 height=8\n";
    assert!(matches!(
        ImageFntFontLoader.parse_descriptor(quoted_blank),
        Err(ImageFontLoadError::DescriptorValidationError(
            ImageFontDescriptorValidationError::EmptyImagePath
        ))
    ));
}

#[test]
fn fnt_clamps_regions_to_u32() {
    let text = "page id=0 file=a.png\nchar id=65 x=4294967295 y=0 width=5 height=99999999999\n";
    let descriptor = ImageFntFontLoader.parse_descriptor(text).unwrap();
    let ImageFontLayout::Manual(rects) = descriptor.layout() else {
        panic!("expected a manual layout");
    };
    assert_eq!(rects.get('A'), Some(Rect::new(4294967295, 0, 4294967295, 0)));
}

#[test]
fn loaders_name_their_extensions() {
    assert_eq!(ImageFntFontLoader.extensions(), vec!["fnt"]);
    assert_eq!(BmFontLoader.extensions(), vec!["txt.fnt", "xml.fnt", "bin.fnt"]);
}

#[test]
fn bm_loader_refuses_unknown_paths() {
    assert!(matches!(
        BmFontLoader.parse("fonts/a.png", b""),
        Err(BmFontLoadError::ImageFontLoadError(ImageFontLoadError::InvalidPath(_)))
    ));
    assert!(matches!(
        BmFontLoader.parse("fonts/a.xml.fnt", b"<font>"),
        Err(BmFontLoadError::BmFontError(_))
    ));
    assert_eq!(BmFontExtension::from_path("a.bin.fnt"), Some(BmFontExtension::Binary));
}

#[test]
fn test_image_font_loader_extensions() {
    assert_eq!(ImageFontLoader.extensions(), vec!["image_font.ron"]);
}

#[test]
fn binary_and_xml_parsers_refuse_garbage() {
    assert!(matches!(
        parse_bm_font(BmFontExtension::Binary, b"BMF"),
        Err(BmFontLoadError::BmFontError(_))
    ));
    assert!(matches!(
        parse_bm_font(BmFontExtension::Xml, b"not xml"),
        Err(BmFontLoadError::BmFontError(_))
    ));
}
