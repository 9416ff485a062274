use image_font::bmf::{
    construct_image_font, file_name_to_extension_tuple, process_bmf_characters,
    validate_bm_font, BmChar, BmFontData, BmFontExtension, BmFontLoadError, parse_bm_font,
};
use image_font::font::Rect;

fn bm_char(id: u32, x: u16, page: u8) -> BmChar {
    BmChar {
        id,
        x,
        y: 2,
        width: 3,
        height: 4,
        xoffset: 1,
        yoffset: 2,
        xadvance: 5,
        page,
    }
}

fn font_data(chars: Vec<BmChar>, pages: usize) -> BmFontData {
    BmFontData {
        unicode: true,
        packed: false,
        pages: (0..pages).map(|p| format!("page{p}.png")).collect(),
        chars,
    }
}

#[test]
fn extension_tuples() {
    assert_eq!(BmFontExtension::Text.as_tuple(), ("txt", "fnt"));
    assert_eq!(BmFontExtension::Xml.as_tuple(), ("xml", "fnt"));
    assert_eq!(BmFontExtension::Binary.as_tuple(), ("bin", "fnt"));
    assert_eq!(BmFontExtension::from_tuple(("xml", "fnt")), Some(BmFontExtension::Xml));
    assert_eq!(BmFontExtension::from_tuple(("fnt", "xml")), None);
}

#[test]
fn extension_tuple_of_file_name() {
    assert_eq!(
        file_name_to_extension_tuple("font.bin.fnt"),
        Some((String::from("bin"), String::from("fnt")))
    );
    assert_eq!(file_name_to_extension_tuple("font.fnt"), None);
    assert_eq!(file_name_to_extension_tuple("fnt"), None);
}

#[test]
fn extension_from_path_reads_the_file_name() {
    assert_eq!(
        BmFontExtension::from_path("fonts/a.txt.fnt"),
        Some(BmFontExtension::Text)
    );
    assert_eq!(
        BmFontExtension::from_path("fonts/a.txt.fnt/."),
        Some(BmFontExtension::Text)
    );
    assert_eq!(BmFontExtension::from_path("fonts/a.png"), None);
}

#[test]
fn validation_rejects_unsupported_fonts() {
    let mut data = font_data(vec![bm_char(65, 0, 0)], 1);
    assert!(validate_bm_font(&data).is_ok());
    data.packed = true;
    assert!(matches!(
        validate_bm_font(&data),
        Err(BmFontLoadError::PackedUnsupported)
    ));
    data.unicode = false;
    assert!(matches!(
        validate_bm_font(&data),
        Err(BmFontLoadError::CharsetUnsupported)
    ));
    let data = font_data(vec![bm_char(65, 0, 0), bm_char(66, 0, 3)], 1);
    assert!(matches!(
        validate_bm_font(&data),
        Err(BmFontLoadError::InvalidCharPage {
            char_id: 66,
            page_id: 3
        })
    ));
}

#[test]
fn characters_skip_invalid_code_points() {
    let chars = vec![bm_char(65, 0, 0), bm_char(0xD800, 3, 0), bm_char(65, 6, 0)];
    let map = process_bmf_characters(&chars);
    assert_eq!(map.len(), 1);
    assert_eq!(map.get('A'), Some((2, Rect::new(6, 2, 9, 6))));
}

#[test]
fn bm_font_becomes_image_font() {
    let data = font_data(vec![bm_char(65, 0, 0), bm_char(66, 3, 1), bm_char(67, 6, 1)], 2);
    let font = construct_image_font(&data, &vec![(16, 16), (32, 8)]);
    assert_eq!(font.atlas_layouts.len(), 2);
    assert_eq!(font.atlas_layouts[1].size_x, 32);
    let c = font.atlas_character_map.get('C').unwrap();
    assert_eq!(c.page_index, 1);
    assert_eq!(font.atlas_layouts[1].textures[c.character_index], Rect::new(6, 2, 9, 6));
    assert_eq!((c.offset_x, c.offset_y, c.x_advance), (1, -2, Some(5)));
}

#[test]
fn text_format_font_parses() {
    let text = "info face=\"x\" size=8 bold=0 italic=0 charset=\"\" unicode=1 stretchH=100 smooth=0 aa=1 padding=0,0,0,0 spacing=0,0 outline=0\n\
common lineHeight=8 base=6 scaleW=16 scaleH=16 pages=1 packed=0 alphaChnl=0 redChnl=0 greenChnl=0 blueChnl=0\n\
page id=0 file=\"font.png\"\n\
chars count=1\n\
char id=65 x=1 y=2 width=3 height=4 xoffset=0 yoffset=1 xadvance=4 page=0 chnl=15\n";
    let font = parse_bm_font(BmFontExtension::Text, text.as_bytes());
    let font = font.expect("a valid font");
    assert_eq!(font.pages, vec![String::from("font.png")]);
    assert_eq!(font.chars.len(), 1);
    assert_eq!(font.chars[0].id, 65);
    assert_eq!(font.chars[0].width, 3);

    assert!(matches!(
        parse_bm_font(BmFontExtension::Text, b"nonsense"),
        Err(BmFontLoadError::BmFontError(_))
    ));
}
