//! Fonts in the BMFont format: parsing through `bmfont_rs`, the checks a
//! font must pass, and the image font that it yields.

use vstd::prelude::*;

use crate::char_map::{keys_unique, CharMap};
use crate::font::{layouts_wf, AtlasLayout, ImageFont, ImageFontCharacter, Rect};
use crate::loader::ImageFontLoadError;
use crate::text::{chars_of, string_of};

verus! {

#[verifier::external_type_specification]
#[verifier::external_body]
pub struct ExBmFont(bmfont_rs::Font);

#[verifier::external_type_specification]
#[verifier::external_body]
pub struct ExBmFontError(bmfont_rs::Error);

/// One character of a BMFont font.
#[derive(Clone, Copy, Debug, PartialEq, Eq, Structural)]
pub struct BmChar {
    /// The character's code point.
    pub id: u32,
    pub x: u16,
    pub y: u16,
    pub width: u16,
    pub height: u16,
    pub xoffset: i16,
    pub yoffset: i16,
    pub xadvance: i16,
    /// The page that holds the glyph.
    pub page: u8,
}

/// What loading reads of a BMFont font.
#[derive(Debug)]
pub struct BmFontData {
    pub unicode: bool,
    pub packed: bool,
    /// The file of each page.
    pub pages: Vec<String>,
    pub chars: Vec<BmChar>,
}

/// Why a BMFont font cannot be loaded.
#[derive(Debug)]
pub enum BmFontLoadError {
    ImageFontLoadError(ImageFontLoadError),
    /// The font could not be parsed.
    BmFontError(bmfont_rs::Error),
    /// Only Unicode fonts are supported.
    CharsetUnsupported,
    /// Only fonts that are not packed are supported.
    PackedUnsupported,
    /// A character is on a page that the font does not have.
    InvalidCharPage { char_id: u32, page_id: u32 },
}

/// Relies on `bmfont_rs::text::from_bytes`: parses the text format.
#[verifier::external_body]
fn parse_text_format(data: &[u8]) -> Result<bmfont_rs::Font, bmfont_rs::Error> {
    bmfont_rs::text::from_bytes(data)
}

/// Relies on `bmfont_rs::xml::from_bytes`: parses the XML format.
#[verifier::external_body]
fn parse_xml_format(data: &[u8]) -> Result<bmfont_rs::Font, bmfont_rs::Error> {
    bmfont_rs::xml::from_bytes(data)
}

/// Relies on `bmfont_rs::binary::from_bytes`: parses the binary format.
#[verifier::external_body]
fn parse_binary_format(data: &[u8]) -> Result<bmfont_rs::Font, bmfont_rs::Error> {
    bmfont_rs::binary::from_bytes(data)
}

/// Relies on the public fields of `bmfont_rs::Font`, `Info`, `Common` and
/// `Char`: copies the ones that loading reads.
#[verifier::external_body]
fn font_data(f: &bmfont_rs::Font) -> BmFontData {
    let chars = f.chars.iter().map(|c| BmChar {
        id: c.id, x: c.x, y: c.y, width: c.width, height: c.height,
        xoffset: c.xoffset, yoffset: c.yoffset, xadvance: c.xadvance, page: c.page,
    }).collect();
    BmFontData { unicode: f.info.unicode, packed: f.common.packed, pages: f.pages.clone(), chars }
}

/// A Unicode scalar value: not a surrogate, at most `0x10FFFF`.
pub open spec fn is_scalar(id: u32) -> bool {
    id < 0xD800 || (0xE000 <= id && id <= 0x10FFFF)
}

/// Relies on `char::from_u32`: the character of a scalar value, `None` for
/// any other number.
#[verifier::external_body]
fn char_from_u32(id: u32) -> (r: Option<char>)
    ensures
        match r {
            Some(c) => is_scalar(id) && c as u32 == id,
            None => !is_scalar(id),
        },
{
    char::from_u32(id)
}

/// The region of a character's glyph on its page.
pub open spec fn bm_rect(c: BmChar) -> Rect {
    Rect {
        min_x: c.x as u32,
        min_y: c.y as u32,
        max_x: (c.x + c.width) as u32,
        max_y: (c.y + c.height) as u32,
    }
}

/// The first character that is on a missing page.
pub open spec fn is_first_bad_page(data: &BmFontData, i: int) -> bool {
    &&& 0 <= i < data.chars@.len()
    &&& data.chars@[i].page >= data.pages@.len()
    &&& forall|j: int| 0 <= j < i ==> data.chars@[j].page < data.pages@.len()
}

/// Every character is on a page that the font has.
pub open spec fn pages_valid(data: &BmFontData) -> bool {
    forall|i: int| 0 <= i < data.chars@.len() ==> (#[trigger] data.chars@[i]).page < data.pages@.len()
}

/// A font that loading accepts: Unicode, not packed, no missing page.
pub open spec fn bm_font_valid(data: &BmFontData) -> bool {
    data.unicode && !data.packed && pages_valid(data)
}

/// Checks that the font is Unicode, not packed, and has every page that a
/// character is on, in that order.
pub fn validate_bm_font(data: &BmFontData) -> (r: Result<(), BmFontLoadError>)
    ensures
        r is Ok <==> bm_font_valid(data),
        r matches Err(BmFontLoadError::CharsetUnsupported) <==> !data.unicode,
        r matches Err(BmFontLoadError::PackedUnsupported) <==> data.unicode && data.packed,
        r matches Err(BmFontLoadError::InvalidCharPage { .. }) <==> data.unicode && !data.packed
            && !pages_valid(data),
        r matches Err(BmFontLoadError::InvalidCharPage { char_id, page_id }) ==> exists|i: int|
            is_first_bad_page(data, i) && char_id == data.chars@[i].id && page_id
                == data.chars@[i].page,
        r is Err ==> (r matches Err(BmFontLoadError::CharsetUnsupported)) || (r matches Err(
            BmFontLoadError::PackedUnsupported,
        )) || (r matches Err(BmFontLoadError::InvalidCharPage { .. })),
{
    if !data.unicode {
        return Err(BmFontLoadError::CharsetUnsupported);
    }
    if data.packed {
        return Err(BmFontLoadError::PackedUnsupported);
    }
    let mut i: usize = 0;
    while i < data.chars.len()
        invariant
            data.unicode,
            !data.packed,
            i <= data.chars@.len(),
            forall|j: int| 0 <= j < i ==> (#[trigger] data.chars@[j]).page < data.pages@.len(),
        decreases data.chars@.len() - i,
    {
        let c = data.chars[i];
        if c.page as usize >= data.pages.len() {
            proof {
                assert(is_first_bad_page(data, i as int));
            }
            return Err(BmFontLoadError::InvalidCharPage { char_id: c.id, page_id: c.page as u32 });
        }
        i += 1;
    }
    Ok(())
}

/// The file extensions of the three BMFont formats.
#[derive(Clone, Copy, Debug, PartialEq, Eq, Structural)]
pub enum BmFontExtension {
    /// `txt.fnt`
    Text,
    /// `xml.fnt`
    Xml,
    /// `bin.fnt`
    Binary,
}

pub open spec fn fnt() -> Seq<char> {
    seq!['f', 'n', 't']
}

impl BmFontExtension {
    /// The two parts of the extension.
    pub open spec fn spec_tuple(self) -> (Seq<char>, Seq<char>) {
        match self {
            BmFontExtension::Text => (seq!['t', 'x', 't'], fnt()),
            BmFontExtension::Xml => (seq!['x', 'm', 'l'], fnt()),
            BmFontExtension::Binary => (seq!['b', 'i', 'n'], fnt()),
        }
    }

    /// The format whose extension is `(first, second)`.
    pub open spec fn spec_from_tuple(first: Seq<char>, second: Seq<char>) -> Option<Self> {
        if (first, second) == BmFontExtension::Text.spec_tuple() {
            Some(BmFontExtension::Text)
        } else if (first, second) == BmFontExtension::Xml.spec_tuple() {
            Some(BmFontExtension::Xml)
        } else if (first, second) == BmFontExtension::Binary.spec_tuple() {
            Some(BmFontExtension::Binary)
        } else {
            None
        }
    }

    /// The two parts of the extension, as in `("txt", "fnt")`.
    pub fn as_tuple(&self) -> (r: (&'static str, &'static str))
        ensures
            r.0@ == self.spec_tuple().0,
            r.1@ == self.spec_tuple().1,
    {
        proof {
            reveal_strlit("txt");
            reveal_strlit("xml");
            reveal_strlit("bin");
            reveal_strlit("fnt");
        }
        match self {
            BmFontExtension::Text => ("txt", "fnt"),
            BmFontExtension::Xml => ("xml", "fnt"),
            BmFontExtension::Binary => ("bin", "fnt"),
        }
    }

    /// The format with the extension `extension`, if any.
    pub fn from_tuple(extension: (&str, &str)) -> (r: Option<Self>)
        ensures
            r == Self::spec_from_tuple(extension.0@, extension.1@),
    {
        let all = [BmFontExtension::Text, BmFontExtension::Xml, BmFontExtension::Binary];
        let mut i: usize = 0;
        while i < 3
            invariant
                i <= 3,
                all@ == seq![BmFontExtension::Text, BmFontExtension::Xml, BmFontExtension::Binary],
                forall|j: int|
                    0 <= j < i ==> (extension.0@, extension.1@) != (#[trigger] all@[j]).spec_tuple(),
            decreases 3 - i,
        {
            let (first, second) = all[i].as_tuple();
            if str_eq(extension.0, first) && str_eq(extension.1, second) {
                return Some(all[i]);
            }
            i += 1;
        }
        None
    }

    /// The format of the file at `path`, by the last two extensions of its
    /// name.
    pub open spec fn spec_from_path(path: Seq<char>) -> Option<Self> {
        match file_name_of(path) {
            Some(name) => match spec_extension_tuple(name) {
                Some(t) => Self::spec_from_tuple(t.0, t.1),
                None => None,
            },
            None => None,
        }
    }

    /// The format of the file at `path`, by the last two extensions of its
    /// name.
    pub fn from_path(path: &str) -> (r: Option<Self>)
        ensures
            r == Self::spec_from_path(path@),
    {
        let file_name = path_file_name(path)?;
        let (first, second) = file_name_to_extension_tuple(file_name.as_str())?;
        Self::from_tuple((first.as_str(), second.as_str()))
    }
}

/// `a` and `b` hold the same characters.
fn str_eq(a: &str, b: &str) -> (r: bool)
    ensures
        r == (a@ == b@),
{
    let x = chars_of(a);
    let y = chars_of(b);
    if x.len() != y.len() {
        return false;
    }
    let mut i: usize = 0;
    while i < x.len()
        invariant
            x@ == a@,
            y@ == b@,
            x@.len() == y@.len(),
            i <= x@.len(),
            forall|j: int| 0 <= j < i ==> x@[j] == y@[j],
        decreases x@.len() - i,
    {
        if x[i] != y[i] {
            return false;
        }
        i += 1;
    }
    proof {
        assert(x@ =~= y@);
    }
    true
}

/// The final component of a path, as `camino` reads it.
pub uninterp spec fn file_name_of(path: Seq<char>) -> Option<Seq<char>>;

/// Relies on `camino::Utf8Path::file_name`: the final component of the path,
/// `None` where the path ends in `..` or has no component.
#[verifier::external_body]
fn path_file_name(path: &str) -> (r: Option<String>)
    ensures
        match r {
            Some(name) => file_name_of(path@) == Some(name@),
            None => file_name_of(path@) is None,
        },
{
    camino::Utf8Path::new(path).file_name().map(String::from)
}

/// Index of the last `'.'` of `s`, or -1.
pub open spec fn last_dot(s: Seq<char>) -> int
    decreases s.len(),
{
    if s.len() == 0 {
        -1
    } else if s.last() == '.' {
        s.len() - 1
    } else {
        last_dot(s.drop_last())
    }
}

/// The last two dot-separated extensions of a file name.
pub open spec fn spec_extension_tuple(name: Seq<char>) -> Option<(Seq<char>, Seq<char>)> {
    let k = last_dot(name);
    if k < 0 {
        None
    } else {
        let base = name.take(k);
        let k2 = last_dot(base);
        if k2 < 0 {
            None
        } else {
            Some((base.skip(k2 + 1), name.skip(k + 1)))
        }
    }
}

proof fn lemma_last_dot_bounds(s: Seq<char>)
    ensures
        -1 <= last_dot(s) < s.len(),
        last_dot(s) >= 0 ==> s[last_dot(s)] == '.',
    decreases s.len(),
{
    if s.len() > 0 && s.last() != '.' {
        lemma_last_dot_bounds(s.drop_last());
    }
}

fn find_last_dot(s: &Vec<char>, end: usize) -> (r: Option<usize>)
    requires
        end <= s@.len(),
    ensures
        match r {
            Some(k) => k == last_dot(s@.take(end as int)),
            None => last_dot(s@.take(end as int)) == -1,
        },
{
    let mut i: usize = end;
    while i > 0
        invariant
            i <= end <= s@.len(),
            last_dot(s@.take(end as int)) == last_dot(s@.take(i as int)),
        decreases i,
    {
        proof {
            assert(s@.take(i as int).drop_last() == s@.take(i - 1));
        }
        if s[i - 1] == '.' {
            return Some(i - 1);
        }
        i -= 1;
    }
    None
}

fn copy_range(s: &Vec<char>, from: usize, to: usize) -> (r: String)
    requires
        from <= to <= s@.len(),
    ensures
        r@ == s@.subrange(from as int, to as int),
{
    let mut v: Vec<char> = Vec::new();
    let mut i: usize = from;
    while i < to
        invariant
            from <= i <= to <= s@.len(),
            v@ == s@.subrange(from as int, i as int),
        decreases to - i,
    {
        v.push(s[i]);
        proof {
            assert(s@.subrange(from as int, i + 1) == s@.subrange(from as int, i as int).push(
                s@[i as int],
            ));
        }
        i += 1;
    }
    string_of(&v)
}

/// The last two extensions of a file name, as in `("txt", "fnt")` for
/// `"font.txt.fnt"`.
pub fn file_name_to_extension_tuple(file_name: &str) -> (r: Option<(String, String)>)
    ensures
        match r {
            Some(t) => spec_extension_tuple(file_name@) == Some((t.0@, t.1@)),
            None => spec_extension_tuple(file_name@) is None,
        },
{
    let s = chars_of(file_name);
    proof {
        assert(s@.take(s@.len() as int) == s@);
        lemma_last_dot_bounds(s@);
    }
    let k = find_last_dot(&s, s.len())?;
    proof {
        lemma_last_dot_bounds(s@.take(k as int));
        assert(s@.take(k as int).take(k as int) == s@.take(k as int));
    }
    let k2 = find_last_dot(&s, k)?;
    let first = copy_range(&s, k2 + 1, k);
    let second = copy_range(&s, k + 1, s.len());
    proof {
        assert(s@.take(k as int).skip(k2 + 1) == s@.subrange(k2 + 1, k as int));
        assert(s@.skip(k + 1) == s@.subrange(k + 1, s@.len() as int));
    }
    Some((first, second))
}

/// Loader of fonts in the BMFont formats.
#[derive(Debug, Default)]
pub struct BmFontLoader;

impl BmFontLoader {
    /// The file extensions of the three formats.
    pub fn extensions(&self) -> (r: Vec<&'static str>)
        ensures
            r@.len() == 3,
            r@[0]@ == BmFontExtension::Text.spec_tuple().0 + seq!['.'] + fnt(),
            r@[1]@ == BmFontExtension::Xml.spec_tuple().0 + seq!['.'] + fnt(),
            r@[2]@ == BmFontExtension::Binary.spec_tuple().0 + seq!['.'] + fnt(),
    {
        proof {
            reveal_strlit("txt.fnt");
            reveal_strlit("xml.fnt");
            reveal_strlit("bin.fnt");
        }
        let r = vec!["txt.fnt", "xml.fnt", "bin.fnt"];
        proof {
            assert(r@[0]@ =~= BmFontExtension::Text.spec_tuple().0 + seq!['.'] + fnt());
            assert(r@[1]@ =~= BmFontExtension::Xml.spec_tuple().0 + seq!['.'] + fnt());
            assert(r@[2]@ =~= BmFontExtension::Binary.spec_tuple().0 + seq!['.'] + fnt());
        }
        r
    }

    /// Parses and checks a font read from `path`, in the format that the
    /// path's extensions name; a path with none of them is refused.
    pub fn parse(&self, path: &str, data: &[u8]) -> (r: Result<BmFontData, BmFontLoadError>)
        ensures
            match r {
                Ok(font) => bm_font_valid(&font),
                Err(BmFontLoadError::ImageFontLoadError(ImageFontLoadError::InvalidPath(p))) => p@
                    == path@,
                Err(_) => true,
            },
            BmFontExtension::spec_from_path(path@) is None ==> r matches Err(
                BmFontLoadError::ImageFontLoadError(ImageFontLoadError::InvalidPath(_)),
            ),
    {
        match BmFontExtension::from_path(path) {
            Some(extension) => parse_bm_font(extension, data),
            None => Err(
                BmFontLoadError::ImageFontLoadError(
                    ImageFontLoadError::InvalidPath(crate::text::string_of(&chars_of(path))),
                ),
            ),
        }
    }
}

/// Parses `data` in the format of `extension` and checks the font.
pub fn parse_bm_font(extension: BmFontExtension, data: &[u8]) -> (r: Result<
    BmFontData,
    BmFontLoadError,
>)
    ensures
        match r {
            Ok(font) => bm_font_valid(&font),
            Err(e) => e matches BmFontLoadError::BmFontError(_) || e matches BmFontLoadError::CharsetUnsupported
                || e matches BmFontLoadError::PackedUnsupported || e matches BmFontLoadError::InvalidCharPage { .. },
        },
{
    let parsed = match extension {
        BmFontExtension::Text => parse_text_format(data),
        BmFontExtension::Xml => parse_xml_format(data),
        BmFontExtension::Binary => parse_binary_format(data),
    };
    let font = match parsed {
        Ok(f) => font_data(&f),
        Err(e) => {
            return Err(BmFontLoadError::BmFontError(e));
        },
    };
    match validate_bm_font(&font) {
        Ok(()) => Ok(font),
        Err(e) => Err(e),
    }
}

/// The characters of the font that have a valid code point, each with the
/// index of its last definition and that definition's region.
pub open spec fn spec_bm_characters(chars: Seq<BmChar>, map: Map<char, (usize, Rect)>) -> bool {
    &&& forall|c: char|
        #[trigger] map.contains_key(c) ==> {
            let i = map[c].0 as int;
            &&& 0 <= i < chars.len()
            &&& chars[i].id == c as u32
            &&& map[c].1 == bm_rect(chars[i])
            &&& forall|j: int| i < j < chars.len() ==> chars[j].id != c as u32
        }
    &&& forall|i: int|
        0 <= i < chars.len() && is_scalar(#[trigger] chars[i].id) ==> exists|c: char|
            c as u32 == chars[i].id && map.contains_key(c)
}

/// Maps each character with a valid code point to its region; a later
/// definition of a character replaces an earlier one, and invalid code
/// points are skipped.
pub fn process_bmf_characters(chars: &Vec<BmChar>) -> (r: CharMap<(usize, Rect)>)
    ensures
        r.wf(),
        spec_bm_characters(chars@, r@),
        forall|c: char| #[trigger] r@.contains_key(c) ==> r@[c].1.wf(),
{
    let mut map: CharMap<(usize, Rect)> = CharMap::new();
    let mut i: usize = 0;
    while i < chars.len()
        invariant
            i <= chars@.len(),
            map.wf(),
            spec_bm_characters(chars@.take(i as int), map@),
            forall|c: char| #[trigger] map@.contains_key(c) ==> map@[c].1.wf(),
        decreases chars@.len() - i,
    {
        let ch = chars[i];
        let rect = Rect {
            min_x: ch.x as u32,
            min_y: ch.y as u32,
            max_x: ch.x as u32 + ch.width as u32,
            max_y: ch.y as u32 + ch.height as u32,
        };
        let ghost before = map@;
        let ghost pre = chars@.take(i as int);
        let ghost post = chars@.take(i + 1);
        proof {
            assert(post == pre.push(ch));
        }
        match char_from_u32(ch.id) {
            Some(character) => {
                map.insert(character, (i, rect));
                proof {
                    assert forall|c: char| #[trigger] map@.contains_key(c) implies {
                        let k = map@[c].0 as int;
                        &&& 0 <= k < post.len()
                        &&& post[k].id == c as u32
                        &&& map@[c].1 == bm_rect(post[k])
                        &&& forall|j: int| k < j < post.len() ==> post[j].id != c as u32
                    } by {
                        if c != character {
                            assert(before.contains_key(c));
                            vstd::utf8::char_u32_cast(c, c as u32);
                            vstd::utf8::char_u32_cast(character, character as u32);
                            assert(post[i as int].id != c as u32);
                        }
                    }
                    assert forall|k: int|
                        0 <= k < post.len() && is_scalar(#[trigger] post[k].id) implies exists|c: char|
                        c as u32 == post[k].id && map@.contains_key(c) by {
                        if k < i {
                            assert(pre[k] == post[k]);
                            let c = choose|c: char| c as u32 == pre[k].id && before.contains_key(c);
                            assert(map@.contains_key(c));
                        } else {
                            assert(map@.contains_key(character));
                        }
                    }
                }
            },
            None => {
                proof {
                    assert forall|c: char| #[trigger] map@.contains_key(c) implies {
                        let k = map@[c].0 as int;
                        &&& 0 <= k < post.len()
                        &&& post[k].id == c as u32
                        &&& map@[c].1 == bm_rect(post[k])
                        &&& forall|j: int| k < j < post.len() ==> post[j].id != c as u32
                    } by {
                        vstd::utf8::char_is_scalar(c);
                        assert(post[i as int].id != c as u32);
                    }
                    assert forall|k: int|
                        0 <= k < post.len() && is_scalar(#[trigger] post[k].id) implies exists|c: char|
                        c as u32 == post[k].id && map@.contains_key(c) by {
                        assert(pre[k] == post[k]);
                    }
                }
            },
        }
        i += 1;
    }
    proof {
        assert(chars@.take(chars@.len() as int) == chars@);
    }
    map
}

/// The image font of a checked BMFont font whose pages are `page_sizes`
/// large. Each page gets the regions of its characters, in the order of
/// `process_bmf_characters`; each character keeps its offset (with the
/// vertical one pointing up) and its advance.
pub fn construct_image_font(data: &BmFontData, page_sizes: &Vec<(u32, u32)>) -> (r: ImageFont)
    requires
        pages_valid(data),
        page_sizes@.len() == data.pages@.len(),
    ensures
        r.wf(),
        r.atlas_layouts@.len() == page_sizes@.len(),
        forall|p: int|
            0 <= p < page_sizes@.len() ==> r.atlas_layouts@[p].size_x == page_sizes@[p].0
                && r.atlas_layouts@[p].size_y == page_sizes@[p].1,
        exists|m: Map<char, (usize, Rect)>|
            spec_bm_characters(data.chars@, m) && r.chars().dom() == m.dom() && forall|c: char|
                #[trigger] m.contains_key(c) ==> {
                    let b = data.chars@[m[c].0 as int];
                    &&& r.chars()[c].page_index == b.page
                    &&& r.spec_rect(c) == m[c].1
                    &&& r.chars()[c].offset_x == b.xoffset
                    &&& r.chars()[c].offset_y == -b.yoffset
                    &&& r.chars()[c].x_advance == Some(b.xadvance as i32)
                },
{
    let processed = process_bmf_characters(&data.chars);
    let n = processed.len();
    let ghost es = processed.entries_view();
    proof {
        processed.lemma_entries();
        assert forall|e: int| 0 <= e < n implies (#[trigger] es[e]).1.1.wf() && es[e].1.0
            < data.chars@.len() by {
            assert(processed@.contains_key(es[e].0));
        }
    }
    let mut indices: Vec<usize> = Vec::new();
    let mut k: usize = 0;
    while k < n
        invariant
            k <= n,
            indices@.len() == k,
        decreases n - k,
    {
        indices.push(0);
        k += 1;
    }
    let mut layouts: Vec<AtlasLayout> = Vec::new();
    let mut page_no: usize = 0;
    while page_no < page_sizes.len()
        invariant
            pages_valid(data),
            page_sizes@.len() == data.pages@.len(),
            processed.wf(),
            es == processed.entries_view(),
            n == es.len(),
            indices@.len() == n,
            page_no <= page_sizes@.len(),
            layouts@.len() == page_no,
            layouts_wf(layouts@),
            forall|e: int| 0 <= e < n ==> (#[trigger] es[e]).1.1.wf() && es[e].1.0 < data.chars@.len(),
            forall|p: int|
                0 <= p < page_no ==> layouts@[p].size_x == page_sizes@[p].0 && layouts@[p].size_y
                    == page_sizes@[p].1,
            forall|e: int|
                0 <= e < n && data.chars@[(#[trigger] es[e]).1.0 as int].page < page_no ==> indices@[e]
                    < layouts@[data.chars@[es[e].1.0 as int].page as int].textures@.len()
                    && layouts@[data.chars@[es[e].1.0 as int].page as int].textures@[indices@[e] as int]
                    == es[e].1.1,
        decreases page_sizes@.len() - page_no,
    {
        let (size_x, size_y) = page_sizes[page_no];
        let mut layout = AtlasLayout::new_empty(size_x, size_y);
        let mut e: usize = 0;
        while e < n
            invariant
                pages_valid(data),
                processed.wf(),
                es == processed.entries_view(),
                n == es.len(),
                indices@.len() == n,
                page_no < page_sizes@.len(),
                layouts@.len() == page_no,
                layout.size_x == size_x,
                layout.size_y == size_y,
                layout.wf(),
                e <= n,
                forall|x: int| 0 <= x < n ==> (#[trigger] es[x]).1.1.wf() && es[x].1.0 < data.chars@.len(),
                forall|x: int|
                    0 <= x < n && data.chars@[(#[trigger] es[x]).1.0 as int].page < page_no ==> indices@[x]
                        < layouts@[data.chars@[es[x].1.0 as int].page as int].textures@.len()
                        && layouts@[data.chars@[es[x].1.0 as int].page as int].textures@[indices@[x] as int]
                        == es[x].1.1,
                forall|x: int|
                    0 <= x < e && data.chars@[(#[trigger] es[x]).1.0 as int].page == page_no ==> indices@[x]
                        < layout.textures@.len() && layout.textures@[indices@[x] as int] == es[x].1.1,
            decreases n - e,
        {
            let (ci, rect) = processed.value_at(e);
            if data.chars[ci].page as usize == page_no {
                let index = layout.add_texture(rect);
                indices.set(e, index);
            }
            e += 1;
        }
        layouts.push(layout);
        proof {
            assert(layouts_wf(layouts@));
        }
        page_no += 1;
    }
    let mut map: CharMap<ImageFontCharacter> = CharMap::new();
    let mut e: usize = 0;
    while e < n
        invariant
            pages_valid(data),
            processed.wf(),
            es == processed.entries_view(),
            keys_unique(es),
            n == es.len(),
            indices@.len() == n,
            e <= n,
            map.wf(),
            forall|x: int| 0 <= x < n ==> (#[trigger] es[x]).1.1.wf() && es[x].1.0 < data.chars@.len(),
            forall|x: int|
                0 <= x < n ==> indices@[x] < layouts@[data.chars@[(#[trigger] es[x]).1.0 as int].page as int].textures@.len()
                    && layouts@[data.chars@[es[x].1.0 as int].page as int].textures@[indices@[x] as int]
                    == es[x].1.1,
            forall|c: char|
                #[trigger] map@.contains_key(c) <==> exists|x: int| 0 <= x < e && es[x].0 == c,
            forall|x: int|
                0 <= x < e ==> #[trigger] map@.contains_key(es[x].0) && map@[es[x].0] == (ImageFontCharacter {
                    character_index: indices@[x],
                    page_index: data.chars@[es[x].1.0 as int].page as usize,
                    offset_x: data.chars@[es[x].1.0 as int].xoffset as i32,
                    offset_y: -data.chars@[es[x].1.0 as int].yoffset as i32,
                    x_advance: Some(data.chars@[es[x].1.0 as int].xadvance as i32),
                }),
        decreases n - e,
    {
        let c = processed.key_at(e);
        let (ci, _) = processed.value_at(e);
        let b = data.chars[ci];
        proof {
            assert(es[e as int].1.0 < data.chars@.len());
        }
        map.insert(
            c,
            ImageFontCharacter {
                character_index: indices[e],
                page_index: b.page as usize,
                offset_x: b.xoffset as i32,
                offset_y: -(b.yoffset as i32),
                x_advance: Some(b.xadvance as i32),
            },
        );
        proof {
            assert forall|d: char| #[trigger] map@.contains_key(d) <==> exists|x: int|
                0 <= x < e + 1 && es[x].0 == d by {
                if d == c {
                    assert(es[e as int].0 == d);
                } else if map@.contains_key(d) {
                    let x = choose|x: int| 0 <= x < e && es[x].0 == d;
                    assert(0 <= x < e + 1 && es[x].0 == d);
                }
            }
        }
        e += 1;
    }
    proof {
        assert(layouts@.len() == data.pages@.len());
        assert forall|c: char| #[trigger] map@.contains_key(c) implies map@[c].page_index
            < layouts@.len() && map@[c].character_index < layouts@[map@[c].page_index as int].textures@.len() by {
            let x = choose|x: int| 0 <= x < n && es[x].0 == c;
            assert(map@.contains_key(es[x].0));
            assert(data.chars@[es[x].1.0 as int].page < data.pages@.len());
        }
        assert forall|c: char| #[trigger] processed@.contains_key(c) implies {
            let b = data.chars@[processed@[c].0 as int];
            &&& map@[c].page_index == b.page
            &&& layouts@[map@[c].page_index as int].textures@[map@[c].character_index as int] == processed@[c].1
            &&& map@[c].offset_x == b.xoffset
            &&& map@[c].offset_y == -b.yoffset
            &&& map@[c].x_advance == Some(b.xadvance as i32)
        } by {
            let x = choose|x: int| 0 <= x < n && es[x].0 == c;
            assert(map@.contains_key(es[x].0));
        }
        assert(map@.dom() =~= processed@.dom());
    }
    ImageFont::new(layouts, map)
}

} // verus!
