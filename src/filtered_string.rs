//! The characters of a text that a font can draw.

use vstd::prelude::*;

use crate::char_map::CharMap;
use crate::font::{ImageFont, ImageFontCharacter};
use crate::text::{chars_of, string_of};

verus! {

/// The characters of `s` that `map` has, in their order in `s`.
pub open spec fn filter_supported(s: Seq<char>, map: Map<char, ImageFontCharacter>) -> Seq<char>
    decreases s.len(),
{
    if s.len() == 0 {
        Seq::empty()
    } else {
        let rest = filter_supported(s.drop_last(), map);
        if map.contains_key(s.last()) {
            rest.push(s.last())
        } else {
            rest
        }
    }
}

/// Every character that filtering keeps is in the map.
pub proof fn lemma_filter_supported_in_map(s: Seq<char>, map: Map<char, ImageFontCharacter>)
    ensures
        forall|i: int|
            0 <= i < filter_supported(s, map).len() ==> map.contains_key(
                #[trigger] filter_supported(s, map)[i],
            ),
        filter_supported(s, map).len() <= s.len(),
    decreases s.len(),
{
    if s.len() > 0 {
        lemma_filter_supported_in_map(s.drop_last(), map);
    }
}

/// Filtering an already filtered text changes nothing.
pub proof fn lemma_filter_idempotent(s: Seq<char>, map: Map<char, ImageFontCharacter>)
    ensures
        filter_supported(filter_supported(s, map), map) == filter_supported(s, map),
    decreases s.len(),
{
    if s.len() > 0 {
        let rest = filter_supported(s.drop_last(), map);
        lemma_filter_idempotent(s.drop_last(), map);
        if map.contains_key(s.last()) {
            let f = rest.push(s.last());
            assert(f.drop_last() == rest);
        }
    }
}

/// A text seen through a font's character map: only the characters that the
/// map has.
pub struct FilteredString<'map> {
    string: Vec<char>,
    atlas_character_map: &'map CharMap<ImageFontCharacter>,
}

impl<'map> FilteredString<'map> {
    /// The unfiltered text.
    pub closed spec fn source(&self) -> Seq<char> {
        self.string@
    }

    /// The map that decides which characters stay.
    pub closed spec fn map(&self) -> Map<char, ImageFontCharacter> {
        self.atlas_character_map@
    }

    /// The characters that stay, in order.
    pub open spec fn spec_filtered(&self) -> Seq<char> {
        filter_supported(self.source(), self.map())
    }

    pub fn new(string: &str, atlas_character_map: &'map CharMap<ImageFontCharacter>) -> (r: Self)
        ensures
            r.source() == string@,
            r.map() == atlas_character_map@,
    {
        FilteredString { string: chars_of(string), atlas_character_map }
    }

    /// The characters that the map has, in their order in the text.
    pub fn filtered_chars(&self) -> (r: Vec<char>)
        ensures
            r@ == self.spec_filtered(),
    {
        let mut out: Vec<char> = Vec::new();
        let mut i: usize = 0;
        while i < self.string.len()
            invariant
                i <= self.string@.len(),
                out@ == filter_supported(self.string@.take(i as int), self.atlas_character_map@),
            decreases self.string@.len() - i,
        {
            let c = self.string[i];
            proof {
                assert(self.string@.take(i + 1).drop_last() == self.string@.take(i as int));
            }
            if self.atlas_character_map.contains_key(c) {
                out.push(c);
            }
            i += 1;
        }
        proof {
            assert(self.string@.take(self.string@.len() as int) == self.string@);
        }
        out
    }

    /// No character stays; stops at the first one that does.
    pub fn is_empty(&self) -> (r: bool)
        ensures
            r == (self.spec_filtered().len() == 0),
    {
        let mut i: usize = 0;
        while i < self.string.len()
            invariant
                i <= self.string@.len(),
                filter_supported(self.string@.take(i as int), self.atlas_character_map@).len()
                    == 0,
            decreases self.string@.len() - i,
        {
            proof {
                assert(self.string@.take(i + 1).drop_last() == self.string@.take(i as int));
            }
            if self.atlas_character_map.contains_key(self.string[i]) {
                proof {
                    lemma_filter_prefix_nonempty(self.string@, self.atlas_character_map@, i + 1);
                }
                return false;
            }
            i += 1;
        }
        proof {
            assert(self.string@.take(self.string@.len() as int) == self.string@);
        }
        true
    }

    /// The characters that stay, as a string.
    pub fn to_string(&self) -> (r: String)
        ensures
            r@ == self.spec_filtered(),
    {
        string_of(&self.filtered_chars())
    }
}

/// Once a prefix keeps a character, the whole text does.
proof fn lemma_filter_prefix_nonempty(s: Seq<char>, map: Map<char, ImageFontCharacter>, k: int)
    requires
        0 <= k <= s.len(),
        filter_supported(s.take(k), map).len() > 0,
    ensures
        filter_supported(s, map).len() > 0,
    decreases s.len() - k,
{
    if k < s.len() {
        assert(s.take(k + 1).drop_last() == s.take(k));
        lemma_filter_prefix_nonempty(s, map, k + 1);
    } else {
        assert(s.take(k) == s);
    }
}

impl ImageFont {
    /// `string` seen through this font's character map.
    pub fn filter_string<'a>(&'a self, string: &str) -> (r: FilteredString<'a>)
        ensures
            r.source() == string@,
            r.map() == self.chars(),
    {
        FilteredString::new(string, &self.atlas_character_map)
    }
}

} // verus!
