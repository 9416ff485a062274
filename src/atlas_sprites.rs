//! The record that ties a text to its glyph sprites, and how a layout pass
//! brings the number of sprites in line with the number of glyphs.

use vstd::prelude::*;

verus! {

/// The glyph sprites of one text, in text order, by handle.
#[derive(Debug)]
pub struct ImageFontTextData {
    /// Handle of the sprite of each glyph.
    pub sprites: Vec<u64>,
    /// A missing font has already been reported for this text.
    pub has_reported_missing_font: bool,
}

/// The sprites a pass keeps after matching `sprite_count` sprites with
/// `char_count` glyphs.
pub open spec fn kept_count(sprite_count: int, char_count: int) -> int {
    if sprite_count < char_count {
        sprite_count
    } else {
        char_count
    }
}

/// The sprites a pass must create.
pub open spec fn missing_count(sprite_count: int, char_count: int) -> int {
    if sprite_count < char_count {
        char_count - sprite_count
    } else {
        0
    }
}

impl ImageFontTextData {
    /// A record with no sprites that has reported nothing.
    pub fn new() -> (r: Self)
        ensures
            r.sprites@.len() == 0,
            !r.has_reported_missing_font,
    {
        ImageFontTextData { sprites: Vec::new(), has_reported_missing_font: false }
    }

    /// Called when the font is not loaded: says whether to report it now,
    /// which is only the first time. The sprites stay as they are.
    pub fn note_missing_font(&mut self) -> (report: bool)
        ensures
            report == !old(self).has_reported_missing_font,
            final(self).has_reported_missing_font,
            final(self).sprites@ == old(self).sprites@,
    {
        let report = !self.has_reported_missing_font;
        self.has_reported_missing_font = true;
        report
    }

    /// How many existing sprites show a glyph of a text with `char_count`
    /// glyphs: the first of them, in order.
    pub fn sprites_to_update(&self, char_count: usize) -> (r: usize)
        ensures
            r == kept_count(self.sprites@.len() as int, char_count as int),
    {
        if self.sprites.len() < char_count {
            self.sprites.len()
        } else {
            char_count
        }
    }

    /// How many sprites must be created for a text with `char_count` glyphs.
    pub fn missing_sprites(&self, char_count: usize) -> (r: usize)
        ensures
            r == missing_count(self.sprites@.len() as int, char_count as int),
    {
        if self.sprites.len() < char_count {
            char_count - self.sprites.len()
        } else {
            0
        }
    }

    /// Drops the sprites past the first `char_count`, and returns them so that
    /// they can be despawned.
    pub fn remove_excess_sprites(&mut self, char_count: usize) -> (removed: Vec<u64>)
        requires
            char_count <= old(self).sprites@.len(),
        ensures
            final(self).sprites@ == old(self).sprites@.take(char_count as int),
            removed@ == old(self).sprites@.skip(char_count as int),
            final(self).has_reported_missing_font == old(self).has_reported_missing_font,
    {
        let mut removed: Vec<u64> = Vec::new();
        let n = self.sprites.len();
        let mut i: usize = char_count;
        while i < n
            invariant
                char_count <= i <= n,
                n == old(self).sprites@.len(),
                self.sprites@ == old(self).sprites@,
                self.has_reported_missing_font == old(self).has_reported_missing_font,
                removed@ == old(self).sprites@.subrange(char_count as int, i as int),
            decreases n - i,
        {
            removed.push(self.sprites[i]);
            proof {
                assert(old(self).sprites@.subrange(char_count as int, i + 1) == old(
                    self,
                ).sprites@.subrange(char_count as int, i as int).push(old(self).sprites@[i as int]));
            }
            i += 1;
        }
        self.sprites.truncate(char_count);
        removed
    }

    /// Appends the sprites of the glyphs that had none.
    pub fn add_missing_sprites(&mut self, spawned: Vec<u64>)
        ensures
            final(self).sprites@ == old(self).sprites@ + spawned@,
            final(self).has_reported_missing_font == old(self).has_reported_missing_font,
    {
        let mut i: usize = 0;
        while i < spawned.len()
            invariant
                i <= spawned@.len(),
                self.sprites@ == old(self).sprites@ + spawned@.take(i as int),
                self.has_reported_missing_font == old(self).has_reported_missing_font,
            decreases spawned@.len() - i,
        {
            self.sprites.push(spawned[i]);
            proof {
                assert(spawned@.take(i + 1) == spawned@.take(i as int).push(spawned@[i as int]));
            }
            i += 1;
        }
        proof {
            assert(spawned@.take(spawned@.len() as int) == spawned@);
        }
    }

    /// Ends a layout pass over a text with `char_count` glyphs: surplus
    /// sprites are dropped and returned, and the sprites created for the
    /// glyphs that had none are appended. Afterwards there is exactly one
    /// sprite per glyph, whatever the count was before.
    pub fn adjust_sprite_count(&mut self, char_count: usize, spawned: Vec<u64>) -> (removed: Vec<
        u64,
    >)
        requires
            spawned@.len() == missing_count(old(self).sprites@.len() as int, char_count as int),
        ensures
            final(self).sprites@.len() == char_count,
            final(self).sprites@.take(
                kept_count(old(self).sprites@.len() as int, char_count as int),
            ) == old(self).sprites@.take(
                kept_count(old(self).sprites@.len() as int, char_count as int),
            ),
            final(self).sprites@ == if old(self).sprites@.len() < char_count {
                old(self).sprites@ + spawned@
            } else {
                old(self).sprites@.take(char_count as int)
            },
            removed@ == if old(self).sprites@.len() > char_count {
                old(self).sprites@.skip(char_count as int)
            } else {
                Seq::<u64>::empty()
            },
            final(self).has_reported_missing_font == old(self).has_reported_missing_font,
    {
        if self.sprites.len() > char_count {
            self.remove_excess_sprites(char_count)
        } else if self.sprites.len() < char_count {
            self.add_missing_sprites(spawned);
            proof {
                assert(self.sprites@.take(old(self).sprites@.len() as int) =~= old(self).sprites@);
                assert(old(self).sprites@.take(old(self).sprites@.len() as int) =~= old(self).sprites@);
            }
            Vec::new()
        } else {
            proof {
                assert(old(self).sprites@.take(char_count as int) =~= old(self).sprites@);
            }
            Vec::new()
        }
    }
}

} // verus!
