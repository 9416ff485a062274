//! Text layout for bitmap fonts: a font maps characters to rectangular
//! regions of one or more atlas pages, and a text is laid out glyph by glyph
//! at the font's native pixel size.

use vstd::prelude::*;

pub mod anchors;
pub mod atlas_sprites;
pub mod bmf;
pub mod char_map;
pub mod filtered_string;
pub mod font;
pub mod layout;
pub mod loader;
pub mod loader_fnt;
pub mod render_context;
pub mod rendered;
pub mod text;

verus! {

/// A change to a font asset, naming the font by its id.
#[derive(Clone, Copy, Debug, PartialEq, Eq, Structural)]
pub enum AssetEvent {
    Added { id: u64 },
    Modified { id: u64 },
    Removed { id: u64 },
    Unused { id: u64 },
    LoadedWithDependencies { id: u64 },
}

/// The font that an event asks to redraw: one that was modified or has
/// finished loading.
pub open spec fn spec_changed_font(event: AssetEvent) -> Option<u64> {
    match event {
        AssetEvent::Modified { id } => Some(id),
        AssetEvent::LoadedWithDependencies { id } => Some(id),
        _ => None,
    }
}

/// The font that `event` asks to redraw, if any.
pub fn extract_asset_id(event: &AssetEvent) -> (r: Option<u64>)
    ensures
        r == spec_changed_font(*event),
{
    match *event {
        AssetEvent::Modified { id } | AssetEvent::LoadedWithDependencies { id } => Some(id),
        AssetEvent::Added { .. } | AssetEvent::Removed { .. } | AssetEvent::Unused { .. } => None,
    }
}

/// Some event of `events` asks to redraw `font`.
pub open spec fn font_changed(events: Seq<AssetEvent>, font: u64) -> bool {
    exists|i: int| 0 <= i < events.len() && spec_changed_font(#[trigger] events[i]) == Some(font)
}

/// For each text, given by the id of its font, whether the events ask to
/// redraw it.
pub fn sync_texts_with_font_changes(events: &Vec<AssetEvent>, text_fonts: &Vec<u64>) -> (r: Vec<
    bool,
>)
    ensures
        r@.len() == text_fonts@.len(),
        forall|i: int| 0 <= i < r@.len() ==> r@[i] == font_changed(events@, #[trigger] text_fonts@[i]),
{
    let mut r: Vec<bool> = Vec::new();
    let mut t: usize = 0;
    while t < text_fonts.len()
        invariant
            t <= text_fonts@.len(),
            r@.len() == t,
            forall|i: int| 0 <= i < t ==> r@[i] == font_changed(events@, #[trigger] text_fonts@[i]),
        decreases text_fonts@.len() - t,
    {
        let font = text_fonts[t];
        let mut found = false;
        let mut e: usize = 0;
        while e < events.len()
            invariant
                e <= events@.len(),
                found == exists|i: int|
                    0 <= i < e && spec_changed_font(#[trigger] events@[i]) == Some(font),
            decreases events@.len() - e,
        {
            if extract_asset_id(&events[e]) == Some(font) {
                found = true;
            }
            e += 1;
        }
        r.push(found);
        t += 1;
    }
    r
}

} // verus!
