//! Bitmap fonts: a glyph atlas with per-codepoint metrics.

use vstd::prelude::*;
use crate::renderer::AtlasRef;

verus! {

/// Largest value any glyph metric may hold. Glyphs live on a bitmap
/// atlas, so every rectangle, bearing and advance fits in 16 bits; the
/// text layout engine's freedom from overflow rests on this bound.
pub const MAX_METRIC: u32 = 0xFFFF;

/// Metrics of one glyph: its atlas rectangle, `offset` the left-side
/// bearing, and `distance` the horizontal advance to the next origin.
#[derive(Clone, Copy, Debug, PartialEq, Eq, Structural)]
pub struct Character {
    pub x: u32,
    pub y: u32,
    pub width: u32,
    pub height: u32,
    pub offset: u32,
    pub distance: u32,
}

/// A glyph definition bound to its codepoint.
#[derive(Clone, Copy, Debug, PartialEq, Eq, Structural)]
pub struct FontEntry {
    pub codepoint: u32,
    pub def: Character,
}

/// All metrics of a glyph are within the atlas bound.
pub open spec fn metric_ok(c: Character) -> bool {
    &&& c.x <= MAX_METRIC
    &&& c.y <= MAX_METRIC
    &&& c.width <= MAX_METRIC
    &&& c.height <= MAX_METRIC
    &&& c.offset <= MAX_METRIC
    &&& c.distance <= MAX_METRIC
}

/// First glyph defined for `cp` among `entries`, if any.
pub open spec fn lookup_in(entries: Seq<FontEntry>, cp: u32) -> Option<Character>
    decreases entries.len(),
{
    if entries.len() == 0 {
        None
    } else if entries[0].codepoint == cp {
        Some(entries[0].def)
    } else {
        lookup_in(entries.drop_first(), cp)
    }
}

/// Any glyph found among entries with bounded metrics is itself
/// bounded.
pub proof fn lemma_lookup_metric(entries: Seq<FontEntry>, cp: u32)
    requires
        forall|i: int| 0 <= i < entries.len() ==> metric_ok(#[trigger] entries[i].def),
    ensures
        lookup_in(entries, cp) matches Some(c) ==> metric_ok(c),
    decreases entries.len(),
{
    if entries.len() > 0 && entries[0].codepoint != cp {
        assert(forall|i: int|
            0 <= i < entries.drop_first().len() ==> metric_ok(
                #[trigger] entries.drop_first()[i].def,
            ));
        lemma_lookup_metric(entries.drop_first(), cp);
    }
}

/// A glyph atlas with per-codepoint metrics.
#[derive(Debug)]
pub struct Font {
    atlas_ref: AtlasRef,
    entries: Vec<FontEntry>,
}

impl Font {
    /// Every glyph of a font keeps its metrics within the atlas bound.
    pub open spec fn wf(self) -> bool {
        forall|i: int| 0 <= i < self.glyphs().len() ==> metric_ok(#[trigger] self.glyphs()[i].def)
    }

    /// The glyph table, in definition order.
    pub closed spec fn glyphs(self) -> Seq<FontEntry> {
        self.entries@
    }

    /// The atlas the glyphs are drawn from.
    pub closed spec fn atlas(self) -> AtlasRef {
        self.atlas_ref
    }

    /// The glyph for a codepoint, if the font defines one.
    pub open spec fn spec_get_char(self, cp: u32) -> Option<Character> {
        lookup_in(self.glyphs(), cp)
    }

    /// A font over `atlas_ref` with no glyphs yet.
    pub fn new(atlas_ref: AtlasRef) -> (r: Font)
        ensures
            r.glyphs() == Seq::<FontEntry>::empty(),
            r.atlas() == atlas_ref,
            r.wf(),
    {
        Font { atlas_ref, entries: Vec::new() }
    }

    /// Defines a glyph; later definitions of the same codepoint are
    /// shadowed by earlier ones.
    pub fn add_char(&mut self, codepoint: u32, def: Character)
        requires
            old(self).wf(),
            metric_ok(def),
        ensures
            final(self).wf(),
            final(self).glyphs() == old(self).glyphs().push((FontEntry { codepoint, def })),
            final(self).atlas() == old(self).atlas(),
    {
        self.entries.push(FontEntry { codepoint, def });
        proof {
            assert forall|i: int| 0 <= i < self.glyphs().len() implies metric_ok(
                #[trigger] self.glyphs()[i].def,
            ) by {
                if i < old(self).glyphs().len() {
                    assert(self.glyphs()[i] == old(self).glyphs()[i]);
                }
            }
        }
    }

    /// The atlas handle.
    pub fn atlas_ref(&self) -> (r: AtlasRef)
        ensures
            r == self.atlas(),
    {
        self.atlas_ref
    }

    /// Looks a codepoint up; absent codepoints yield nothing.
    pub fn get_char(&self, cp: u32) -> (r: Option<Character>)
        requires
            self.wf(),
        ensures
            r == self.spec_get_char(cp),
            r matches Some(c) ==> metric_ok(c),
    {
        let n: usize = self.entries.len();
        let mut i: usize = 0;
        proof {
            assert(self.entries@.skip(0) =~= self.entries@);
        }
        while i < n
            invariant
                0 <= i <= n,
                n == self.entries@.len(),
                self.wf(),
                lookup_in(self.entries@, cp) == lookup_in(self.entries@.skip(i as int), cp),
                forall|k: int| 0 <= k < i ==> self.entries@[k].codepoint != cp,
            decreases n - i,
        {
            let e: FontEntry = self.entries[i];
            if e.codepoint == cp {
                proof {
                    assert(self.entries@.skip(i as int)[0] == e);
                }
                return Some(e.def);
            }
            proof {
                assert(self.entries@.skip(i as int).drop_first() =~= self.entries@.skip(
                    i as int + 1,
                ));
            }
            i = i + 1;
        }
        proof {
            assert(self.entries@.skip(n as int) =~= Seq::<FontEntry>::empty());
        }
        None
    }
}

} // verus!
