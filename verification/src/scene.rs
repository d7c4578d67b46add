//! Scene entities and the depth-ordered lists of them.
//!
//! Instances and tiles live in lists that publish, besides insertion
//! order, a cached draw-order permutation: the list's indices sorted by
//! descending depth, ties keeping insertion order. The sort is stated
//! as a recursive stable insertion, so the permutation a list publishes
//! is pinned exactly.

use vstd::prelude::*;
use crate::math::Real;
use crate::math::real_cmp;
use crate::renderer::AtlasRef;

verus! {

/// A scene entity drawn from a sprite, or by its scripted DRAW event.
#[derive(Clone, Copy, Debug)]
pub struct Instance {
    pub object_index: i32,
    pub sprite_index: i32,
    pub image_index: Real,
    pub image_xscale: Real,
    pub image_yscale: Real,
    pub image_angle: Real,
    pub image_blend: i32,
    pub image_alpha: Real,
    pub x: Real,
    pub y: Real,
    pub depth: Real,
}

/// A scene entity that renders a sub-rectangle of a background asset.
#[derive(Clone, Copy, Debug)]
pub struct Tile {
    pub background_index: i32,
    pub tile_x: u32,
    pub tile_y: u32,
    pub width: u32,
    pub height: u32,
    pub x: Real,
    pub y: Real,
    pub xscale: Real,
    pub yscale: Real,
    pub blend: i32,
    pub alpha: Real,
    pub depth: Real,
}

/// A viewport mapping a rectangle of world space to a rectangle of
/// window space, optionally rotated (degrees).
#[derive(Clone, Copy, Debug)]
pub struct Viewport {
    pub visible: bool,
    pub source_x: i32,
    pub source_y: i32,
    pub source_w: i32,
    pub source_h: i32,
    pub port_x: i32,
    pub port_y: i32,
    pub port_w: i32,
    pub port_h: i32,
    pub angle: Real,
}

/// A scene background or foreground layer (not a tile).
#[derive(Clone, Copy, Debug)]
pub struct BackgroundLayer {
    pub background_id: i32,
    pub x_offset: Real,
    pub y_offset: Real,
    pub xscale: Real,
    pub yscale: Real,
    pub blend: i32,
    pub alpha: Real,
    pub visible: bool,
    pub is_foreground: bool,
}

/// One frame of a sprite.
#[derive(Clone, Copy, Debug)]
pub struct Frame {
    pub atlas_ref: AtlasRef,
}

/// A sprite asset: an ordered sequence of frames. Zero frames is legal.
#[derive(Clone, Debug)]
pub struct Sprite {
    pub frames: Vec<Frame>,
}

/// A background asset; it may lack an atlas rectangle.
#[derive(Clone, Copy, Debug)]
pub struct Background {
    pub atlas_ref: Option<AtlasRef>,
}

/// The asset repository slice the draw pass reads: index-keyed sprites
/// and backgrounds, either of which may be absent.
#[derive(Clone, Debug)]
pub struct Assets {
    pub sprites: Vec<Option<Sprite>>,
    pub backgrounds: Vec<Option<Background>>,
}

/// Stable insertion of `x` into `s`, which is sorted by descending
/// `keys`: `x` moves left past strictly shallower elements only, so it
/// lands after everything at its own depth.
pub open spec fn insert_desc(s: Seq<usize>, x: usize, keys: Seq<int>) -> Seq<usize>
    decreases s.len(),
{
    if s.len() == 0 {
        seq![x]
    } else if real_cmp(keys[s.last() as int], keys[x as int]) == core::cmp::Ordering::Less {
        insert_desc(s.drop_last(), x, keys).push(s.last())
    } else {
        s.push(x)
    }
}

/// Stable insertion sort of `s` by descending `keys`.
pub open spec fn sort_desc(s: Seq<usize>, keys: Seq<int>) -> Seq<usize>
    decreases s.len(),
{
    if s.len() == 0 {
        Seq::<usize>::empty()
    } else {
        insert_desc(sort_desc(s.drop_last(), keys), s.last(), keys)
    }
}

/// The indices `0, 1, .., n-1` in order.
pub open spec fn identity_order(n: nat) -> Seq<usize> {
    Seq::new(n, |i: int| i as usize)
}

/// The draw-order permutation for the given depths: indices sorted by
/// descending depth, ties keeping index order.
pub open spec fn draw_order_spec(keys: Seq<int>) -> Seq<usize> {
    sort_desc(identity_order(keys.len()), keys)
}

/// Inserting into a sorted prefix at the scanned position `j` — the
/// leftmost slot whose left neighbour is not strictly shallower than
/// `x` — is what the recursive insertion computes.
proof fn lemma_insert_desc_at(s: Seq<usize>, x: usize, keys: Seq<int>, j: int)
    requires
        0 <= j <= s.len(),
        forall|k: int|
            j <= k < s.len() ==> real_cmp(keys[#[trigger] s[k] as int], keys[x as int])
                == core::cmp::Ordering::Less,
        j > 0 ==> real_cmp(keys[s[j - 1] as int], keys[x as int]) != core::cmp::Ordering::Less,
    ensures
        insert_desc(s, x, keys) =~= s.take(j).push(x) + s.skip(j),
    decreases s.len(),
{
    if j == s.len() {
        if s.len() == 0 {
            assert(insert_desc(s, x, keys) =~= s.take(j).push(x) + s.skip(j));
        } else {
            assert(real_cmp(keys[s[j - 1] as int], keys[x as int]) != core::cmp::Ordering::Less);
            assert(s.take(j) =~= s);
            assert(insert_desc(s, x, keys) =~= s.take(j).push(x) + s.skip(j));
        }
    } else {
        assert(real_cmp(keys[s[s.len() - 1] as int], keys[x as int]) == core::cmp::Ordering::Less);
        lemma_insert_desc_at(s.drop_last(), x, keys, j);
        assert(s.drop_last().take(j) =~= s.take(j));
        assert(insert_desc(s, x, keys) =~= s.take(j).push(x) + s.skip(j));
    }
}

/// `a` may stand directly before `b` in draw order: `a` is not
/// shallower, and on equal depth `a` was inserted first.
pub open spec fn pair_desc(a: usize, b: usize, keys: Seq<int>) -> bool {
    &&& real_cmp(keys[a as int], keys[b as int]) != core::cmp::Ordering::Less
    &&& (real_cmp(keys[a as int], keys[b as int]) == core::cmp::Ordering::Equal ==> a < b)
}

/// Adjacent entries of `p` never go from shallower to deeper, and
/// entries at equal depth keep their index order.
pub open spec fn adjacent_desc(p: Seq<usize>, keys: Seq<int>) -> bool {
    forall|i: int| 0 <= i < p.len() - 1 ==> pair_desc(#[trigger] p[i], p[i + 1], keys)
}

/// Inserting an index above all present ones keeps the order
/// descending and stable, keeps every entry at most `x`, and grows the
/// length by one.
#[verifier::rlimit(100)]
proof fn lemma_insert_desc_props(s: Seq<usize>, x: usize, keys: Seq<int>)
    requires
        adjacent_desc(s, keys),
        forall|k: int| 0 <= k < s.len() ==> #[trigger] s[k] < x,
    ensures
        adjacent_desc(insert_desc(s, x, keys), keys),
        insert_desc(s, x, keys).len() == s.len() + 1,
        forall|k: int|
            0 <= k < insert_desc(s, x, keys).len() ==> #[trigger] insert_desc(s, x, keys)[k] <= x,
        insert_desc(s, x, keys).last() == x || (s.len() > 0 && insert_desc(s, x, keys).last()
            == s.last()),
    decreases s.len(),
{
    if s.len() == 0 {
    } else if real_cmp(keys[s.last() as int], keys[x as int]) == core::cmp::Ordering::Less {
        assert(forall|k: int|
            0 <= k < s.drop_last().len() ==> #[trigger] s.drop_last()[k] < x);
        assert(adjacent_desc(s.drop_last(), keys)) by {
            assert(forall|i: int|
                0 <= i < s.drop_last().len() - 1 ==> #[trigger] s.drop_last()[i] == s[i]
                    && s.drop_last()[i + 1] == s[i + 1]);
        }
        lemma_insert_desc_props(s.drop_last(), x, keys);
        let t = insert_desc(s.drop_last(), x, keys);
        let r = t.push(s.last());
        assert(insert_desc(s, x, keys) == r);
        assert forall|i: int| 0 <= i < r.len() - 1 implies pair_desc(
            #[trigger] r[i],
            r[i + 1],
            keys,
        ) by {
            if i < t.len() - 1 {
                assert(r[i] == t[i] && r[i + 1] == t[i + 1]);
                assert(pair_desc(t[i], t[i + 1], keys));
            } else {
                assert(r[i] == t.last() && r[i + 1] == s.last());
                if t.last() == x {
                    assert(real_cmp(keys[x as int], keys[s.last() as int])
                        == core::cmp::Ordering::Greater);
                } else {
                    assert(t.last() == s.drop_last().last());
                    assert(s.drop_last().last() == s[s.len() - 2]);
                    assert(pair_desc(s[s.len() - 2], s[s.len() - 1], keys));
                }
            }
        }
    } else {
        let r = s.push(x);
        assert forall|i: int| 0 <= i < r.len() - 1 implies pair_desc(
            #[trigger] r[i],
            r[i + 1],
            keys,
        ) by {
            if i < s.len() - 1 {
                assert(r[i] == s[i] && r[i + 1] == s[i + 1]);
                assert(pair_desc(s[i], s[i + 1], keys));
            } else {
                assert(r[i] == s.last() && r[i + 1] == x);
            }
        }
    }
}

/// The draw-order permutation is as long as the depth list, stays
/// within it, never goes from shallower to deeper, and keeps insertion
/// order among entries at equal depth.
#[verifier::rlimit(60)]
pub proof fn lemma_draw_order_desc_stable(keys: Seq<int>)
    requires
        keys.len() <= usize::MAX,
    ensures
        draw_order_spec(keys).len() == keys.len(),
        forall|k: int|
            0 <= k < draw_order_spec(keys).len() ==> #[trigger] draw_order_spec(keys)[k]
                < keys.len(),
        adjacent_desc(draw_order_spec(keys), keys),
{
    let ident = identity_order(keys.len());
    assert forall|a: int, b: int| 0 <= a < b < ident.len() implies #[trigger] ident[a]
        < #[trigger] ident[b] by {
        assert(ident[a] == a as usize);
        assert(ident[b] == b as usize);
    }
    lemma_sort_desc_props(ident, keys);
}

/// Sorting a strictly increasing index sequence yields a permutation
/// of it that is descending by key and stable.
proof fn lemma_sort_desc_props(s: Seq<usize>, keys: Seq<int>)
    requires
        forall|a: int, b: int| 0 <= a < b < s.len() ==> #[trigger] s[a] < #[trigger] s[b],
    ensures
        sort_desc(s, keys).len() == s.len(),
        s.len() > 0 ==> forall|k: int|
            0 <= k < sort_desc(s, keys).len() ==> #[trigger] sort_desc(s, keys)[k] <= s.last(),
        adjacent_desc(sort_desc(s, keys), keys),
    decreases s.len(),
{
    if s.len() > 0 {
        assert(forall|a: int, b: int|
            0 <= a < b < s.drop_last().len() ==> #[trigger] s.drop_last()[a]
                < #[trigger] s.drop_last()[b]);
        lemma_sort_desc_props(s.drop_last(), keys);
        let t = sort_desc(s.drop_last(), keys);
        assert(forall|k: int| 0 <= k < t.len() ==> #[trigger] t[k] < s.last()) by {
            if s.len() >= 2 {
                assert(s.drop_last().last() == s[s.len() - 2]);
                assert(s[s.len() - 2] < s[s.len() - 1]);
            }
        }
        lemma_insert_desc_props(t, s.last(), keys);
    }
}

/// The draw-order permutation for `depths`: every index below
/// `depths.len()` exactly once, sorted by descending depth with ties
/// keeping index order.
pub fn draw_order(depths: &Vec<Real>) -> (r: Vec<usize>)
    ensures
        r@ == draw_order_spec(depths@.map_values(|d: Real| d@)),
        r@.len() == depths@.len(),
        forall|k: int| 0 <= k < r@.len() ==> #[trigger] r@[k] < depths@.len(),
{
    let ghost keys = depths@.map_values(|d: Real| d@);
    let n: usize = depths.len();
    let mut ord: Vec<usize> = Vec::new();
    let mut i: usize = 0;
    proof {
        assert(identity_order(0) =~= Seq::<usize>::empty());
    }
    while i < n
        invariant
            i <= n,
            n == depths@.len(),
            keys == depths@.map_values(|d: Real| d@),
            ord@ == sort_desc(identity_order(i as nat), keys),
            ord@.len() == i,
            forall|k: int| 0 <= k < ord@.len() ==> #[trigger] ord@[k] < n,
        decreases n - i,
    {
        let mut j: usize = ord.len();
        let mut done: bool = false;
        while j > 0 && !done
            invariant
                j <= ord@.len(),
                i < n,
                n == depths@.len(),
                keys == depths@.map_values(|d: Real| d@),
                forall|k: int| 0 <= k < ord@.len() ==> #[trigger] ord@[k] < n,
                forall|k: int|
                    j <= k < ord@.len() ==> real_cmp(keys[#[trigger] ord@[k] as int], keys[i as int])
                        == core::cmp::Ordering::Less,
                done ==> j > 0 && real_cmp(keys[ord@[j - 1] as int], keys[i as int])
                    != core::cmp::Ordering::Less,
            decreases j, (if done { 0int } else { 1int }),
        {
            let prev: usize = ord[j - 1];
            let c: core::cmp::Ordering = depths[prev].cmp_real(&depths[i]);
            if matches!(c, core::cmp::Ordering::Less) {
                j = j - 1;
            } else {
                done = true;
            }
        }
        proof {
            lemma_insert_desc_at(ord@, i, keys, j as int);
            assert(identity_order((i + 1) as nat).drop_last() =~= identity_order(i as nat));
            assert(identity_order((i + 1) as nat).last() == i);
            assert(ord@.insert(j as int, i) =~= ord@.take(j as int).push(i) + ord@.skip(j as int));
        }
        ord.insert(j, i);
        i = i + 1;
    }
    proof {
        assert(identity_order(n as nat) =~= identity_order(keys.len()));
    }
    ord
}

/// The instance list: entries in insertion order plus the cached
/// draw-order permutation.
#[derive(Debug)]
pub struct InstanceList {
    entries: Vec<Instance>,
    order: Vec<usize>,
}

impl vstd::prelude::View for InstanceList {
    type V = Seq<Instance>;

    closed spec fn view(&self) -> Seq<Instance> {
        self.entries@
    }
}

impl InstanceList {
    /// The cached draw-order permutation, as last rebuilt.
    pub closed spec fn order(self) -> Seq<usize> {
        self.order@
    }

    /// The depths of the entries, in insertion order.
    pub open spec fn depths(self) -> Seq<int> {
        self@.map_values(|e: Instance| e.depth@)
    }

    /// An empty list.
    pub fn new() -> (r: InstanceList)
        ensures
            r@ == Seq::<Instance>::empty(),
            r.order() == Seq::<usize>::empty(),
    {
        InstanceList { entries: Vec::new(), order: Vec::new() }
    }

    /// Number of entries.
    pub fn len(&self) -> (r: usize)
        ensures
            r == self@.len(),
    {
        self.entries.len()
    }

    /// Appends an entry; the cached permutation goes stale.
    pub fn push(&mut self, e: Instance)
        ensures
            final(self)@ == old(self)@.push(e),
            final(self).order() == old(self).order(),
    {
        self.entries.push(e);
    }

    /// The entry at a list index, if it is still there.
    pub fn get(&self, idx: usize) -> (r: Option<&Instance>)
        ensures
            idx < self@.len() ==> r == Some(&self@[idx as int]),
            idx >= self@.len() ==> r is None,
    {
        if idx < self.entries.len() {
            Some(&self.entries[idx])
        } else {
            None
        }
    }

    /// Writes an entry's depth; the cached permutation goes stale.
    pub fn set_depth(&mut self, idx: usize, depth: Real)
        requires
            idx < old(self)@.len(),
        ensures
            final(self)@ == old(self)@.update(idx as int, (Instance { depth, ..old(self)@[idx as int] })),
            final(self).order() == old(self).order(),
    {
        let e: Instance = self.entries[idx];
        self.entries.set(idx, Instance { depth, ..e });
    }

    /// Rebuilds the cached permutation: descending depth, stable.
    pub fn draw_sort(&mut self)
        ensures
            final(self)@ == old(self)@,
            final(self).order() == draw_order_spec(old(self).depths()),
    {
        let n: usize = self.entries.len();
        let mut depths: Vec<Real> = Vec::new();
        let mut i: usize = 0;
        while i < n
            invariant
                i <= n,
                n == self.entries@.len(),
                depths@ == self.entries@.take(i as int).map_values(|e: Instance| e.depth),
            decreases n - i,
        {
            depths.push(self.entries[i].depth);
            proof {
                assert(self.entries@.take(i + 1 as int).map_values(|e: Instance| e.depth)
                    =~= self.entries@.take(i as int).map_values(|e: Instance| e.depth).push(
                    self.entries@[i as int].depth,
                ));
            }
            i = i + 1;
        }
        proof {
            assert(self.entries@.take(n as int) =~= self.entries@);
            assert(depths@.map_values(|d: Real| d@) =~= self.depths());
        }
        self.order = draw_order(&depths);
    }

    /// The cached draw order: list indices, deepest first.
    pub fn iter_by_drawing(&self) -> (r: &Vec<usize>)
        ensures
            r@ == self.order(),
    {
        &self.order
    }

    /// Length of the cached draw order.
    pub fn order_len(&self) -> (r: usize)
        ensures
            r == self.order().len(),
    {
        self.order.len()
    }

    /// One entry of the cached draw order.
    pub fn order_get(&self, k: usize) -> (r: usize)
        requires
            k < self.order().len(),
        ensures
            r == self.order()[k as int],
    {
        self.order[k]
    }
}

/// The tile list: entries in insertion order plus the cached
/// draw-order permutation.
#[derive(Debug)]
pub struct TileList {
    entries: Vec<Tile>,
    order: Vec<usize>,
}

impl vstd::prelude::View for TileList {
    type V = Seq<Tile>;

    closed spec fn view(&self) -> Seq<Tile> {
        self.entries@
    }
}

impl TileList {
    /// The cached draw-order permutation, as last rebuilt.
    pub closed spec fn order(self) -> Seq<usize> {
        self.order@
    }

    /// The depths of the entries, in insertion order.
    pub open spec fn depths(self) -> Seq<int> {
        self@.map_values(|e: Tile| e.depth@)
    }

    /// An empty list.
    pub fn new() -> (r: TileList)
        ensures
            r@ == Seq::<Tile>::empty(),
            r.order() == Seq::<usize>::empty(),
    {
        TileList { entries: Vec::new(), order: Vec::new() }
    }

    /// Number of entries.
    pub fn len(&self) -> (r: usize)
        ensures
            r == self@.len(),
    {
        self.entries.len()
    }

    /// Appends an entry; the cached permutation goes stale.
    pub fn push(&mut self, e: Tile)
        ensures
            final(self)@ == old(self)@.push(e),
            final(self).order() == old(self).order(),
    {
        self.entries.push(e);
    }

    /// The entry at a list index, if it is still there.
    pub fn get(&self, idx: usize) -> (r: Option<&Tile>)
        ensures
            idx < self@.len() ==> r == Some(&self@[idx as int]),
            idx >= self@.len() ==> r is None,
    {
        if idx < self.entries.len() {
            Some(&self.entries[idx])
        } else {
            None
        }
    }

    /// Writes an entry's depth; the cached permutation goes stale.
    pub fn set_depth(&mut self, idx: usize, depth: Real)
        requires
            idx < old(self)@.len(),
        ensures
            final(self)@ == old(self)@.update(idx as int, (Tile { depth, ..old(self)@[idx as int] })),
            final(self).order() == old(self).order(),
    {
        let e: Tile = self.entries[idx];
        self.entries.set(idx, Tile { depth, ..e });
    }

    /// Rebuilds the cached permutation: descending depth, stable.
    pub fn draw_sort(&mut self)
        ensures
            final(self)@ == old(self)@,
            final(self).order() == draw_order_spec(old(self).depths()),
    {
        let n: usize = self.entries.len();
        let mut depths: Vec<Real> = Vec::new();
        let mut i: usize = 0;
        while i < n
            invariant
                i <= n,
                n == self.entries@.len(),
                depths@ == self.entries@.take(i as int).map_values(|e: Tile| e.depth),
            decreases n - i,
        {
            depths.push(self.entries[i].depth);
            proof {
                assert(self.entries@.take(i + 1 as int).map_values(|e: Tile| e.depth)
                    =~= self.entries@.take(i as int).map_values(|e: Tile| e.depth).push(
                    self.entries@[i as int].depth,
                ));
            }
            i = i + 1;
        }
        proof {
            assert(self.entries@.take(n as int) =~= self.entries@);
            assert(depths@.map_values(|d: Real| d@) =~= self.depths());
        }
        self.order = draw_order(&depths);
    }

    /// The cached draw order: list indices, deepest first.
    pub fn iter_by_drawing(&self) -> (r: &Vec<usize>)
        ensures
            r@ == self.order(),
    {
        &self.order
    }

    /// Length of the cached draw order.
    pub fn order_len(&self) -> (r: usize)
        ensures
            r == self.order().len(),
    {
        self.order.len()
    }

    /// One entry of the cached draw order.
    pub fn order_get(&self, k: usize) -> (r: usize)
        requires
            k < self.order().len(),
        ensures
            r == self.order()[k as int],
    {
        self.order[k]
    }
}

} // verus!
