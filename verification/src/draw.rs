//! The per-frame draw pipeline.
//!
//! One frame is: for each visible viewport (or once for the whole room),
//! set the projection, emit the non-foreground background layers, walk
//! instances and tiles interleaved by descending depth (instances win
//! ties), emit the foreground layers; then finish the frame and clear
//! the one-frame input presses. Instances whose object has a scripted
//! DRAW event are dispatched to the executor, whose failure aborts the
//! frame. Every function's contract pins the exact command sequence the
//! renderer receives.

use vstd::prelude::*;
use crate::font::Character;
use crate::font::Font;
use crate::gml::Error;
use crate::gml::EV_DRAW;
use crate::math::real_cmp;
use crate::math::real_int;
use crate::math::real_rad;
use crate::math::Real;
use crate::math::trunc_rem;
use crate::math::iabs;
use crate::math::PI_UNITS;
use crate::math::SCALE;
use crate::renderer::AtlasRef;
use crate::renderer::DrawCommand;
use crate::renderer::Renderer;
use crate::scene::Assets;
use crate::scene::BackgroundLayer;
use crate::scene::Instance;
use crate::scene::InstanceList;
use crate::scene::draw_order_spec;
use crate::scene::Tile;
use crate::scene::TileList;
use crate::scene::Viewport;

verus! {

/// Horizontal anchoring of drawn text.
#[derive(Clone, Copy, Debug, PartialEq, Eq, Structural)]
pub enum Halign {
    Left,
    Middle,
    Right,
}

/// Vertical anchoring of drawn text.
#[derive(Clone, Copy, Debug, PartialEq, Eq, Structural)]
pub enum Valign {
    Top,
    Middle,
    Bottom,
}

/// One dispatch into the scripting executor.
#[derive(Clone, Copy, Debug, PartialEq, Eq, Structural)]
pub struct EventRecord {
    pub event: u32,
    pub subtype: u32,
    pub self_idx: usize,
    pub other_idx: usize,
}

/// The scripting executor at the draw pass's boundary. Dispatches are
/// logged in order; the outcome of each is scripted ahead of the frame,
/// an error string meaning the event fails and aborts the pass.
#[derive(Debug)]
pub struct Executor {
    responses: Vec<Option<String>>,
    cursor: usize,
    log: Vec<EventRecord>,
}

/// The outcome the executor's next dispatch reports.
pub open spec fn outcome_at(responses: Seq<Option<String>>, cur: int) -> Option<String> {
    if 0 <= cur < responses.len() {
        responses[cur]
    } else {
        None
    }
}

/// Where the executor's outcome cursor stands after one dispatch.
pub open spec fn next_cursor(responses: Seq<Option<String>>, cur: int) -> int {
    if 0 <= cur < responses.len() {
        cur + 1
    } else {
        cur
    }
}

impl Executor {
    /// The scripted outcomes, in dispatch order.
    pub closed spec fn responses(self) -> Seq<Option<String>> {
        self.responses@
    }

    /// How many outcomes have been consumed.
    pub closed spec fn cursor(self) -> int {
        self.cursor as int
    }

    /// Dispatches made so far, oldest first.
    pub closed spec fn log(self) -> Seq<EventRecord> {
        self.log@
    }

    /// An executor that will report the given outcomes in order, and
    /// succeed once they run out.
    pub fn new(responses: Vec<Option<String>>) -> (r: Executor)
        ensures
            r.responses() == responses@,
            r.cursor() == 0,
            r.log() == Seq::<EventRecord>::empty(),
    {
        Executor { responses, cursor: 0, log: Vec::new() }
    }

    /// The dispatch log, oldest first.
    pub fn events_run(&self) -> (r: &Vec<EventRecord>)
        ensures
            r@ == self.log(),
    {
        &self.log
    }

    /// Runs one scripted event: logs the dispatch, consumes the next
    /// scripted outcome and reports it.
    pub fn run_event(&mut self, event: u32, subtype: u32, self_idx: usize, other_idx: usize) -> (r:
        Result<(), Error>)
        ensures
            final(self).responses() == old(self).responses(),
            final(self).cursor() == next_cursor(old(self).responses(), old(self).cursor()),
            final(self).log() == old(self).log().push(
                (EventRecord { event, subtype, self_idx, other_idx }),
            ),
            r is Ok <==> outcome_at(old(self).responses(), old(self).cursor()) is None,
            r matches Err(e) ==> outcome_at(old(self).responses(), old(self).cursor()) matches Some(
                s,
            ) && e.reason@ == s@,
    {
        self.log.push(EventRecord { event, subtype, self_idx, other_idx });
        if self.cursor < self.responses.len() {
            let i: usize = self.cursor;
            self.cursor = i + 1;
            match &self.responses[i] {
                Some(s) => Err(Error { reason: s.clone() }),
                None => Ok(()),
            }
        } else {
            Ok(())
        }
    }
}

/// The atlas of a background asset, if the index names one and it has
/// an atlas; any miss is silent.
pub open spec fn bg_atlas(assets: Assets, id: i32) -> Option<AtlasRef> {
    if 0 <= id < assets.backgrounds@.len() {
        match assets.backgrounds@[id as int] {
            Some(b) => b.atlas_ref,
            None => None,
        }
    } else {
        None
    }
}

/// Commands of one pass over the layer list, keeping layers that are
/// visible, on the requested side, and have a resolvable atlas.
pub open spec fn layer_cmds(
    layers: Seq<BackgroundLayer>,
    assets: Assets,
    foreground: bool,
) -> Seq<DrawCommand>
    decreases layers.len(),
{
    if layers.len() == 0 {
        Seq::<DrawCommand>::empty()
    } else {
        let l = layers[0];
        let head = if l.visible && l.is_foreground == foreground {
            match bg_atlas(assets, l.background_id) {
                Some(a) => seq![
                    (DrawCommand::Sprite {
                        atlas: a,
                        x: l.x_offset,
                        y: l.y_offset,
                        xscale: l.xscale,
                        yscale: l.yscale,
                        angle: real_int(0),
                        blend: l.blend,
                        alpha: l.alpha,
                    }),
                ],
                None => Seq::<DrawCommand>::empty(),
            }
        } else {
            Seq::<DrawCommand>::empty()
        };
        head + layer_cmds(layers.drop_first(), assets, foreground)
    }
}

/// Commands of an instance's default draw: its sprite's frame at
/// `floor(image_index) mod frame_count`, or nothing on any miss.
pub open spec fn instance_cmds(inst: Instance, assets: Assets) -> Seq<DrawCommand> {
    if 0 <= inst.sprite_index < assets.sprites@.len() {
        match assets.sprites@[inst.sprite_index as int] {
            Some(sprite) => {
                let n = sprite.frames@.len();
                if n == 0 {
                    Seq::<DrawCommand>::empty()
                } else {
                    let fi = trunc_rem(inst.image_index@ / (SCALE as int), n as int);
                    if 0 <= fi < n {
                        seq![
                            (DrawCommand::Sprite {
                                atlas: sprite.frames@[fi].atlas_ref,
                                x: inst.x,
                                y: inst.y,
                                xscale: inst.image_xscale,
                                yscale: inst.image_yscale,
                                angle: inst.image_angle,
                                blend: inst.image_blend,
                                alpha: inst.image_alpha,
                            }),
                        ]
                    } else {
                        Seq::<DrawCommand>::empty()
                    }
                }
            },
            None => Seq::<DrawCommand>::empty(),
        }
    } else {
        Seq::<DrawCommand>::empty()
    }
}

/// Commands of one tile: a partial blit of its background's atlas, or
/// nothing on any miss.
pub open spec fn tile_cmds(t: Tile, assets: Assets) -> Seq<DrawCommand> {
    match bg_atlas(assets, t.background_index) {
        Some(a) => seq![
            (DrawCommand::SpritePartial {
                atlas: a,
                src_x: real_int(t.tile_x as int),
                src_y: real_int(t.tile_y as int),
                src_w: real_int(t.width as int),
                src_h: real_int(t.height as int),
                x: t.x,
                y: t.y,
                xscale: t.xscale,
                yscale: t.yscale,
                angle: real_int(0),
                blend: t.blend,
                alpha: t.alpha,
            }),
        ],
        None => Seq::<DrawCommand>::empty(),
    }
}

/// What drawing one instance does: a scripted DRAW dispatch for
/// custom-draw objects (commands empty, one log entry, one outcome
/// consumed), the default draw otherwise.
pub open spec fn instance_step(
    inst: Instance,
    assets: Assets,
    custom: Seq<i32>,
    responses: Seq<Option<String>>,
    idx: usize,
    cur: int,
) -> (Seq<DrawCommand>, Seq<EventRecord>, int, Option<String>) {
    if custom.contains(inst.object_index) {
        (
            Seq::<DrawCommand>::empty(),
            seq![(EventRecord { event: EV_DRAW, subtype: 0, self_idx: idx, other_idx: idx })],
            next_cursor(responses, cur),
            outcome_at(responses, cur),
        )
    } else {
        (instance_cmds(inst, assets), Seq::<EventRecord>::empty(), cur, None)
    }
}

/// Steps left before a cursor at `k` drains a stream of length `len`.
pub open spec fn steps_left(len: int, k: int) -> int {
    if k < len {
        len - k
    } else {
        0
    }
}

/// The scene body: two cursors advance over the cached draw orders,
/// drawing the instance while its depth is not below the tile's
/// (instances win ties), the tile otherwise; stale permutation entries
/// are skipped; a failed dispatch stops the walk.
pub open spec fn scene_walk(
    insts: Seq<Instance>,
    tiles: Seq<Tile>,
    assets: Assets,
    custom: Seq<i32>,
    responses: Seq<Option<String>>,
    io: Seq<usize>,
    to: Seq<usize>,
    i: int,
    j: int,
    cur: int,
) -> (Seq<DrawCommand>, Seq<EventRecord>, int, Option<String>)
    decreases steps_left(io.len() as int, i) + steps_left(to.len() as int, j),
{
    if 0 <= i < io.len() && 0 <= j < to.len() {
        if io[i] >= insts.len() {
            scene_walk(insts, tiles, assets, custom, responses, io, to, i + 1, j, cur)
        } else if to[j] >= tiles.len() {
            scene_walk(insts, tiles, assets, custom, responses, io, to, i, j + 1, cur)
        } else {
            let inst = insts[io[i] as int];
            let tile = tiles[to[j] as int];
            if real_cmp(inst.depth@, tile.depth@) != core::cmp::Ordering::Less {
                let s = instance_step(inst, assets, custom, responses, io[i], cur);
                if s.3 is Some {
                    s
                } else {
                    let rest = scene_walk(
                        insts,
                        tiles,
                        assets,
                        custom,
                        responses,
                        io,
                        to,
                        i + 1,
                        j,
                        s.2,
                    );
                    (s.0 + rest.0, s.1 + rest.1, rest.2, rest.3)
                }
            } else {
                let rest = scene_walk(insts, tiles, assets, custom, responses, io, to, i, j + 1, cur);
                (tile_cmds(tile, assets) + rest.0, rest.1, rest.2, rest.3)
            }
        }
    } else if 0 <= i < io.len() {
        if io[i] >= insts.len() {
            scene_walk(insts, tiles, assets, custom, responses, io, to, i + 1, j, cur)
        } else {
            let inst = insts[io[i] as int];
            let s = instance_step(inst, assets, custom, responses, io[i], cur);
            if s.3 is Some {
                s
            } else {
                let rest = scene_walk(insts, tiles, assets, custom, responses, io, to, i + 1, j, s.2);
                (s.0 + rest.0, s.1 + rest.1, rest.2, rest.3)
            }
        }
    } else if 0 <= j < to.len() {
        if to[j] >= tiles.len() {
            scene_walk(insts, tiles, assets, custom, responses, io, to, i, j + 1, cur)
        } else {
            let rest = scene_walk(insts, tiles, assets, custom, responses, io, to, i, j + 1, cur);
            (tile_cmds(tiles[to[j] as int], assets) + rest.0, rest.1, rest.2, rest.3)
        }
    } else {
        (Seq::<DrawCommand>::empty(), Seq::<EventRecord>::empty(), cur, None)
    }
}

/// One whole pass over a view rectangle: projection, non-foreground
/// layers, the scene body over freshly sorted draw orders, and (when
/// the body completes) the foreground layers. `angle` is in degrees.
pub open spec fn view_pass(
    insts: Seq<Instance>,
    tiles: Seq<Tile>,
    layers: Seq<BackgroundLayer>,
    assets: Assets,
    custom: Seq<i32>,
    responses: Seq<Option<String>>,
    window_w: u32,
    window_h: u32,
    unscaled_w: u32,
    unscaled_h: u32,
    src_x: i32,
    src_y: i32,
    src_w: i32,
    src_h: i32,
    port_x: i32,
    port_y: i32,
    port_w: i32,
    port_h: i32,
    angle: Real,
    cur: int,
) -> (Seq<DrawCommand>, Seq<EventRecord>, int, Option<String>) {
    let setv = seq![
        (DrawCommand::SetView {
            window_w,
            window_h,
            unscaled_w,
            unscaled_h,
            src_x,
            src_y,
            src_w,
            src_h,
            angle: real_rad(angle),
            port_x,
            port_y,
            port_w,
            port_h,
        }),
    ];
    let pre = layer_cmds(layers, assets, false);
    let io = draw_order_spec(insts.map_values(|e: Instance| e.depth@));
    let to = draw_order_spec(tiles.map_values(|e: Tile| e.depth@));
    let body = scene_walk(insts, tiles, assets, custom, responses, io, to, 0, 0, cur);
    if body.3 is Some {
        (setv + pre + body.0, body.1, body.2, body.3)
    } else {
        (setv + pre + body.0 + layer_cmds(layers, assets, true), body.1, body.2, None)
    }
}

/// True when a list index of `set` holds `v`.
fn custom_contains(set: &Vec<i32>, v: i32) -> (r: bool)
    ensures
        r == set@.contains(v),
{
    let n: usize = set.len();
    let mut i: usize = 0;
    while i < n
        invariant
            i <= n,
            n == set@.len(),
            forall|k: int| 0 <= k < i ==> set@[k] != v,
        decreases n - i,
    {
        if set[i] == v {
            return true;
        }
        i = i + 1;
    }
    false
}

/// Emits one pass over the layer list.
fn draw_layers(renderer: &mut Renderer, layers: &Vec<BackgroundLayer>, assets: &Assets, foreground: bool)
    ensures
        final(renderer)@ == old(renderer)@ + layer_cmds(layers@, *assets, foreground),
{
    let n: usize = layers.len();
    let mut i: usize = 0;
    proof {
        assert(layers@.skip(0) =~= layers@);
    }
    while i < n
        invariant
            i <= n,
            n == layers@.len(),
            layer_cmds(layers@, *assets, foreground) =~= renderer@.skip(old(renderer)@.len() as int)
                + layer_cmds(layers@.skip(i as int), *assets, foreground),
            renderer@.len() >= old(renderer)@.len(),
            renderer@.take(old(renderer)@.len() as int) =~= old(renderer)@,
        decreases n - i,
    {
        let l: BackgroundLayer = layers[i];
        proof {
            assert(layers@.skip(i as int)[0] == l);
            assert(layers@.skip(i as int).drop_first() =~= layers@.skip(i as int + 1));
        }
        if l.visible && l.is_foreground == foreground {
            let mut atlas: Option<AtlasRef> = None;
            if l.background_id >= 0 {
                let bi: usize = l.background_id as usize;
                if bi < assets.backgrounds.len() {
                    match &assets.backgrounds[bi] {
                        Some(b) => {
                            atlas = b.atlas_ref;
                        },
                        None => {},
                    }
                }
            }
            proof {
                assert(atlas == bg_atlas(*assets, l.background_id));
            }
            match atlas {
                Some(a) => {
                    let zero: Real = Real::zero();
                    renderer.draw_sprite(
                        a,
                        l.x_offset,
                        l.y_offset,
                        l.xscale,
                        l.yscale,
                        zero,
                        l.blend,
                        l.alpha,
                    );
                },
                None => {},
            }
        }
        proof {
            assert(renderer@.skip(old(renderer)@.len() as int) + layer_cmds(
                layers@.skip(i as int + 1),
                *assets,
                foreground,
            ) =~= layer_cmds(layers@, *assets, foreground));
        }
        i = i + 1;
    }
    proof {
        assert(layer_cmds(layers@.skip(n as int), *assets, foreground) =~= Seq::<
            DrawCommand,
        >::empty());
        assert(renderer@ =~= old(renderer)@ + layer_cmds(layers@, *assets, foreground));
    }
}

/// Draws one instance: dispatches the scripted DRAW event for
/// custom-draw objects, performs the default sprite draw otherwise.
fn draw_instance(
    renderer: &mut Renderer,
    executor: &mut Executor,
    assets: &Assets,
    custom: &Vec<i32>,
    idx: usize,
    inst: Instance,
) -> (r: Result<(), Error>)
    ensures
        ({
            let s = instance_step(
                inst,
                *assets,
                custom@,
                old(executor).responses(),
                idx,
                old(executor).cursor(),
            );
            &&& final(renderer)@ == old(renderer)@ + s.0
            &&& final(executor).log() == old(executor).log() + s.1
            &&& final(executor).cursor() == s.2
            &&& final(executor).responses() == old(executor).responses()
            &&& (r is Ok <==> s.3 is None)
            &&& (r matches Err(e) ==> s.3 matches Some(m) && e.reason@ == m@)
        }),
{
    if custom_contains(custom, inst.object_index) {
        let r = executor.run_event(EV_DRAW, 0, idx, idx);
        proof {
            assert(renderer@ =~= old(renderer)@ + Seq::<DrawCommand>::empty());
            assert(executor.log() =~= old(executor).log() + seq![
                (EventRecord { event: EV_DRAW, subtype: 0, self_idx: idx, other_idx: idx }),
            ]);
        }
        r
    } else {
        let mut atlas: Option<AtlasRef> = None;
        if inst.sprite_index >= 0 {
            let si: usize = inst.sprite_index as usize;
            if si < assets.sprites.len() {
                match &assets.sprites[si] {
                    Some(sprite) => {
                        let n: usize = sprite.frames.len();
                        if n > 0 {
                            proof {
                                use_type_invariant(&inst.image_index);
                            }
                            let f: i64 = inst.image_index.floor();
                            let neg: bool = f < 0;
                            let fm: u64 = if neg {
                                (-f) as u64
                            } else {
                                f as u64
                            };
                            let rem: u64 = fm % (n as u64);
                            if !neg {
                                atlas = Some(sprite.frames[rem as usize].atlas_ref);
                            } else if rem == 0 {
                                atlas = Some(sprite.frames[0].atlas_ref);
                            }
                        }
                    },
                    None => {},
                }
            }
        }
        match atlas {
            Some(a) => {
                renderer.draw_sprite(
                    a,
                    inst.x,
                    inst.y,
                    inst.image_xscale,
                    inst.image_yscale,
                    inst.image_angle,
                    inst.image_blend,
                    inst.image_alpha,
                );
                proof {
                    assert(renderer@ =~= old(renderer)@ + instance_cmds(inst, *assets));
                }
            },
            None => {
                proof {
                    assert(renderer@ =~= old(renderer)@ + instance_cmds(inst, *assets));
                }
            },
        }
        Ok(())
    }
}

/// Draws one tile, or nothing on a missing background or atlas.
fn draw_tile(renderer: &mut Renderer, assets: &Assets, t: Tile)
    ensures
        final(renderer)@ == old(renderer)@ + tile_cmds(t, *assets),
{
    let mut atlas: Option<AtlasRef> = None;
    if t.background_index >= 0 {
        let bi: usize = t.background_index as usize;
        if bi < assets.backgrounds.len() {
            match &assets.backgrounds[bi] {
                Some(b) => {
                    atlas = b.atlas_ref;
                },
                None => {},
            }
        }
    }
    match atlas {
        Some(a) => {
            let zero: Real = Real::zero();
            renderer.draw_sprite_partial(
                a,
                Real::from_int(t.tile_x as i64),
                Real::from_int(t.tile_y as i64),
                Real::from_int(t.width as i64),
                Real::from_int(t.height as i64),
                t.x,
                t.y,
                t.xscale,
                t.yscale,
                zero,
                t.blend,
                t.alpha,
            );
            proof {
                assert(renderer@ =~= old(renderer)@ + tile_cmds(t, *assets));
            }
        },
        None => {
            proof {
                assert(renderer@ =~= old(renderer)@ + tile_cmds(t, *assets));
            }
        },
    }
}

/// The interleaved walk over both cached draw orders, from cursors
/// `i` and `j` on.
fn scene_walk_exec(
    renderer: &mut Renderer,
    executor: &mut Executor,
    assets: &Assets,
    custom: &Vec<i32>,
    instances: &InstanceList,
    tiles: &TileList,
    i: usize,
    j: usize,
) -> (r: Result<(), Error>)
    requires
        i <= instances.order().len(),
        j <= tiles.order().len(),
    ensures
        ({
            let w = scene_walk(
                instances@,
                tiles@,
                *assets,
                custom@,
                old(executor).responses(),
                instances.order(),
                tiles.order(),
                i as int,
                j as int,
                old(executor).cursor(),
            );
            &&& final(renderer)@ == old(renderer)@ + w.0
            &&& final(executor).log() == old(executor).log() + w.1
            &&& final(executor).cursor() == w.2
            &&& final(executor).responses() == old(executor).responses()
            &&& (r is Ok <==> w.3 is None)
            &&& (r matches Err(e) ==> w.3 matches Some(m) && e.reason@ == m@)
        }),
    decreases instances.order().len() + tiles.order().len() - i - j,
{
    let ilen: usize = instances.order_len();
    let tlen: usize = tiles.order_len();
    if i < ilen && j < tlen {
        let ii: usize = instances.order_get(i);
        let tj: usize = tiles.order_get(j);
        if ii >= instances.len() {
            return scene_walk_exec(renderer, executor, assets, custom, instances, tiles, i + 1, j);
        }
        if tj >= tiles.len() {
            return scene_walk_exec(renderer, executor, assets, custom, instances, tiles, i, j + 1);
        }
        let inst: Instance = *instances.get(ii).unwrap();
        let tile: Tile = *tiles.get(tj).unwrap();
        let c: core::cmp::Ordering = inst.depth.cmp_real(&tile.depth);
        if !matches!(c, core::cmp::Ordering::Less) {
            let ghost s_spec = instance_step(
                inst,
                *assets,
                custom@,
                old(executor).responses(),
                ii,
                old(executor).cursor(),
            );
            let s = draw_instance(renderer, executor, assets, custom, ii, inst);
            match s {
                Ok(()) => {
                    let rest = scene_walk_exec(
                        renderer,
                        executor,
                        assets,
                        custom,
                        instances,
                        tiles,
                        i + 1,
                        j,
                    );
                    proof {
                        let ghost w_rest = scene_walk(
                            instances@,
                            tiles@,
                            *assets,
                            custom@,
                            old(executor).responses(),
                            instances.order(),
                            tiles.order(),
                            i as int + 1,
                            j as int,
                            s_spec.2,
                        );
                        assert(renderer@ =~= old(renderer)@ + (s_spec.0 + w_rest.0));
                        assert(executor.log() =~= old(executor).log() + (s_spec.1 + w_rest.1));
                    }
                    rest
                },
                Err(e) => Err(e),
            }
        } else {
            draw_tile(renderer, assets, tile);
            let rest = scene_walk_exec(renderer, executor, assets, custom, instances, tiles, i, j + 1);
            proof {
                let ghost w_rest = scene_walk(
                    instances@,
                    tiles@,
                    *assets,
                    custom@,
                    old(executor).responses(),
                    instances.order(),
                    tiles.order(),
                    i as int,
                    j as int + 1,
                    old(executor).cursor(),
                );
                assert(renderer@ =~= old(renderer)@ + (tile_cmds(tile, *assets) + w_rest.0));
            }
            rest
        }
    } else if i < ilen {
        let ii: usize = instances.order_get(i);
        if ii >= instances.len() {
            return scene_walk_exec(renderer, executor, assets, custom, instances, tiles, i + 1, j);
        }
        let inst: Instance = *instances.get(ii).unwrap();
        let ghost s_spec = instance_step(
            inst,
            *assets,
            custom@,
            old(executor).responses(),
            ii,
            old(executor).cursor(),
        );
        let s = draw_instance(renderer, executor, assets, custom, ii, inst);
        match s {
            Ok(()) => {
                let rest = scene_walk_exec(renderer, executor, assets, custom, instances, tiles, i + 1, j);
                proof {
                    let ghost w_rest = scene_walk(
                        instances@,
                        tiles@,
                        *assets,
                        custom@,
                        old(executor).responses(),
                        instances.order(),
                        tiles.order(),
                        i as int + 1,
                        j as int,
                        s_spec.2,
                    );
                    assert(renderer@ =~= old(renderer)@ + (s_spec.0 + w_rest.0));
                    assert(executor.log() =~= old(executor).log() + (s_spec.1 + w_rest.1));
                }
                rest
            },
            Err(e) => Err(e),
        }
    } else if j < tlen {
        let tj: usize = tiles.order_get(j);
        if tj >= tiles.len() {
            return scene_walk_exec(renderer, executor, assets, custom, instances, tiles, i, j + 1);
        }
        let tile: Tile = *tiles.get(tj).unwrap();
        draw_tile(renderer, assets, tile);
        let rest = scene_walk_exec(renderer, executor, assets, custom, instances, tiles, i, j + 1);
        proof {
            let ghost w_rest = scene_walk(
                instances@,
                tiles@,
                *assets,
                custom@,
                old(executor).responses(),
                instances.order(),
                tiles.order(),
                i as int,
                j as int + 1,
                old(executor).cursor(),
            );
            assert(renderer@ =~= old(renderer)@ + (tile_cmds(tile, *assets) + w_rest.0));
        }
        rest
    } else {
        proof {
            assert(renderer@ =~= old(renderer)@ + Seq::<DrawCommand>::empty());
            assert(executor.log() =~= old(executor).log() + Seq::<EventRecord>::empty());
        }
        Ok(())
    }
}

/// The line height text uses: the caller's, else the height of the
/// glyph for `M`, else zero.
pub open spec fn resolved_line_height(f: Font, line_height: Option<u32>) -> u32 {
    match line_height {
        Some(h) => h,
        None => match f.spec_get_char('M' as u32) {
            Some(c) => c.height,
            None => 0,
        },
    }
}

/// The glyph the character at `k` resolves to and how many codepoints
/// it consumes: a backslash immediately before a hash escapes a
/// literal hash glyph.
pub open spec fn char_step(f: Font, s: Seq<char>, k: int) -> (Option<Character>, int) {
    if s[k] == '\\' && k + 1 < s.len() && s[k + 1] == '#' {
        (f.spec_get_char('#' as u32), 2)
    } else {
        (f.spec_get_char(s[k] as u32), 1)
    }
}

/// The larger of two widths.
pub open spec fn wider(a: int, b: int) -> int {
    if a > b {
        a
    } else {
        b
    }
}

/// Text measurement from character `k` with a line in progress:
/// `cur` the current line's width, `wmax` the widest committed line,
/// `h` the committed height. A hash commits the line; a glyph whose
/// width would pass `mw` on a non-empty line wraps first; a committed
/// glyph advances by its `distance`; one final line is always
/// committed. Yields the final `(width, height)`.
pub open spec fn measure_walk(
    f: Font,
    s: Seq<char>,
    k: int,
    lh: u32,
    mw: Option<u32>,
    cur: int,
    wmax: int,
    h: int,
) -> (int, int)
    decreases steps_left(s.len() as int, k),
{
    if !(0 <= k < s.len()) {
        (wider(cur, wmax), h + lh)
    } else if s[k] == '#' {
        measure_walk(f, s, k + 1, lh, mw, 0, wider(cur, wmax), h + lh)
    } else {
        let st = char_step(f, s, k);
        match st.0 {
            None => measure_walk(f, s, k + st.1, lh, mw, cur, wmax, h),
            Some(c) => {
                if mw matches Some(mx) && cur + c.width > mx && cur != 0 {
                    measure_walk(f, s, k + st.1, lh, mw, c.distance as int, wider(cur, wmax), h + lh)
                } else {
                    measure_walk(f, s, k + st.1, lh, mw, cur + c.distance, wmax, h)
                }
            },
        }
    }
}

/// Glyph commands of drawn text from character `k`: `sx` the line
/// start, `(cx, cy)` the cursor. Rules as in measurement, but the wrap
/// test uses the cursor's distance from the line start; each committed
/// glyph blits its atlas rectangle at the cursor plus its bearing.
pub open spec fn layout_walk(
    f: Font,
    s: Seq<char>,
    k: int,
    lh: u32,
    mw: Option<u32>,
    sx: int,
    cx: int,
    cy: int,
    colour: i32,
    alpha: Real,
) -> Seq<DrawCommand>
    decreases steps_left(s.len() as int, k),
{
    if !(0 <= k < s.len()) {
        Seq::<DrawCommand>::empty()
    } else if s[k] == '#' {
        layout_walk(f, s, k + 1, lh, mw, sx, sx, cy + lh, colour, alpha)
    } else {
        let st = char_step(f, s, k);
        match st.0 {
            None => layout_walk(f, s, k + st.1, lh, mw, sx, cx, cy, colour, alpha),
            Some(c) => {
                let moved = if mw matches Some(mx) && (cx - sx) + c.width > mx && cx != sx {
                    (sx, cy + lh)
                } else {
                    (cx, cy)
                };
                seq![
                    (DrawCommand::SpritePartial {
                        atlas: f.atlas(),
                        src_x: real_int(c.x as int),
                        src_y: real_int(c.y as int),
                        src_w: real_int(c.width as int),
                        src_h: real_int(c.height as int),
                        x: real_int(c.offset + moved.0),
                        y: real_int(moved.1),
                        xscale: real_int(1),
                        yscale: real_int(1),
                        angle: real_int(0),
                        blend: colour,
                        alpha: alpha,
                    }),
                ] + layout_walk(f, s, k + st.1, lh, mw, sx, moved.0 + c.distance, moved.1, colour, alpha)
            },
        }
    }
}

/// Where drawn text starts: at the anchor for left-top alignment, and
/// shifted by half or all of the measured extent otherwise. The
/// measurement here deliberately passes no maximum width, so a wrapped
/// string is anchored by its unwrapped extent.
pub open spec fn start_cursor(f: Font, s: Seq<char>, x: int, y: int, ha: Halign, va: Valign) -> (
    int,
    int,
) {
    if ha == Halign::Left && va == Valign::Top {
        (x, y)
    } else {
        let m = measure_walk(f, s, 0, resolved_line_height(f, None), None, 0, 0, 0);
        (
            match ha {
                Halign::Left => x,
                Halign::Middle => x - m.0 / 2,
                Halign::Right => x - m.0,
            },
            match va {
                Valign::Top => y,
                Valign::Middle => y - m.1 / 2,
                Valign::Bottom => y - m.1,
            },
        )
    }
}

/// A product grows with its left factor.
proof fn lemma_mul_le(a: int, b: int, l: int)
    requires
        a <= b,
        0 <= l,
    ensures
        a * l <= b * l,
{
    assert(a * l <= b * l) by (nonlinear_arith)
        requires
            a <= b && 0 <= l,
    ;
}

/// One more factor adds one more summand.
proof fn lemma_mul_step(a: int, l: int)
    ensures
        (a + 1) * l == a * l + l,
{
    assert((a + 1) * l == a * l + l) by (nonlinear_arith);
}

/// A product of bounded factors is bounded by the product of bounds.
proof fn lemma_mul_bound(a: int, amax: int, l: int, lmax: int)
    requires
        0 <= a <= amax,
        0 <= l <= lmax,
    ensures
        a * l <= amax * lmax,
{
    assert(a * l <= amax * lmax) by (nonlinear_arith)
        requires
            0 <= a <= amax && 0 <= l <= lmax,
    ;
}

/// The measurement state machine, executed.
fn measure_walk_exec(
    font: &Font,
    s: &str,
    k: usize,
    lh: u32,
    mw: Option<u32>,
    cur: u32,
    wmax: u32,
    h: u32,
) -> (r: (u32, u32))
    requires
        font.wf(),
        s@.len() <= 0xFFFF,
        k <= s@.len(),
        lh <= 0xFFFF,
        cur as int <= k * 0x10000,
        wmax as int <= k * 0x10000,
        h as int <= k * (lh as int),
    ensures
        (r.0 as int, r.1 as int) == measure_walk(
            *font,
            s@,
            k as int,
            lh,
            mw,
            cur as int,
            wmax as int,
            h as int,
        ),
        r.0 as int <= s@.len() * 0x10000,
        r.1 as int <= h as int + (s@.len() - k + 1) * (lh as int),
    decreases s@.len() - k,
{
    proof {
        lemma_mul_le(k as int, s@.len() as int, 0x10000);
        lemma_mul_le(k as int, s@.len() as int, lh as int);
        lemma_mul_step(k as int, lh as int);
        lemma_mul_step(k as int, 0x10000);
        lemma_mul_step(s@.len() - k, lh as int);
        lemma_mul_step(s@.len() - k - 1, lh as int);
        lemma_mul_bound(k as int, 0xFFFF, lh as int, 0xFFFF);
        lemma_mul_bound(s@.len() as int, 0xFFFF, lh as int, 0xFFFF);
    }
    if k >= s.unicode_len() {
        let w: u32 = if cur > wmax {
            cur
        } else {
            wmax
        };
        (w, h + lh)
    } else {
        let c: char = s.get_char(k);
        if c == '#' {
            let w2: u32 = if cur > wmax {
                cur
            } else {
                wmax
            };
            measure_walk_exec(font, s, k + 1, lh, mw, 0, w2, h + lh)
        } else {
            let glyph: Option<Character>;
            let consumed: usize;
            if c == '\\' && k + 1 < s.unicode_len() && s.get_char(k + 1) == '#' {
                consumed = 2;
                glyph = font.get_char('#' as u32);
            } else {
                consumed = 1;
                glyph = font.get_char(c as u32);
            }
            proof {
                lemma_mul_le(k as int + 1, k as int + 2, lh as int);
                lemma_mul_le(k as int + 1, k as int + 2, 0x10000);
                lemma_mul_step(k as int + 1, lh as int);
                lemma_mul_step(k as int + 1, 0x10000);
                lemma_mul_le(s@.len() - k - 2, s@.len() - k - 1, lh as int);
            }
            match glyph {
                None => measure_walk_exec(font, s, k + consumed, lh, mw, cur, wmax, h),
                Some(ch) => {
                    let mut wrapped: bool = false;
                    match mw {
                        Some(mx) => {
                            if cur + ch.width > mx && cur != 0 {
                                wrapped = true;
                            }
                        },
                        None => {},
                    }
                    if wrapped {
                        let w2: u32 = if cur > wmax {
                            cur
                        } else {
                            wmax
                        };
                        measure_walk_exec(font, s, k + consumed, lh, mw, ch.distance, w2, h + lh)
                    } else {
                        measure_walk_exec(font, s, k + consumed, lh, mw, cur + ch.distance, wmax, h)
                    }
                },
            }
        }
    }
}

/// The glyph-emission state machine, executed against the recorder.
fn layout_walk_exec(
    renderer: &mut Renderer,
    font: &Font,
    s: &str,
    k: usize,
    lh: u32,
    mw: Option<u32>,
    sx: i32,
    cx: i32,
    cy: i32,
    colour: i32,
    alpha: Real,
)
    requires
        font.wf(),
        s@.len() <= 0x1000,
        k <= s@.len(),
        lh <= 0xFFFF,
        -0x6000_0000 <= sx,
        sx <= cx,
        cx as int - sx as int <= k * 0x10000,
        cx as int + (s@.len() - k) * 0x10000 <= 0x7000_0000,
        -0x6000_0000 <= cy,
        cy as int + (s@.len() - k) * (lh as int) <= 0x7000_0000,
    ensures
        final(renderer)@ == old(renderer)@ + layout_walk(
            *font,
            s@,
            k as int,
            lh,
            mw,
            sx as int,
            cx as int,
            cy as int,
            colour,
            alpha,
        ),
    decreases s@.len() - k,
{
    proof {
        lemma_mul_step(s@.len() - k - 1, lh as int);
        lemma_mul_step(s@.len() - k - 1, 0x10000);
        lemma_mul_le(0, s@.len() - k, lh as int);
        lemma_mul_le(0, s@.len() - k, 0x10000);
        if k < s@.len() {
            lemma_mul_le(1, s@.len() - k, lh as int);
            lemma_mul_le(1, s@.len() - k, 0x10000);
            lemma_mul_le(s@.len() - k - 2, s@.len() - k - 1, lh as int);
            lemma_mul_le(s@.len() - k - 2, s@.len() - k - 1, 0x10000);
            lemma_mul_step(k as int, 0x10000);
            lemma_mul_step(k as int + 1, 0x10000);
        }
    }
    if k >= s.unicode_len() {
        proof {
            assert(renderer@ =~= old(renderer)@ + Seq::<DrawCommand>::empty());
        }
    } else {
        let c: char = s.get_char(k);
        if c == '#' {
            layout_walk_exec(renderer, font, s, k + 1, lh, mw, sx, sx, cy + lh as i32, colour, alpha);
        } else {
            let glyph: Option<Character>;
            let consumed: usize;
            if c == '\\' && k + 1 < s.unicode_len() && s.get_char(k + 1) == '#' {
                consumed = 2;
                glyph = font.get_char('#' as u32);
            } else {
                consumed = 1;
                glyph = font.get_char(c as u32);
            }
            proof {
                lemma_mul_le(s@.len() - k - 2, s@.len() - k - 1, lh as int);
                lemma_mul_le(s@.len() - k - 2, s@.len() - k - 1, 0x10000);
            }
            match glyph {
                None => {
                    layout_walk_exec(renderer, font, s, k + consumed, lh, mw, sx, cx, cy, colour, alpha);
                },
                Some(ch) => {
                    let mut cx2: i32 = cx;
                    let mut cy2: i32 = cy;
                    match mw {
                        Some(mx) => {
                            let line_width: u32 = (cx - sx) as u32;
                            if line_width + ch.width > mx && line_width != 0 {
                                cx2 = sx;
                                cy2 = cy + lh as i32;
                            }
                        },
                        None => {},
                    }
                    let ghost before = renderer@;
                    renderer.draw_sprite_partial(
                        font.atlas_ref(),
                        Real::from_int(ch.x as i64),
                        Real::from_int(ch.y as i64),
                        Real::from_int(ch.width as i64),
                        Real::from_int(ch.height as i64),
                        Real::from_int((ch.offset as i32 + cx2) as i64),
                        Real::from_int(cy2 as i64),
                        Real::from_int(1),
                        Real::from_int(1),
                        Real::zero(),
                        colour,
                        alpha,
                    );
                    layout_walk_exec(
                        renderer,
                        font,
                        s,
                        k + consumed,
                        lh,
                        mw,
                        sx,
                        cx2 + ch.distance as i32,
                        cy2,
                        colour,
                        alpha,
                    );
                    proof {
                        assert(renderer@ =~= old(renderer)@ + layout_walk(
                            *font,
                            s@,
                            k as int,
                            lh,
                            mw,
                            sx as int,
                            cx as int,
                            cy as int,
                            colour,
                            alpha,
                        ));
                    }
                },
            }
        }
    }
}

/// One frame, one viewport: projection, layers, scene body, layers.
pub open spec fn frame_walk(
    insts: Seq<Instance>,
    tiles: Seq<Tile>,
    layers: Seq<BackgroundLayer>,
    assets: Assets,
    custom: Seq<i32>,
    responses: Seq<Option<String>>,
    window_w: u32,
    window_h: u32,
    unscaled_w: u32,
    unscaled_h: u32,
    views: Seq<Viewport>,
    v: int,
    cur: int,
) -> (Seq<DrawCommand>, Seq<EventRecord>, int, Option<String>, int)
    decreases steps_left(views.len() as int, v),
{
    if 0 <= v < views.len() {
        let vw = views[v];
        if !vw.visible {
            frame_walk(
                insts,
                tiles,
                layers,
                assets,
                custom,
                responses,
                window_w,
                window_h,
                unscaled_w,
                unscaled_h,
                views,
                v + 1,
                cur,
            )
        } else {
            let p = view_pass(
                insts,
                tiles,
                layers,
                assets,
                custom,
                responses,
                window_w,
                window_h,
                unscaled_w,
                unscaled_h,
                vw.source_x,
                vw.source_y,
                vw.source_w,
                vw.source_h,
                vw.port_x,
                vw.port_y,
                vw.port_w,
                vw.port_h,
                vw.angle,
                cur,
            );
            if p.3 is Some {
                (p.0, p.1, p.2, p.3, v)
            } else {
                let rest = frame_walk(
                    insts,
                    tiles,
                    layers,
                    assets,
                    custom,
                    responses,
                    window_w,
                    window_h,
                    unscaled_w,
                    unscaled_h,
                    views,
                    v + 1,
                    p.2,
                );
                (p.0 + rest.0, p.1 + rest.1, rest.2, rest.3, rest.4)
            }
        }
    } else {
        (Seq::<DrawCommand>::empty(), Seq::<EventRecord>::empty(), cur, None, 0)
    }
}

/// Some view among the first `c` is visible.
pub open spec fn any_visible_prefix(views: Seq<Viewport>, c: int) -> bool {
    exists|k: int| 0 <= k < c && c <= views.len() && (#[trigger] views[k]).visible
}

/// Some view is visible.
pub open spec fn any_visible(views: Seq<Viewport>) -> bool {
    any_visible_prefix(views, views.len() as int)
}

/// The game state the draw pipeline reads and writes.
#[derive(Debug)]
pub struct Game {
    pub views_enabled: bool,
    pub views: Vec<Viewport>,
    pub view_current: usize,
    pub room_width: i32,
    pub room_height: i32,
    pub unscaled_width: u32,
    pub unscaled_height: u32,
    pub window_width: u32,
    pub window_height: u32,
    pub instance_list: InstanceList,
    pub tile_list: TileList,
    pub backgrounds: Vec<BackgroundLayer>,
    pub assets: Assets,
    pub custom_draw_objects: Vec<i32>,
    pub renderer: Renderer,
    pub executor: Executor,
    pub input_presses: Vec<u32>,
    pub draw_font: Option<Font>,
    pub draw_halign: Halign,
    pub draw_valign: Valign,
    pub draw_colour: i32,
    pub draw_alpha: Real,
}

/// The fields a draw pass never writes are the same in `a` and `b`.
pub open spec fn same_static(a: Game, b: Game) -> bool {
    &&& a.views_enabled == b.views_enabled
    &&& a.views@ == b.views@
    &&& a.room_width == b.room_width
    &&& a.room_height == b.room_height
    &&& a.unscaled_width == b.unscaled_width
    &&& a.unscaled_height == b.unscaled_height
    &&& a.window_width == b.window_width
    &&& a.window_height == b.window_height
    &&& a.instance_list@ == b.instance_list@
    &&& a.tile_list@ == b.tile_list@
    &&& a.backgrounds@ == b.backgrounds@
    &&& a.assets == b.assets
    &&& a.custom_draw_objects@ == b.custom_draw_objects@
    &&& a.executor.responses() == b.executor.responses()
    &&& a.draw_font == b.draw_font
    &&& a.draw_halign == b.draw_halign
    &&& a.draw_valign == b.draw_valign
    &&& a.draw_colour == b.draw_colour
    &&& a.draw_alpha == b.draw_alpha
}

impl Game {
    /// The result of one view pass over this game's scene, from the
    /// given projection parameters and outcome cursor.
    pub open spec fn spec_view_pass(self, src_x: i32, src_y: i32, src_w: i32, src_h: i32, port_x: i32, port_y: i32, port_w: i32, port_h: i32, angle: Real, cur: int) -> (
        Seq<DrawCommand>,
        Seq<EventRecord>,
        int,
        Option<String>,
    ) {
        view_pass(
            self.instance_list@,
            self.tile_list@,
            self.backgrounds@,
            self.assets,
            self.custom_draw_objects@,
            self.executor.responses(),
            self.window_width,
            self.window_height,
            self.unscaled_width,
            self.unscaled_height,
            src_x,
            src_y,
            src_w,
            src_h,
            port_x,
            port_y,
            port_w,
            port_h,
            angle,
            cur,
        )
    }

    /// What this frame will submit, log, consume and report: the view
    /// walk when views are enabled, one whole-room pass otherwise. The
    /// last component is the index of the view whose pass failed.
    pub open spec fn frame_spec(self) -> (
        Seq<DrawCommand>,
        Seq<EventRecord>,
        int,
        Option<String>,
        int,
    ) {
        if self.views_enabled {
            frame_walk(
                self.instance_list@,
                self.tile_list@,
                self.backgrounds@,
                self.assets,
                self.custom_draw_objects@,
                self.executor.responses(),
                self.window_width,
                self.window_height,
                self.unscaled_width,
                self.unscaled_height,
                self.views@,
                0,
                self.executor.cursor(),
            )
        } else {
            let p = self.spec_view_pass(
                0,
                0,
                self.room_width,
                self.room_height,
                0,
                0,
                self.room_width,
                self.room_height,
                real_int(0),
                self.executor.cursor(),
            );
            (p.0, p.1, p.2, p.3, 0)
        }
    }

    /// Draws everything in the scene using a given view rectangle;
    /// `angle` is in degrees.
    fn draw_view(
        &mut self,
        src_x: i32,
        src_y: i32,
        src_w: i32,
        src_h: i32,
        port_x: i32,
        port_y: i32,
        port_w: i32,
        port_h: i32,
        angle: Real,
    ) -> (r: Result<(), Error>)
        requires
            iabs(angle@) * PI_UNITS <= i128::MAX as int,
        ensures
            ({
                let p = old(self).spec_view_pass(
                    src_x,
                    src_y,
                    src_w,
                    src_h,
                    port_x,
                    port_y,
                    port_w,
                    port_h,
                    angle,
                    old(self).executor.cursor(),
                );
                &&& final(self).renderer@ == old(self).renderer@ + p.0
                &&& final(self).executor.log() == old(self).executor.log() + p.1
                &&& final(self).executor.cursor() == p.2
                &&& (r is Ok <==> p.3 is None)
                &&& (r matches Err(e) ==> p.3 matches Some(m) && e.reason@ == m@)
                &&& same_static(*old(self), *final(self))
                &&& final(self).view_current == old(self).view_current
                &&& final(self).input_presses@ == old(self).input_presses@
                &&& final(self).instance_list.order() == draw_order_spec(
                    old(self).instance_list.depths(),
                )
                &&& final(self).tile_list.order() == draw_order_spec(old(self).tile_list.depths())
            }),
    {
        let ww: u32 = self.window_width;
        let wh: u32 = self.window_height;
        let uw: u32 = self.unscaled_width;
        let uh: u32 = self.unscaled_height;
        let rad: Real = angle.to_radians();
        self.renderer.set_view(ww, wh, uw, uh, src_x, src_y, src_w, src_h, rad, port_x, port_y, port_w, port_h);
        let ghost setv = self.renderer@.skip(old(self).renderer@.len() as int);
        draw_layers(&mut self.renderer, &self.backgrounds, &self.assets, false);
        let ghost pre_done = self.renderer@;
        self.instance_list.draw_sort();
        self.tile_list.draw_sort();
        let res = scene_walk_exec(
            &mut self.renderer,
            &mut self.executor,
            &self.assets,
            &self.custom_draw_objects,
            &self.instance_list,
            &self.tile_list,
            0,
            0,
        );
        let ghost p = old(self).spec_view_pass(
            src_x,
            src_y,
            src_w,
            src_h,
            port_x,
            port_y,
            port_w,
            port_h,
            angle,
            old(self).executor.cursor(),
        );
        match res {
            Err(e) => {
                proof {
                    assert(self.renderer@ =~= old(self).renderer@ + p.0);
                }
                Err(e)
            },
            Ok(()) => {
                draw_layers(&mut self.renderer, &self.backgrounds, &self.assets, true);
                proof {
                    assert(self.renderer@ =~= old(self).renderer@ + p.0);
                }
                Ok(())
            },
        }
    }

    /// Draws all instances, tiles and backgrounds to the screen, taking
    /// all active views into account; runs scripted DRAW events, whose
    /// failure aborts the frame before it is finished.
    pub fn draw(&mut self) -> (r: Result<(), Error>)
        requires
            forall|k: int|
                0 <= k < old(self).views@.len() ==> iabs(
                    (#[trigger] old(self).views@[k]).angle@,
                ) * PI_UNITS <= i128::MAX as int,
        ensures
            ({
                let fs = old(self).frame_spec();
                &&& (r is Ok <==> fs.3 is None)
                &&& same_static(*old(self), *final(self))
                &&& final(self).executor.log() == old(self).executor.log() + fs.1
                &&& final(self).executor.cursor() == fs.2
                &&& (r is Ok ==> final(self).renderer@ == old(self).renderer@ + fs.0.push(
                    (DrawCommand::Finish {
                        window_w: old(self).window_width,
                        window_h: old(self).window_height,
                    }),
                ) && final(self).input_presses@ == Seq::<u32>::empty() && final(self).view_current
                    == (if old(self).views_enabled {
                    0int
                } else {
                    old(self).view_current as int
                }))
                &&& (r matches Err(e) ==> fs.3 matches Some(m) && e.reason@ == m@
                    && final(self).renderer@ == old(self).renderer@ + fs.0
                    && final(self).input_presses@ == old(self).input_presses@
                    && final(self).view_current as int == (if old(self).views_enabled {
                    fs.4
                } else {
                    old(self).view_current as int
                }))
                &&& ((!old(self).views_enabled || any_visible(old(self).views@))
                    ==> final(self).instance_list.order() == draw_order_spec(
                    old(self).instance_list.depths(),
                ) && final(self).tile_list.order() == draw_order_spec(old(self).tile_list.depths()))
                &&& ((old(self).views_enabled && !any_visible(old(self).views@))
                    ==> final(self).instance_list.order() == old(self).instance_list.order()
                    && final(self).tile_list.order() == old(self).tile_list.order())
            }),
    {
        if self.views_enabled {
            let n: usize = self.views.len();
            let mut count: usize = 0;
            let ghost ctx0 = *old(self);
            while count < n
                invariant
                    ctx0 == *old(self),
                    count <= n,
                    n == self.views@.len(),
                    same_static(ctx0, *self),
                    self.input_presses@ == ctx0.input_presses@,
                    self.views_enabled,
                    forall|k: int|
                        0 <= k < ctx0.views@.len() ==> iabs(
                            (#[trigger] ctx0.views@[k]).angle@,
                        ) * PI_UNITS <= i128::MAX as int,
                    ({
                        let fw0 = frame_walk(
                            ctx0.instance_list@,
                            ctx0.tile_list@,
                            ctx0.backgrounds@,
                            ctx0.assets,
                            ctx0.custom_draw_objects@,
                            ctx0.executor.responses(),
                            ctx0.window_width,
                            ctx0.window_height,
                            ctx0.unscaled_width,
                            ctx0.unscaled_height,
                            ctx0.views@,
                            0,
                            ctx0.executor.cursor(),
                        );
                        let fwr = frame_walk(
                            ctx0.instance_list@,
                            ctx0.tile_list@,
                            ctx0.backgrounds@,
                            ctx0.assets,
                            ctx0.custom_draw_objects@,
                            ctx0.executor.responses(),
                            ctx0.window_width,
                            ctx0.window_height,
                            ctx0.unscaled_width,
                            ctx0.unscaled_height,
                            ctx0.views@,
                            count as int,
                            self.executor.cursor(),
                        );
                        &&& self.renderer@.len() >= ctx0.renderer@.len()
                        &&& self.renderer@.take(ctx0.renderer@.len() as int) =~= ctx0.renderer@
                        &&& fw0.0 =~= self.renderer@.skip(ctx0.renderer@.len() as int) + fwr.0
                        &&& self.executor.log().len() >= ctx0.executor.log().len()
                        &&& self.executor.log().take(ctx0.executor.log().len() as int)
                            =~= ctx0.executor.log()
                        &&& fw0.1 =~= self.executor.log().skip(ctx0.executor.log().len() as int)
                            + fwr.1
                        &&& fw0.2 == fwr.2
                        &&& fw0.3 == fwr.3
                        &&& (fw0.3 is Some ==> fw0.4 == fwr.4)
                    }),
                    any_visible_prefix(ctx0.views@, count as int)
                        ==> self.instance_list.order() == draw_order_spec(
                        ctx0.instance_list.depths(),
                    ) && self.tile_list.order() == draw_order_spec(ctx0.tile_list.depths()),
                    !any_visible_prefix(ctx0.views@, count as int)
                        ==> self.instance_list.order() == ctx0.instance_list.order()
                        && self.tile_list.order() == ctx0.tile_list.order(),
                decreases n - count,
            {
                let vw: Viewport = self.views[count];
                let ghost ren_before = self.renderer@;
                let ghost log_before = self.executor.log();
                let ghost cur_before = self.executor.cursor();
                if vw.visible {
                    self.view_current = count;
                    let res = self.draw_view(
                        vw.source_x,
                        vw.source_y,
                        vw.source_w,
                        vw.source_h,
                        vw.port_x,
                        vw.port_y,
                        vw.port_w,
                        vw.port_h,
                        vw.angle,
                    );
                    proof {
                        let p = view_pass(
                            ctx0.instance_list@,
                            ctx0.tile_list@,
                            ctx0.backgrounds@,
                            ctx0.assets,
                            ctx0.custom_draw_objects@,
                            ctx0.executor.responses(),
                            ctx0.window_width,
                            ctx0.window_height,
                            ctx0.unscaled_width,
                            ctx0.unscaled_height,
                            vw.source_x,
                            vw.source_y,
                            vw.source_w,
                            vw.source_h,
                            vw.port_x,
                            vw.port_y,
                            vw.port_w,
                            vw.port_h,
                            vw.angle,
                            cur_before,
                        );
                        assert(self.renderer@ =~= ren_before + p.0);
                        assert(self.renderer@.skip(ctx0.renderer@.len() as int) =~= ren_before.skip(
                            ctx0.renderer@.len() as int,
                        ) + p.0);
                        assert(self.executor.log().skip(ctx0.executor.log().len() as int)
                            =~= log_before.skip(ctx0.executor.log().len() as int) + p.1);
                        assert(self.renderer@.take(ctx0.renderer@.len() as int) =~= ctx0.renderer@);
                        assert(self.executor.log().take(ctx0.executor.log().len() as int)
                            =~= ctx0.executor.log());
                    }
                    match res {
                        Err(e) => {
                            proof {
                                let p = view_pass(
                                    ctx0.instance_list@,
                                    ctx0.tile_list@,
                                    ctx0.backgrounds@,
                                    ctx0.assets,
                                    ctx0.custom_draw_objects@,
                                    ctx0.executor.responses(),
                                    ctx0.window_width,
                                    ctx0.window_height,
                                    ctx0.unscaled_width,
                                    ctx0.unscaled_height,
                                    vw.source_x,
                                    vw.source_y,
                                    vw.source_w,
                                    vw.source_h,
                                    vw.port_x,
                                    vw.port_y,
                                    vw.port_w,
                                    vw.port_h,
                                    vw.angle,
                                    cur_before,
                                );
                                let fw0 = frame_walk(
                                    ctx0.instance_list@,
                                    ctx0.tile_list@,
                                    ctx0.backgrounds@,
                                    ctx0.assets,
                                    ctx0.custom_draw_objects@,
                                    ctx0.executor.responses(),
                                    ctx0.window_width,
                                    ctx0.window_height,
                                    ctx0.unscaled_width,
                                    ctx0.unscaled_height,
                                    ctx0.views@,
                                    0,
                                    ctx0.executor.cursor(),
                                );
                                assert(self.renderer@ =~= self.renderer@.take(
                                    ctx0.renderer@.len() as int,
                                ) + self.renderer@.skip(ctx0.renderer@.len() as int));
                                assert(self.renderer@ =~= ctx0.renderer@ + fw0.0);
                                assert(self.executor.log() =~= self.executor.log().take(
                                    ctx0.executor.log().len() as int,
                                ) + self.executor.log().skip(ctx0.executor.log().len() as int));
                                assert(self.executor.log() =~= ctx0.executor.log() + fw0.1);
                                assert(ctx0.views@[count as int].visible);
                                assert(any_visible(ctx0.views@));
                            }
                            return Err(e);
                        },
                        Ok(()) => {},
                    }
                    proof {
                        let p = view_pass(
                            ctx0.instance_list@,
                            ctx0.tile_list@,
                            ctx0.backgrounds@,
                            ctx0.assets,
                            ctx0.custom_draw_objects@,
                            ctx0.executor.responses(),
                            ctx0.window_width,
                            ctx0.window_height,
                            ctx0.unscaled_width,
                            ctx0.unscaled_height,
                            vw.source_x,
                            vw.source_y,
                            vw.source_w,
                            vw.source_h,
                            vw.port_x,
                            vw.port_y,
                            vw.port_w,
                            vw.port_h,
                            vw.angle,
                            cur_before,
                        );
                        let rest = frame_walk(
                            ctx0.instance_list@,
                            ctx0.tile_list@,
                            ctx0.backgrounds@,
                            ctx0.assets,
                            ctx0.custom_draw_objects@,
                            ctx0.executor.responses(),
                            ctx0.window_width,
                            ctx0.window_height,
                            ctx0.unscaled_width,
                            ctx0.unscaled_height,
                            ctx0.views@,
                            count as int + 1,
                            p.2,
                        );
                        assert(ren_before.skip(ctx0.renderer@.len() as int) + (p.0 + rest.0)
                            =~= self.renderer@.skip(ctx0.renderer@.len() as int) + rest.0);
                        assert(log_before.skip(ctx0.executor.log().len() as int) + (p.1 + rest.1)
                            =~= self.executor.log().skip(ctx0.executor.log().len() as int) + rest.1);
                        assert(any_visible_prefix(ctx0.views@, count as int + 1));
                    }
                } else {
                    proof {
                        assert(any_visible_prefix(ctx0.views@, count as int + 1)
                            == any_visible_prefix(ctx0.views@, count as int));
                    }
                }
                count = count + 1;
            }
            self.view_current = 0;
        } else {
            let rw: i32 = self.room_width;
            let rh: i32 = self.room_height;
            let zero: Real = Real::zero();
            let res = self.draw_view(0, 0, rw, rh, 0, 0, rw, rh, zero);
            match res {
                Err(e) => {
                    return Err(e);
                },
                Ok(()) => {},
            }
        }
        let ww: u32 = self.window_width;
        let wh: u32 = self.window_height;
        self.renderer.finish(ww, wh);
        self.input_presses = Vec::new();
        proof {
            let fs = old(self).frame_spec();
            assert(self.renderer@ =~= old(self).renderer@ + fs.0.push(
                (DrawCommand::Finish {
                    window_w: old(self).window_width,
                    window_h: old(self).window_height,
                }),
            ));
        }
        Ok(())
    }

    /// Gets width and height of a string using the current draw_font.
    /// If line_height is absent, a line height is inferred from the
    /// font; if max_width is absent, the string is given no maximum
    /// width.
    pub fn get_string_size(&self, string: &str, line_height: Option<u32>, max_width: Option<u32>) -> (r: (u32, u32))
        requires
            self.draw_font matches Some(f) && f.wf(),
            string@.len() <= 0xFFFF,
            line_height matches Some(h) ==> h <= 0xFFFF,
        ensures
            ({
                let f = self.draw_font.unwrap();
                let lh = resolved_line_height(f, line_height);
                &&& (r.0 as int, r.1 as int) == measure_walk(f, string@, 0, lh, max_width, 0, 0, 0)
                &&& r.0 as int <= string@.len() * 0x10000
                &&& r.1 as int <= (string@.len() + 1) * (lh as int)
            }),
    {
        let font: &Font = self.draw_font.as_ref().unwrap();
        let lh: u32 = match line_height {
            Some(h) => h,
            None => match font.get_char('M' as u32) {
                Some(c) => c.height,
                None => 0,
            },
        };
        measure_walk_exec(font, string, 0, lh, max_width, 0, 0, 0)
    }

    /// Draws a string at the given coordinates with the current font,
    /// colour, alpha and alignment. If line_height is absent, a line
    /// height is inferred from the font; if max_width is absent, the
    /// string is given no maximum width.
    pub fn draw_string(&mut self, x: i32, y: i32, string: &str, line_height: Option<u32>, max_width: Option<u32>)
        requires
            old(self).draw_font matches Some(f) && f.wf(),
            string@.len() <= 0x1000,
            -0x4000_0000 <= x <= 0x4000_0000,
            -0x4000_0000 <= y <= 0x4000_0000,
            line_height matches Some(h) ==> h <= 0xFFFF,
        ensures
            ({
                let f = old(self).draw_font.unwrap();
                let lh = resolved_line_height(f, line_height);
                let start = start_cursor(
                    f,
                    string@,
                    x as int,
                    y as int,
                    old(self).draw_halign,
                    old(self).draw_valign,
                );
                final(self).renderer@ == old(self).renderer@ + layout_walk(
                    f,
                    string@,
                    0,
                    lh,
                    max_width,
                    start.0,
                    start.0,
                    start.1,
                    old(self).draw_colour,
                    old(self).draw_alpha,
                )
            }),
            same_static(*old(self), *final(self)),
            final(self).view_current == old(self).view_current,
            final(self).input_presses@ == old(self).input_presses@,
            final(self).executor.log() == old(self).executor.log(),
            final(self).executor.cursor() == old(self).executor.cursor(),
            final(self).instance_list.order() == old(self).instance_list.order(),
            final(self).tile_list.order() == old(self).tile_list.order(),
    {
        let lh: u32 = match line_height {
            Some(h) => h,
            None => match self.draw_font.as_ref().unwrap().get_char('M' as u32) {
                Some(c) => c.height,
                None => 0,
            },
        };
        let mut sx: i32 = x;
        let mut sy: i32 = y;
        let mut aligned: bool = false;
        match (self.draw_halign, self.draw_valign) {
            (Halign::Left, Valign::Top) => {},
            (_, _) => {
                aligned = true;
            },
        }
        if aligned {
            let m: (u32, u32) = self.get_string_size(string, None, None);
            proof {
                let f = self.draw_font.unwrap();
                crate::font::lemma_lookup_metric(f.glyphs(), 'M' as u32);
                lemma_mul_bound(
                    string@.len() as int + 1,
                    0x1001,
                    resolved_line_height(f, None) as int,
                    0xFFFF,
                );
            }
            let wi: i32 = m.0 as i32;
            let hi: i32 = m.1 as i32;
            sx = match self.draw_halign {
                Halign::Left => x,
                Halign::Middle => x - wi / 2,
                Halign::Right => x - wi,
            };
            sy = match self.draw_valign {
                Valign::Top => y,
                Valign::Middle => y - hi / 2,
                Valign::Bottom => y - hi,
            };
        }
        let colour: i32 = self.draw_colour;
        let alpha: Real = self.draw_alpha;
        let font: &Font = self.draw_font.as_ref().unwrap();
        proof {
            lemma_mul_bound(string@.len() as int, 0x1000, lh as int, 0xFFFF);
        }
        layout_walk_exec(
            &mut self.renderer,
            font,
            string,
            0,
            lh,
            max_width,
            sx,
            sx,
            sy,
            colour,
            alpha,
        );
    }
}

} // verus!
