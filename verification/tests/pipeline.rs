use gm8core::draw::Executor;
use gm8core::draw::Game;
use gm8core::draw::Halign;
use gm8core::draw::Valign;
use gm8core::math::Real;
use gm8core::renderer::AtlasRef;
use gm8core::renderer::DrawCommand;
use gm8core::renderer::Renderer;
use gm8core::scene::Assets;
use gm8core::scene::Background;
use gm8core::scene::Frame;
use gm8core::scene::Instance;
use gm8core::scene::InstanceList;
use gm8core::scene::Sprite;
use gm8core::scene::Tile;
use gm8core::scene::TileList;
use gm8core::scene::Viewport;

fn base_game() -> Game {
    Game {
        views_enabled: false,
        views: vec![],
        view_current: 0,
        room_width: 640,
        room_height: 480,
        unscaled_width: 640,
        unscaled_height: 480,
        window_width: 640,
        window_height: 480,
        instance_list: InstanceList::new(),
        tile_list: TileList::new(),
        backgrounds: vec![],
        assets: Assets { sprites: vec![], backgrounds: vec![] },
        custom_draw_objects: vec![],
        renderer: Renderer::new(),
        executor: Executor::new(vec![]),
        input_presses: vec![],
        draw_font: None,
        draw_halign: Halign::Left,
        draw_valign: Valign::Top,
        draw_colour: 0xFFFFFF,
        draw_alpha: Real::from_int(1),
    }
}

fn instance(object_index: i32, sprite_index: i32, depth: i64) -> Instance {
    Instance {
        object_index,
        sprite_index,
        image_index: Real::zero(),
        image_xscale: Real::from_int(1),
        image_yscale: Real::from_int(1),
        image_angle: Real::zero(),
        image_blend: 0xFFFFFF,
        image_alpha: Real::from_int(1),
        x: Real::zero(),
        y: Real::zero(),
        depth: Real::from_int(depth),
    }
}

fn tile(background_index: i32, depth: i64) -> Tile {
    Tile {
        background_index,
        tile_x: 0,
        tile_y: 0,
        width: 16,
        height: 16,
        x: Real::zero(),
        y: Real::zero(),
        xscale: Real::from_int(1),
        yscale: Real::from_int(1),
        blend: 0xFFFFFF,
        alpha: Real::from_int(1),
        depth: Real::from_int(depth),
    }
}

fn one_frame_sprite(atlas_id: u32) -> Option<Sprite> {
    Some(Sprite { frames: vec![Frame { atlas_ref: AtlasRef { id: atlas_id } }] })
}

fn atlas_of(cmd: &DrawCommand) -> Option<u32> {
    match cmd {
        DrawCommand::Sprite { atlas, .. } => Some(atlas.id),
        DrawCommand::SpritePartial { atlas, .. } => Some(atlas.id),
        _ => None,
    }
}

#[test]
fn draw_order_interleaves_by_depth() {
    let mut g = base_game();
    g.assets.sprites = vec![one_frame_sprite(100), one_frame_sprite(101), one_frame_sprite(102)];
    g.assets.backgrounds = vec![Some(Background { atlas_ref: Some(AtlasRef { id: 200 }) }),
        Some(Background { atlas_ref: Some(AtlasRef { id: 201 }) })];
    g.instance_list.push(instance(1, 0, 10));
    g.instance_list.push(instance(2, 1, 5));
    g.instance_list.push(instance(3, 2, 5));
    g.tile_list.push(tile(0, 7));
    g.tile_list.push(tile(1, 5));
    assert!(g.draw().is_ok());
    let cmds = g.renderer.commands();
    assert_eq!(cmds.len(), 7);
    assert!(matches!(cmds[0], DrawCommand::SetView { .. }));
    assert_eq!(atlas_of(&cmds[1]), Some(100));
    assert_eq!(atlas_of(&cmds[2]), Some(200));
    assert_eq!(atlas_of(&cmds[3]), Some(101));
    assert_eq!(atlas_of(&cmds[4]), Some(102));
    assert_eq!(atlas_of(&cmds[5]), Some(201));
    assert!(matches!(cmds[6], DrawCommand::Finish { .. }));
    assert_eq!(g.instance_list.iter_by_drawing(), &vec![0, 1, 2]);
    assert_eq!(g.tile_list.iter_by_drawing(), &vec![0, 1]);
}

#[test]
fn depth_change_is_seen_on_next_frame() {
    let mut g = base_game();
    g.assets.sprites = vec![one_frame_sprite(100), one_frame_sprite(101)];
    g.instance_list.push(instance(1, 0, 1));
    g.instance_list.push(instance(2, 1, 2));
    assert!(g.draw().is_ok());
    assert_eq!(g.instance_list.iter_by_drawing(), &vec![1, 0]);
    g.instance_list.set_depth(0, Real::from_int(5));
    assert_eq!(g.instance_list.iter_by_drawing(), &vec![1, 0]);
    assert!(g.draw().is_ok());
    assert_eq!(g.instance_list.iter_by_drawing(), &vec![0, 1]);
}

fn viewport(visible: bool) -> Viewport {
    Viewport {
        visible,
        source_x: 0,
        source_y: 0,
        source_w: 320,
        source_h: 240,
        port_x: 0,
        port_y: 0,
        port_w: 320,
        port_h: 240,
        angle: Real::zero(),
    }
}

#[test]
fn view_loop_visits_visible_views_once() {
    let mut g = base_game();
    g.views_enabled = true;
    g.views = vec![viewport(true), viewport(false), viewport(true)];
    g.view_current = 5;
    assert!(g.draw().is_ok());
    let cmds = g.renderer.commands();
    let set_views = cmds.iter().filter(|c| matches!(c, DrawCommand::SetView { .. })).count();
    let finishes = cmds.iter().filter(|c| matches!(c, DrawCommand::Finish { .. })).count();
    assert_eq!(set_views, 2);
    assert_eq!(finishes, 1);
    assert!(matches!(cmds[cmds.len() - 1], DrawCommand::Finish { .. }));
    assert_eq!(g.view_current, 0);
}

#[test]
fn silent_misses_draw_nothing() {
    let mut g = base_game();
    g.assets.sprites = vec![Some(Sprite { frames: vec![] }), None];
    g.assets.backgrounds = vec![Some(Background { atlas_ref: None }), None];
    g.instance_list.push(instance(1, 0, 0));
    g.instance_list.push(instance(2, 1, 0));
    g.instance_list.push(instance(3, -1, 0));
    g.instance_list.push(instance(4, 9, 0));
    g.tile_list.push(tile(0, 0));
    g.tile_list.push(tile(1, 0));
    g.tile_list.push(tile(7, 0));
    assert!(g.draw().is_ok());
    let cmds = g.renderer.commands();
    assert_eq!(cmds.len(), 2);
    assert!(matches!(cmds[0], DrawCommand::SetView { .. }));
    assert!(matches!(cmds[1], DrawCommand::Finish { .. }));
}

#[test]
fn custom_draw_error_aborts_frame() {
    let mut g = base_game();
    g.custom_draw_objects = vec![7];
    g.instance_list.push(instance(7, -1, 0));
    g.executor = Executor::new(vec![Some(String::from("boom"))]);
    g.input_presses = vec![42];
    let r = g.draw();
    match r {
        Err(e) => assert_eq!(e.reason, "boom"),
        Ok(()) => panic!(),
    }
    let cmds = g.renderer.commands();
    assert_eq!(cmds.len(), 1);
    assert!(matches!(cmds[0], DrawCommand::SetView { .. }));
    assert_eq!(g.input_presses, vec![42]);
    let log = g.executor.events_run();
    assert_eq!(log.len(), 1);
    assert_eq!(log[0].event, gm8core::gml::EV_DRAW);
    assert_eq!(log[0].self_idx, 0);
    assert_eq!(log[0].other_idx, 0);
}

#[test]
fn custom_draw_dispatches_instead_of_sprite() {
    let mut g = base_game();
    g.assets.sprites = vec![one_frame_sprite(100)];
    g.custom_draw_objects = vec![7];
    g.instance_list.push(instance(7, 0, 0));
    assert!(g.draw().is_ok());
    let cmds = g.renderer.commands();
    assert_eq!(cmds.len(), 2);
    assert_eq!(g.executor.events_run().len(), 1);
}

#[test]
fn frame_selection_uses_floor_mod() {
    let mut g = base_game();
    let frames = vec![
        Frame { atlas_ref: AtlasRef { id: 100 } },
        Frame { atlas_ref: AtlasRef { id: 101 } },
        Frame { atlas_ref: AtlasRef { id: 102 } },
    ];
    g.assets.sprites = vec![Some(Sprite { frames })];
    let mut inst = instance(1, 0, 0);
    inst.image_index = Real::from_frac(7, 2);
    g.instance_list.push(inst);
    assert!(g.draw().is_ok());
    let cmds = g.renderer.commands();
    assert_eq!(atlas_of(&cmds[1]), Some(100));
}

#[test]
fn clears_input_presses_after_frame() {
    let mut g = base_game();
    g.input_presses = vec![1, 2, 3];
    assert!(g.draw().is_ok());
    assert!(g.input_presses.is_empty());
}

#[test]
fn background_layers_frame_the_scene() {
    let mut g = base_game();
    g.assets.sprites = vec![one_frame_sprite(100)];
    g.assets.backgrounds = vec![Some(Background { atlas_ref: Some(AtlasRef { id: 300 }) }),
        Some(Background { atlas_ref: Some(AtlasRef { id: 301 }) })];
    g.backgrounds = vec![
        gm8core::scene::BackgroundLayer {
            background_id: 0,
            x_offset: Real::zero(),
            y_offset: Real::zero(),
            xscale: Real::from_int(1),
            yscale: Real::from_int(1),
            blend: 0xFFFFFF,
            alpha: Real::from_int(1),
            visible: true,
            is_foreground: false,
        },
        gm8core::scene::BackgroundLayer {
            background_id: 1,
            x_offset: Real::zero(),
            y_offset: Real::zero(),
            xscale: Real::from_int(1),
            yscale: Real::from_int(1),
            blend: 0xFFFFFF,
            alpha: Real::from_int(1),
            visible: true,
            is_foreground: true,
        },
    ];
    g.instance_list.push(instance(1, 0, 0));
    assert!(g.draw().is_ok());
    let cmds = g.renderer.commands();
    assert_eq!(cmds.len(), 5);
    assert!(matches!(cmds[0], DrawCommand::SetView { .. }));
    assert_eq!(atlas_of(&cmds[1]), Some(300));
    assert_eq!(atlas_of(&cmds[2]), Some(100));
    assert_eq!(atlas_of(&cmds[3]), Some(301));
    assert!(matches!(cmds[4], DrawCommand::Finish { .. }));
}
