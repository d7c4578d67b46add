use gm8core::draw::Executor;
use gm8core::draw::Game;
use gm8core::draw::Halign;
use gm8core::draw::Valign;
use gm8core::font::Character;
use gm8core::font::Font;
use gm8core::math::Real;
use gm8core::renderer::AtlasRef;
use gm8core::renderer::DrawCommand;
use gm8core::renderer::Renderer;
use gm8core::scene::Assets;
use gm8core::scene::InstanceList;
use gm8core::scene::TileList;

fn glyph(width: u32, height: u32, offset: u32, distance: u32) -> Character {
    Character { x: 0, y: 0, width, height, offset, distance }
}

fn game_with_font(font: Font) -> Game {
    Game {
        views_enabled: false,
        views: vec![],
        view_current: 0,
        room_width: 640,
        room_height: 480,
        unscaled_width: 640,
        unscaled_height: 480,
        window_width: 640,
        window_height: 480,
        instance_list: InstanceList::new(),
        tile_list: TileList::new(),
        backgrounds: vec![],
        assets: Assets { sprites: vec![], backgrounds: vec![] },
        custom_draw_objects: vec![],
        renderer: Renderer::new(),
        executor: Executor::new(vec![]),
        input_presses: vec![],
        draw_font: Some(font),
        draw_halign: Halign::Left,
        draw_valign: Valign::Top,
        draw_colour: 0xFFFFFF,
        draw_alpha: Real::from_int(1),
    }
}

fn abc_font() -> Font {
    let mut font = Font::new(AtlasRef { id: 1 });
    font.add_char('A' as u32, glyph(10, 14, 0, 12));
    font.add_char('B' as u32, glyph(8, 14, 0, 10));
    font.add_char('C' as u32, glyph(6, 14, 0, 8));
    font.add_char('M' as u32, glyph(12, 16, 0, 13));
    font
}

fn glyph_dests(cmds: &[DrawCommand]) -> Vec<(Real, Real)> {
    let mut out = vec![];
    for c in cmds {
        match c {
            DrawCommand::SpritePartial { x, y, .. } => out.push((*x, *y)),
            _ => {},
        }
    }
    out
}

#[test]
fn measure_with_hash_newline() {
    let g = game_with_font(abc_font());
    let (w, h) = g.get_string_size("AB#C", None, None);
    assert_eq!(w, 22);
    assert_eq!(h, 32);
}

#[test]
fn measure_uses_explicit_line_height() {
    let g = game_with_font(abc_font());
    let (w, h) = g.get_string_size("A#A", Some(7), None);
    assert_eq!(w, 12);
    assert_eq!(h, 14);
}

#[test]
fn escaped_hash_draws_a_literal_hash() {
    let mut font = abc_font();
    font.add_char('#' as u32, glyph(4, 14, 0, 5));
    let mut g = game_with_font(font);
    g.draw_string(0, 0, "A\\#B", None, None);
    let dests = glyph_dests(g.renderer.commands());
    assert_eq!(dests.len(), 3);
    assert_eq!(dests[0], (Real::from_int(0), Real::from_int(0)));
    assert_eq!(dests[1], (Real::from_int(12), Real::from_int(0)));
    assert_eq!(dests[2], (Real::from_int(17), Real::from_int(0)));
}

#[test]
fn wrap_at_max_width() {
    let mut font = Font::new(AtlasRef { id: 1 });
    font.add_char('A' as u32, glyph(10, 12, 0, 10));
    let g = game_with_font(font);
    let (w, h) = g.get_string_size("AAA", Some(16), Some(25));
    assert_eq!(w, 20);
    assert_eq!(h, 32);
}

#[test]
fn wide_glyph_on_fresh_line_is_kept() {
    let mut font = Font::new(AtlasRef { id: 1 });
    font.add_char('A' as u32, glyph(30, 12, 0, 30));
    let g = game_with_font(font);
    let (w, h) = g.get_string_size("AA", Some(16), Some(25));
    assert_eq!(w, 30);
    assert_eq!(h, 32);
}

#[test]
fn alignment_shifts_by_unwrapped_extent() {
    let mut font = Font::new(AtlasRef { id: 1 });
    font.add_char('A' as u32, glyph(10, 14, 3, 12));
    font.add_char('M' as u32, glyph(12, 16, 0, 13));
    let mut g = game_with_font(font);
    g.draw_halign = Halign::Right;
    g.draw_valign = Valign::Bottom;
    g.draw_string(100, 50, "A", None, None);
    let dests = glyph_dests(g.renderer.commands());
    assert_eq!(dests.len(), 1);
    assert_eq!(dests[0].0, Real::from_int(100 - 12 + 3));
    assert_eq!(dests[0].1, Real::from_int(50 - 16));
}

#[test]
fn missing_glyphs_are_skipped() {
    let g = game_with_font(abc_font());
    let (w, h) = g.get_string_size("AzB", None, None);
    assert_eq!(w, 22);
    assert_eq!(h, 16);
    let mut g2 = game_with_font(abc_font());
    g2.draw_string(0, 0, "zzz", None, None);
    assert_eq!(g2.renderer.commands().len(), 0);
}

#[test]
fn line_height_falls_back_to_zero_without_m() {
    let mut font = Font::new(AtlasRef { id: 1 });
    font.add_char('A' as u32, glyph(10, 14, 0, 12));
    let g = game_with_font(font);
    let (w, h) = g.get_string_size("A", None, None);
    assert_eq!(w, 12);
    assert_eq!(h, 0);
}

#[test]
fn glyph_blend_and_alpha_follow_draw_state() {
    let mut g = game_with_font(abc_font());
    g.draw_colour = 0x123456;
    g.draw_alpha = Real::from_frac(1, 2);
    g.draw_string(0, 0, "A", None, None);
    let cmds = g.renderer.commands();
    assert_eq!(cmds.len(), 1);
    match &cmds[0] {
        DrawCommand::SpritePartial { blend, alpha, atlas, .. } => {
            assert_eq!(*blend, 0x123456);
            assert_eq!(*alpha, Real::from_frac(1, 2));
            assert_eq!(atlas.id, 1);
        },
        _ => panic!(),
    }
}
