//! The renderer, modelled as a command recorder.
//!
//! The engine treats its rasterizer as commit-ordered: calls within a
//! frame are rendered in submission order. The recorder keeps exactly
//! that order as a sequence of commands, so the submission order of a
//! frame is a value contracts can speak about, and any conforming
//! backend can replay it.

use vstd::prelude::*;
use crate::math::Real;

verus! {

/// Opaque handle identifying a rectangle within a texture atlas.
#[derive(Clone, Copy, Debug, PartialEq, Eq, Structural)]
pub struct AtlasRef {
    pub id: u32,
}

/// One renderer submission.
#[derive(Clone, Debug)]
pub enum DrawCommand {
    /// Establishes the projection for subsequent draw calls.
    SetView {
        window_w: u32,
        window_h: u32,
        unscaled_w: u32,
        unscaled_h: u32,
        src_x: i32,
        src_y: i32,
        src_w: i32,
        src_h: i32,
        angle: Real,
        port_x: i32,
        port_y: i32,
        port_w: i32,
        port_h: i32,
    },
    /// A whole-sprite blit.
    Sprite {
        atlas: AtlasRef,
        x: Real,
        y: Real,
        xscale: Real,
        yscale: Real,
        angle: Real,
        blend: i32,
        alpha: Real,
    },
    /// A blit of a source sub-rectangle.
    SpritePartial {
        atlas: AtlasRef,
        src_x: Real,
        src_y: Real,
        src_w: Real,
        src_h: Real,
        x: Real,
        y: Real,
        xscale: Real,
        yscale: Real,
        angle: Real,
        blend: i32,
        alpha: Real,
    },
    /// Ends the frame.
    Finish { window_w: u32, window_h: u32 },
}

/// The command recorder; its view is the submission order so far.
#[derive(Debug)]
pub struct Renderer {
    commands: Vec<DrawCommand>,
}

impl View for Renderer {
    type V = Seq<DrawCommand>;

    closed spec fn view(&self) -> Seq<DrawCommand> {
        self.commands@
    }
}

impl Renderer {
    /// A recorder with no submissions yet.
    pub fn new() -> (r: Renderer)
        ensures
            r@ == Seq::<DrawCommand>::empty(),
    {
        Renderer { commands: Vec::new() }
    }

    /// The submissions so far, oldest first.
    pub fn commands(&self) -> (r: &Vec<DrawCommand>)
        ensures
            r@ == self@,
    {
        &self.commands
    }

    /// Establishes the projection for subsequent draw calls.
    pub fn set_view(
        &mut self,
        window_w: u32,
        window_h: u32,
        unscaled_w: u32,
        unscaled_h: u32,
        src_x: i32,
        src_y: i32,
        src_w: i32,
        src_h: i32,
        angle: Real,
        port_x: i32,
        port_y: i32,
        port_w: i32,
        port_h: i32,
    )
        ensures
            final(self)@ == old(self)@.push(
                (DrawCommand::SetView {
                    window_w,
                    window_h,
                    unscaled_w,
                    unscaled_h,
                    src_x,
                    src_y,
                    src_w,
                    src_h,
                    angle,
                    port_x,
                    port_y,
                    port_w,
                    port_h,
                }),
            ),
    {
        self.commands.push(
            DrawCommand::SetView {
                window_w,
                window_h,
                unscaled_w,
                unscaled_h,
                src_x,
                src_y,
                src_w,
                src_h,
                angle,
                port_x,
                port_y,
                port_w,
                port_h,
            },
        );
    }

    /// Records a whole-sprite blit.
    pub fn draw_sprite(
        &mut self,
        atlas: AtlasRef,
        x: Real,
        y: Real,
        xscale: Real,
        yscale: Real,
        angle: Real,
        blend: i32,
        alpha: Real,
    )
        ensures
            final(self)@ == old(self)@.push(
                (DrawCommand::Sprite { atlas, x, y, xscale, yscale, angle, blend, alpha }),
            ),
    {
        self.commands.push(DrawCommand::Sprite { atlas, x, y, xscale, yscale, angle, blend, alpha });
    }

    /// Records a blit of a source sub-rectangle.
    pub fn draw_sprite_partial(
        &mut self,
        atlas: AtlasRef,
        src_x: Real,
        src_y: Real,
        src_w: Real,
        src_h: Real,
        x: Real,
        y: Real,
        xscale: Real,
        yscale: Real,
        angle: Real,
        blend: i32,
        alpha: Real,
    )
        ensures
            final(self)@ == old(self)@.push(
                (DrawCommand::SpritePartial {
                    atlas,
                    src_x,
                    src_y,
                    src_w,
                    src_h,
                    x,
                    y,
                    xscale,
                    yscale,
                    angle,
                    blend,
                    alpha,
                }),
            ),
    {
        self.commands.push(
            DrawCommand::SpritePartial {
                atlas,
                src_x,
                src_y,
                src_w,
                src_h,
                x,
                y,
                xscale,
                yscale,
                angle,
                blend,
                alpha,
            },
        );
    }

    /// Records the end of the frame.
    pub fn finish(&mut self, window_w: u32, window_h: u32)
        ensures
            final(self)@ == old(self)@.push((DrawCommand::Finish { window_w, window_h })),
    {
        self.commands.push(DrawCommand::Finish { window_w, window_h });
    }
}

} // verus!
