//! Rendering-order and numeric core of a legacy 2D game runtime.
//!
//! The crate provides the engine's canonical scalar type ([`math::Real`]),
//! the depth-sorted draw pipeline ([`draw`]), the bitmap-font text layout
//! engine, and the expression-tree data model of the scripting language
//! ([`gml`]). The renderer is modelled as a command recorder so that the
//! exact submission order of a frame is part of each function's contract.

pub mod draw;
pub mod font;
pub mod gml;
pub mod math;
pub mod renderer;
pub mod scene;
