//! Verified core of a GPU particle simulation and its immediate-mode GUI:
//! particle classification and GPU encodings, compute dispatch sizing, GPU
//! picking decisions, glyph atlas packing, a procedural bitmap font, text
//! editing, widget event routing, draw-call batching and overlay controls.

pub mod particle;
pub mod dispatch;
pub mod picking;
pub mod atlas;
pub mod text;
pub mod debug_font;
pub mod render;
pub mod node;
pub mod layout;
pub mod events;
pub mod input;
pub mod text_input;
pub mod button;
pub mod toggle;
pub mod slider;
pub mod stats;
