//! Pixesh: the document model of a small pixel-art editor.
//!
//! Everything that decides what happens to pixels lives here and is verified:
//! layers and animation frames, compositing, brush strokes, Bresenham lines,
//! flood fill, mirroring, the undo/redo history, canvas resize/crop/scale,
//! selection and move tools, and the pixel data of PNG export.
use vstd::prelude::*;

pub mod canvas;
pub mod color;
pub mod config;
pub mod compose;
pub mod document;
pub mod editor;
pub mod export;
pub mod fill;
pub mod grid;
pub mod history;
pub mod keys;
pub mod layers;
pub mod line;
pub mod load;
pub mod paint;
pub mod select;
pub mod text;
pub mod tools;
pub mod transform;

verus! {

} // verus!
