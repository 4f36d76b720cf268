//! A verified point-cloud renderer: a fixed-point transform pipeline —
//! three-axis rotation, orthographic or perspective projection, centering —
//! feeding bounds-checked pixel writes into a framebuffer, with the whole
//! frame's contents specified and proved.

pub mod fixed;
pub mod renderer;
pub mod scene;
pub mod vector2;
pub mod vector3;
