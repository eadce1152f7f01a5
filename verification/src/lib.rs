//! A ray tracer's integer and text logic: argument reading, scene-file
//! vocabulary, render tiling, the row-sharing protocol between a render
//! server and its clients, and the PPM image text.
pub mod text;
pub mod protocol;
pub mod render;
pub mod sharing;
pub mod image;
pub mod args;
pub mod scene;
pub mod menger;
pub mod obj;
pub mod server;
