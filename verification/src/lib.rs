//! shadereye: shader perception tools for language models. This library holds the
//! verified logic: language detection, Shadertoy id handling, image diffing,
//! readback row handling, the browser harness page and transcript collection,
//! and reference lookup.

pub mod browser;
pub mod compile;
pub mod diff;
pub mod encoding;
pub mod image_io;
pub mod reference;
pub mod render;
pub mod shadertoy;
pub mod text;
