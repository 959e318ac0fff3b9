//! A quote-image rendering engine: lays a quote and its attribution out in
//! two centred, translucent panels over a background raster, choosing the
//! font scale and the line breaks so that the text fits.

pub mod color;
pub mod commands;
pub mod date;
pub mod error;
pub mod fit;
pub mod measure;
pub mod owners;
pub mod raster;
pub mod render;
pub mod renderer;
pub mod text;
pub mod unsplash;
pub mod wrap;
