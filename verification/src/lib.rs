//! The terminal side of the Kitty graphics protocol.
//!
//! Graphics commands travel inside APC escape sequences
//! (`ESC _ G <parameters> ; <base64 data> ESC \`). This crate separates them
//! from the rest of a terminal's output, parses their parameters, puts chunked
//! transfers back together, decodes the pixels and keeps the resulting images
//! and placements for the renderer.

pub mod apc;
pub mod bytes;
pub mod cup;
pub mod decimal;
pub mod laws;
pub mod params;
pub mod placeholder;
pub mod raster;
pub mod storage;

pub use apc::extract_kitty_apc_buffered;
pub use cup::extract_last_cup;
pub use params::KittyParams;
pub use placeholder::{diacritic_to_index, image_id_from_fg, KITTY_PLACEHOLDER_CHAR};
pub use raster::{RenderImage, TransferError};
pub use storage::{ImagePlacement, ImageStorage, StoredImage};
