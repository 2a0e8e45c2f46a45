//! Rendering of label images for a fixed-height dot-matrix print head.
//!
//! A label is composed by applying an ordered list of drawing operations to a
//! monochrome [`framebuffer::Framebuffer`]: text runs (pre-rasterized into
//! plain glyph data), horizontal padding, and a reserved barcode kind that is
//! reported as unsupported.  The finished canvas is exported as row-major
//! packed bytes for printer and file consumers.

pub mod error;
pub mod framebuffer;
pub mod layout;
pub mod ops;
pub mod render;
