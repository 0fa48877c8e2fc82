//! Export of laid-out page frames into PDF documents.
//!
//! The library decides what is written: the interned resources, the content
//! stream of every page with its graphics-state cache, the encoded image data,
//! the font descriptors and the references of the object graph. Numbers are
//! fixed-point thousandths throughout (see `geom`).

pub mod compress;
pub mod content;
pub mod document;
pub mod font;
pub mod frame;
pub mod geom;
pub mod image;
pub mod lang;
pub mod page;
pub mod refs;
pub mod remap;
pub mod table;
pub mod text;

pub use document::pdf;
