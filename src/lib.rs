//! Reading, patching and writing Program Database files at the level of the
//! multi-stream container, the stream directory and a few inner streams.

pub mod codec;
pub mod dbi;
pub mod directory;
pub mod error;
pub mod label;
pub mod modi;
pub mod msf;
pub mod omap;
pub mod pagelist;
pub mod view;
