//! Packs a bitmap font into one binary atlas and reads it back.
//!
//! A font comes as a descriptor, a text of lines that each name an entry and
//! list its fields as `key=value`, and as pages, the compressed images that
//! hold the glyphs. [`parse`] turns the descriptor into tokens and the tokens
//! into records; [`atlas`] gathers records and pages in a [`HieroAtlas`],
//! writes it to bytes, reads it back, and decodes any of its pages.

// Names that only contracts and proofs use look unused once these are erased.
#![allow(unused_imports)]

pub mod atlas;
pub mod chars;
pub mod encoding;
pub mod err;
pub mod parse;
pub mod split;
pub mod text;

pub use atlas::{
    build, AtlasBuilder, HieroAtlas, HieroBitmapInfo, HieroCommon, HieroIncomplete, HieroInfo,
    HieroPage, PageInfo,
};
pub use err::{Error, Field, PageUnpackError, ParseError, Row};
