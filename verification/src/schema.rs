//! On-disk schema of the content Binary DB: record layouts, file names and
//! the byte codecs.

pub mod codec;
pub mod files;
pub mod payloads;
pub mod records;
