//! Identities of Binary DB files: fixed-size record files, candidate
//! indexes and variable-length payload files.

use vstd::prelude::*;

verus! {

/// A fixed-size record file: its name, layout id and record size.
#[derive(Clone, Debug, PartialEq, Eq)]
pub struct BinaryFileId {
    pub path: String,
    pub layout_id: u32,
    pub record_size: u32,
}

/// A candidate index file; fixed-key indexes record their key size.
#[derive(Clone, Debug, PartialEq, Eq)]
pub struct BinaryIndexId {
    pub path: String,
    pub layout_id: u32,
    pub fixed_key_size: Option<u32>,
    pub plus_one: bool,
}

/// A variable-length payload file.
#[derive(Clone, Debug, PartialEq, Eq)]
pub struct BinaryPayloadFileId {
    pub path: String,
    pub layout_id: u32,
}

impl BinaryFileId {
    pub fn new(path: &str, layout_id: u32, record_size: u32) -> (r: Self)
        ensures
            r.path@ == path@,
            r.layout_id == layout_id,
            r.record_size == record_size,
    {
        BinaryFileId { path: path.to_owned(), layout_id, record_size }
    }
}

impl BinaryIndexId {
    pub fn new(path: &str, layout_id: u32) -> (r: Self)
        ensures
            r.path@ == path@,
            r.layout_id == layout_id,
            r.fixed_key_size is None,
            !r.plus_one,
    {
        BinaryIndexId { path: path.to_owned(), layout_id, fixed_key_size: None, plus_one: false }
    }

    pub fn new_fixed(path: &str, layout_id: u32, key_size: u32, plus_one: bool) -> (r: Self)
        ensures
            r.path@ == path@,
            r.layout_id == layout_id,
            r.fixed_key_size == Some(key_size),
            r.plus_one == plus_one,
    {
        BinaryIndexId {
            path: path.to_owned(),
            layout_id,
            fixed_key_size: Some(key_size),
            plus_one,
        }
    }
}

impl BinaryPayloadFileId {
    pub fn new(path: &str, layout_id: u32) -> (r: Self)
        ensures
            r.path@ == path@,
            r.layout_id == layout_id,
    {
        BinaryPayloadFileId { path: path.to_owned(), layout_id }
    }
}

} // verus!
