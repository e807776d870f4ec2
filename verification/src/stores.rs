//! The content stores of the Binary DB: each holds a database handle and
//! the repository root, and names the record files, indexes and payload
//! files it reads and writes at its write layout.

use vstd::prelude::*;

use crate::binary_db::{BinaryFileId, BinaryIndexId, BinaryPayloadFileId};
use crate::schema::codec::{
    BinaryBlobCodec, BinaryObjectPackCodec, BinaryObjectPackMemberCodec, BinarySnapshotCodec,
    BinaryTreeCodec, BinaryTreePackCodec,
};
use crate::schema::files::{
    BLOB_BIN, BLOB_ID_IDX, BLOB_RECORD_SIZE, OBJECT_PACK_BIN, OBJECT_PACK_ID_IDX,
    OBJECT_PACK_MEMBER_BIN, OBJECT_PACK_MEMBER_RECORD_SIZE, OBJECT_PACK_RECORD_SIZE, SNAPSHOT_BIN,
    SNAPSHOT_ID_IDX, SNAPSHOT_PAYLOAD_BIN, SNAPSHOT_RECORD_SIZE, TREE_BIN, TREE_ID_IDX,
    TREE_PACK_BIN, TREE_PACK_ID_IDX, TREE_PACK_RECORD_SIZE, TREE_RECORD_SIZE,
};

verus! {

/// The store of blob records.
pub struct BinaryDbBlobStore<B, const WRITE_LAYOUT: u32> {
    db: B,
    repo_root: String,
}

impl<B, const WRITE_LAYOUT: u32> BinaryDbBlobStore<B, WRITE_LAYOUT> {
    pub closed spec fn spec_db(&self) -> B {
        self.db
    }

    pub closed spec fn spec_repo_root(&self) -> Seq<char> {
        self.repo_root@
    }

    pub fn new(db: B, repo_root: String) -> (s: Self)
        ensures
            s.spec_db() == db,
            s.spec_repo_root() == repo_root@,
    {
        BinaryDbBlobStore { db, repo_root }
    }

    pub fn db(&self) -> (d: &B)
        ensures
            *d == self.spec_db(),
    {
        &self.db
    }

    pub fn repo_root(&self) -> (r: &String)
        ensures
            r@ == self.spec_repo_root(),
    {
        &self.repo_root
    }

    pub fn blob_file() -> (f: BinaryFileId)
        ensures
            f.path@ == BLOB_BIN@,
            f.layout_id == WRITE_LAYOUT,
            f.record_size == BLOB_RECORD_SIZE,
    {
        BinaryBlobCodec::<WRITE_LAYOUT>::record_file()
    }

    pub fn blob_id_index() -> (i: BinaryIndexId)
        ensures
            i.path@ == BLOB_ID_IDX@,
            i.layout_id == WRITE_LAYOUT,
            i.fixed_key_size == Some(10u32),
            i.plus_one,
    {
        BinaryBlobCodec::<WRITE_LAYOUT>::id_index()
    }

    pub fn object_pack_file() -> (f: BinaryFileId)
        ensures
            f.path@ == OBJECT_PACK_BIN@,
            f.layout_id == WRITE_LAYOUT,
            f.record_size == OBJECT_PACK_RECORD_SIZE,
    {
        BinaryObjectPackCodec::<WRITE_LAYOUT>::record_file()
    }

    pub fn object_pack_member_file() -> (f: BinaryFileId)
        ensures
            f.path@ == OBJECT_PACK_MEMBER_BIN@,
            f.layout_id == WRITE_LAYOUT,
            f.record_size == OBJECT_PACK_MEMBER_RECORD_SIZE,
    {
        BinaryObjectPackMemberCodec::<WRITE_LAYOUT>::record_file()
    }
}

/// The store of snapshot records.
pub struct BinaryDbSnapshotStore<B, const WRITE_LAYOUT: u32> {
    db: B,
    repo_root: String,
}

impl<B, const WRITE_LAYOUT: u32> BinaryDbSnapshotStore<B, WRITE_LAYOUT> {
    pub closed spec fn spec_db(&self) -> B {
        self.db
    }

    pub closed spec fn spec_repo_root(&self) -> Seq<char> {
        self.repo_root@
    }

    pub fn new(db: B, repo_root: String) -> (s: Self)
        ensures
            s.spec_db() == db,
            s.spec_repo_root() == repo_root@,
    {
        BinaryDbSnapshotStore { db, repo_root }
    }

    pub fn db(&self) -> (d: &B)
        ensures
            *d == self.spec_db(),
    {
        &self.db
    }

    pub fn repo_root(&self) -> (r: &String)
        ensures
            r@ == self.spec_repo_root(),
    {
        &self.repo_root
    }

    pub fn snapshot_file() -> (f: BinaryFileId)
        ensures
            f.path@ == SNAPSHOT_BIN@,
            f.layout_id == WRITE_LAYOUT,
            f.record_size == SNAPSHOT_RECORD_SIZE,
    {
        BinarySnapshotCodec::<WRITE_LAYOUT>::record_file()
    }

    pub fn snapshot_id_index() -> (i: BinaryIndexId)
        ensures
            i.path@ == SNAPSHOT_ID_IDX@,
            i.layout_id == WRITE_LAYOUT,
            i.fixed_key_size == Some(8u32),
            i.plus_one,
    {
        BinarySnapshotCodec::<WRITE_LAYOUT>::id_index()
    }

    pub fn snapshot_payload_file() -> (f: BinaryPayloadFileId)
        ensures
            f.path@ == SNAPSHOT_PAYLOAD_BIN@,
            f.layout_id == WRITE_LAYOUT,
    {
        BinarySnapshotCodec::<WRITE_LAYOUT>::payload_file()
    }

    pub fn tree_pack_file() -> (f: BinaryFileId)
        ensures
            f.path@ == TREE_PACK_BIN@,
            f.layout_id == WRITE_LAYOUT,
            f.record_size == TREE_PACK_RECORD_SIZE,
    {
        BinaryTreePackCodec::<WRITE_LAYOUT>::record_file()
    }

    pub fn tree_file() -> (f: BinaryFileId)
        ensures
            f.path@ == TREE_BIN@,
            f.layout_id == WRITE_LAYOUT,
            f.record_size == TREE_RECORD_SIZE,
    {
        BinaryTreeCodec::<WRITE_LAYOUT>::record_file()
    }
}

/// The store of object packs and their members.
pub struct BinaryDbObjectPackStore<B, const WRITE_LAYOUT: u32> {
    db: B,
    repo_root: String,
}

impl<B, const WRITE_LAYOUT: u32> BinaryDbObjectPackStore<B, WRITE_LAYOUT> {
    pub closed spec fn spec_db(&self) -> B {
        self.db
    }

    pub closed spec fn spec_repo_root(&self) -> Seq<char> {
        self.repo_root@
    }

    pub fn new(db: B, repo_root: String) -> (s: Self)
        ensures
            s.spec_db() == db,
            s.spec_repo_root() == repo_root@,
    {
        BinaryDbObjectPackStore { db, repo_root }
    }

    pub fn db(&self) -> (d: &B)
        ensures
            *d == self.spec_db(),
    {
        &self.db
    }

    pub fn repo_root(&self) -> (r: &String)
        ensures
            r@ == self.spec_repo_root(),
    {
        &self.repo_root
    }

    pub fn object_pack_file() -> (f: BinaryFileId)
        ensures
            f.path@ == OBJECT_PACK_BIN@,
            f.layout_id == WRITE_LAYOUT,
            f.record_size == OBJECT_PACK_RECORD_SIZE,
    {
        BinaryObjectPackCodec::<WRITE_LAYOUT>::record_file()
    }

    pub fn object_pack_id_index() -> (i: BinaryIndexId)
        ensures
            i.path@ == OBJECT_PACK_ID_IDX@,
            i.layout_id == WRITE_LAYOUT,
            i.fixed_key_size == Some(8u32),
            i.plus_one,
    {
        BinaryObjectPackCodec::<WRITE_LAYOUT>::id_index()
    }

    pub fn object_pack_member_file() -> (f: BinaryFileId)
        ensures
            f.path@ == OBJECT_PACK_MEMBER_BIN@,
            f.layout_id == WRITE_LAYOUT,
            f.record_size == OBJECT_PACK_MEMBER_RECORD_SIZE,
    {
        BinaryObjectPackMemberCodec::<WRITE_LAYOUT>::record_file()
    }

    pub fn blob_file() -> (f: BinaryFileId)
        ensures
            f.path@ == BLOB_BIN@,
            f.layout_id == WRITE_LAYOUT,
            f.record_size == BLOB_RECORD_SIZE,
    {
        BinaryBlobCodec::<WRITE_LAYOUT>::record_file()
    }
}

/// The store of tree packs.
pub struct BinaryDbTreePackStore<B, const WRITE_LAYOUT: u32> {
    db: B,
    repo_root: String,
}

impl<B, const WRITE_LAYOUT: u32> BinaryDbTreePackStore<B, WRITE_LAYOUT> {
    pub closed spec fn spec_db(&self) -> B {
        self.db
    }

    pub closed spec fn spec_repo_root(&self) -> Seq<char> {
        self.repo_root@
    }

    pub fn new(db: B, repo_root: String) -> (s: Self)
        ensures
            s.spec_db() == db,
            s.spec_repo_root() == repo_root@,
    {
        BinaryDbTreePackStore { db, repo_root }
    }

    pub fn db(&self) -> (d: &B)
        ensures
            *d == self.spec_db(),
    {
        &self.db
    }

    pub fn repo_root(&self) -> (r: &String)
        ensures
            r@ == self.spec_repo_root(),
    {
        &self.repo_root
    }

    pub fn tree_pack_file() -> (f: BinaryFileId)
        ensures
            f.path@ == TREE_PACK_BIN@,
            f.layout_id == WRITE_LAYOUT,
            f.record_size == TREE_PACK_RECORD_SIZE,
    {
        BinaryTreePackCodec::<WRITE_LAYOUT>::record_file()
    }

    pub fn tree_pack_id_index() -> (i: BinaryIndexId)
        ensures
            i.path@ == TREE_PACK_ID_IDX@,
            i.layout_id == WRITE_LAYOUT,
            i.fixed_key_size == Some(8u32),
            i.plus_one,
    {
        BinaryTreePackCodec::<WRITE_LAYOUT>::id_index()
    }

    pub fn tree_file() -> (f: BinaryFileId)
        ensures
            f.path@ == TREE_BIN@,
            f.layout_id == WRITE_LAYOUT,
            f.record_size == TREE_RECORD_SIZE,
    {
        BinaryTreeCodec::<WRITE_LAYOUT>::record_file()
    }
}

/// The store of tree records.
pub struct BinaryDbTreeStore<B, const WRITE_LAYOUT: u32> {
    db: B,
    repo_root: String,
}

impl<B, const WRITE_LAYOUT: u32> BinaryDbTreeStore<B, WRITE_LAYOUT> {
    pub closed spec fn spec_db(&self) -> B {
        self.db
    }

    pub closed spec fn spec_repo_root(&self) -> Seq<char> {
        self.repo_root@
    }

    pub fn new(db: B, repo_root: String) -> (s: Self)
        ensures
            s.spec_db() == db,
            s.spec_repo_root() == repo_root@,
    {
        BinaryDbTreeStore { db, repo_root }
    }

    pub fn db(&self) -> (d: &B)
        ensures
            *d == self.spec_db(),
    {
        &self.db
    }

    pub fn repo_root(&self) -> (r: &String)
        ensures
            r@ == self.spec_repo_root(),
    {
        &self.repo_root
    }

    pub fn tree_file() -> (f: BinaryFileId)
        ensures
            f.path@ == TREE_BIN@,
            f.layout_id == WRITE_LAYOUT,
            f.record_size == TREE_RECORD_SIZE,
    {
        BinaryTreeCodec::<WRITE_LAYOUT>::record_file()
    }

    pub fn tree_id_index() -> (i: BinaryIndexId)
        ensures
            i.path@ == TREE_ID_IDX@,
            i.layout_id == WRITE_LAYOUT,
            i.fixed_key_size == Some(10u32),
            i.plus_one,
    {
        BinaryTreeCodec::<WRITE_LAYOUT>::id_index()
    }

    pub fn tree_pack_file() -> (f: BinaryFileId)
        ensures
            f.path@ == TREE_PACK_BIN@,
            f.layout_id == WRITE_LAYOUT,
            f.record_size == TREE_PACK_RECORD_SIZE,
    {
        BinaryTreePackCodec::<WRITE_LAYOUT>::record_file()
    }

    pub fn blob_file() -> (f: BinaryFileId)
        ensures
            f.path@ == BLOB_BIN@,
            f.layout_id == WRITE_LAYOUT,
            f.record_size == BLOB_RECORD_SIZE,
    {
        BinaryBlobCodec::<WRITE_LAYOUT>::record_file()
    }
}

} // verus!
