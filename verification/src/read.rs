//! What readers of the content Binary DB hand out: record views, snapshot
//! root locators and the resolvers that map snapshots to their root trees.

use vstd::prelude::*;

use crate::error::StoreResult;
use crate::json::{field_get, field_index, field_set, lemma_field_index, lemma_field_index_of_first};
use crate::schema::payloads::BinarySnapshotPayload;
use crate::schema::records::{
    BinaryBlobRecord, BinaryObjectPackMemberRecord, BinaryObjectPackRecord, BinarySnapshotRecord,
    BinaryTreePackRecord, BinaryTreeRecord,
};
use crate::stores::BinaryDbTreeStore;
use crate::text::str_eq;

verus! {

// ----- record views ----------------------------------------------------------

#[derive(Clone, Debug, PartialEq, Eq)]
pub struct BinaryBlobView {
    pub blob_index: u32,
    pub record: BinaryBlobRecord,
    pub blob_id: String,
    pub sha256: String,
    pub size_bytes: u64,
    pub pack_member_index: Option<u32>,
}

#[derive(Clone, Debug, PartialEq, Eq)]
pub struct BinarySnapshotView {
    pub snapshot_index: u32,
    pub record: BinarySnapshotRecord,
    pub payload: BinarySnapshotPayload,
    pub snapshot_id: String,
    pub parent_snapshot_ids: Vec<String>,
    pub primary_parent_snapshot_id: Option<String>,
    pub parent_snapshot_id: Option<String>,
    pub root_tree_pack_id: Option<String>,
    pub root_tree_pack_path: Option<String>,
    pub root_tree_id: Option<String>,
    pub root_tree_index: Option<u32>,
    pub root_entry_ordinal: u32,
    pub manifest_hash: String,
    pub snapshot_kind: String,
    pub file_count: u64,
    pub total_bytes: u64,
    pub created_at_s: u64,
}

#[derive(Clone, Debug, PartialEq, Eq)]
pub struct BinaryObjectPackView {
    pub pack_index: u32,
    pub record: BinaryObjectPackRecord,
    pub pack_id: String,
    pub pack_path: String,
    pub pack_format: String,
}

#[derive(Clone, Debug, PartialEq, Eq)]
pub struct BinaryObjectPackMemberView {
    pub member_index: u32,
    pub record: BinaryObjectPackMemberRecord,
    pub pack_id: String,
    pub blob_id: String,
    pub entry_name: String,
    pub base_blob_id: Option<String>,
}

#[derive(Clone, Debug, PartialEq, Eq)]
pub struct BinaryTreePackView {
    pub tree_pack_index: u32,
    pub record: BinaryTreePackRecord,
    pub pack_id: String,
    pub pack_path: String,
    pub pack_format: String,
}

#[derive(Clone, Debug, PartialEq, Eq)]
pub struct BinaryTreeView {
    pub tree_index: u32,
    pub record: BinaryTreeRecord,
    pub tree_id: String,
    pub tree_pack_id: Option<String>,
}

#[derive(Clone, Debug, PartialEq, Eq)]
pub struct BinaryTreeEntryView {
    pub entry_ordinal: u32,
    pub entry_name: String,
    pub entry_type: String,
    pub target_id: String,
    pub size_bytes: Option<u64>,
    pub mode: Option<String>,
}

// ----- snapshot roots --------------------------------------------------------

/// The root tree of a snapshot, by tree id.
#[derive(Clone, Debug, PartialEq, Eq)]
pub struct BinaryTreeRootLocator {
    pub tree_id: String,
}

impl BinaryTreeRootLocator {
    pub fn new(tree_id: String) -> (r: Self)
        ensures
            r.tree_id@ == tree_id@,
    {
        BinaryTreeRootLocator { tree_id }
    }
}

/// Finds the root tree of a snapshot.
pub trait BinaryTreeRootResolver {
    fn resolve_snapshot_root(&self, snapshot_id: &str) -> StoreResult<Option<BinaryTreeRootLocator>>;
}

/// A resolver from a fixed table of snapshot roots.
pub struct StaticBinaryTreeRootResolver {
    roots: Vec<(String, BinaryTreeRootLocator)>,
}

impl StaticBinaryTreeRootResolver {
    /// The table: each snapshot id with the tree id of its root.
    pub closed spec fn roots_view(&self) -> Seq<(Seq<char>, Seq<char>)> {
        Seq::new(self.roots@.len(), |i: int| (self.roots@[i].0@, self.roots@[i].1.tree_id@))
    }

    pub fn new() -> (r: Self)
        ensures
            r.roots_view() == Seq::<(Seq<char>, Seq<char>)>::empty(),
    {
        let r = StaticBinaryTreeRootResolver { roots: Vec::new() };
        assert(r.roots_view() =~= Seq::<(Seq<char>, Seq<char>)>::empty());
        r
    }

    /// The resolver with the root of `snapshot_id` set to `root`.
    pub fn with_snapshot_root(self, snapshot_id: String, root: BinaryTreeRootLocator) -> (r: Self)
        ensures
            r.roots_view() == field_set(self.roots_view(), snapshot_id@, root.tree_id@),
    {
        let mut s = self;
        s.insert_snapshot_root(snapshot_id, root);
        s
    }

    /// Sets the root of `snapshot_id` to `root`, replacing any earlier one.
    pub fn insert_snapshot_root(&mut self, snapshot_id: String, root: BinaryTreeRootLocator)
        ensures
            final(self).roots_view() == field_set(old(self).roots_view(), snapshot_id@, root.tree_id@),
    {
        let ghost rv = self.roots_view();
        proof {
            lemma_field_index(rv, snapshot_id@);
        }
        let mut i: usize = 0;
        while i < self.roots.len()
            invariant
                rv == old(self).roots_view(),
                self.roots_view() == rv,
                self.roots@ == old(self).roots@,
                i <= self.roots@.len(),
                forall|j: int| 0 <= j < i ==> rv[j].0 != snapshot_id@,
            decreases self.roots@.len() - i,
        {
            if str_eq(self.roots[i].0.as_str(), snapshot_id.as_str()) {
                proof {
                    lemma_field_index_of_first(rv, snapshot_id@, i as int);
                }
                let ghost entry = (snapshot_id@, root.tree_id@);
                self.roots.set(i, (snapshot_id, root));
                assert(self.roots_view() =~= rv.update(i as int, entry));
                return;
            }
            i = i + 1;
        }
        proof {
            if field_index(rv, snapshot_id@) >= 0 {
                assert(rv[field_index(rv, snapshot_id@)].0 == snapshot_id@);
            }
        }
        let ghost entry = (snapshot_id@, root.tree_id@);
        self.roots.push((snapshot_id, root));
        assert(self.roots_view() =~= rv.push(entry));
    }
}

impl Default for StaticBinaryTreeRootResolver {
    fn default() -> (r: Self)
        ensures
            r.roots_view() == Seq::<(Seq<char>, Seq<char>)>::empty(),
    {
        StaticBinaryTreeRootResolver::new()
    }
}

impl BinaryTreeRootResolver for StaticBinaryTreeRootResolver {
    /// The root recorded for `snapshot_id`, if any; never fails.
    fn resolve_snapshot_root(&self, snapshot_id: &str) -> (r: StoreResult<Option<BinaryTreeRootLocator>>)
        ensures
            r matches Ok(Some(l)) ==> field_get(self.roots_view(), snapshot_id@) == Some(l.tree_id@),
            r matches Ok(None) ==> field_get(self.roots_view(), snapshot_id@) is None,
            r is Ok,
    {
        let ghost rv = self.roots_view();
        proof {
            lemma_field_index(rv, snapshot_id@);
        }
        let mut i: usize = 0;
        while i < self.roots.len()
            invariant
                rv == self.roots_view(),
                i <= self.roots@.len(),
                forall|j: int| 0 <= j < i ==> rv[j].0 != snapshot_id@,
            decreases self.roots@.len() - i,
        {
            if str_eq(self.roots[i].0.as_str(), snapshot_id) {
                proof {
                    lemma_field_index_of_first(rv, snapshot_id@, i as int);
                }
                let tree_id = self.roots[i].1.tree_id.clone();
                return Ok(Some(BinaryTreeRootLocator { tree_id }));
            }
            i = i + 1;
        }
        proof {
            if field_index(rv, snapshot_id@) >= 0 {
                assert(rv[field_index(rv, snapshot_id@)].0 == snapshot_id@);
            }
        }
        Ok(None)
    }
}

// ----- the snapshot reader ---------------------------------------------------

/// Reads snapshots through a tree store, finding their root trees with a
/// root resolver.
pub struct BinaryDbSnapshotReader<B, const WRITE_LAYOUT: u32, R> {
    tree_store: BinaryDbTreeStore<B, WRITE_LAYOUT>,
    root_resolver: R,
}

impl<B, const WRITE_LAYOUT: u32, R> BinaryDbSnapshotReader<B, WRITE_LAYOUT, R> {
    pub closed spec fn spec_tree_store(&self) -> BinaryDbTreeStore<B, WRITE_LAYOUT> {
        self.tree_store
    }

    pub closed spec fn spec_root_resolver(&self) -> R {
        self.root_resolver
    }

    pub fn with_root_resolver(tree_store: BinaryDbTreeStore<B, WRITE_LAYOUT>, root_resolver: R) -> (r:
        Self)
        ensures
            r.spec_tree_store() == tree_store,
            r.spec_root_resolver() == root_resolver,
    {
        BinaryDbSnapshotReader { tree_store, root_resolver }
    }

    pub fn tree_store(&self) -> (t: &BinaryDbTreeStore<B, WRITE_LAYOUT>)
        ensures
            *t == self.spec_tree_store(),
    {
        &self.tree_store
    }

    pub fn root_resolver(&self) -> (r: &R)
        ensures
            *r == self.spec_root_resolver(),
    {
        &self.root_resolver
    }
}

impl<B, const WRITE_LAYOUT: u32> BinaryDbSnapshotReader<B, WRITE_LAYOUT, StaticBinaryTreeRootResolver> {
    /// A reader with an empty table of snapshot roots.
    pub fn new(tree_store: BinaryDbTreeStore<B, WRITE_LAYOUT>) -> (r: Self)
        ensures
            r.spec_tree_store() == tree_store,
            r.spec_root_resolver().roots_view() == Seq::<(Seq<char>, Seq<char>)>::empty(),
    {
        BinaryDbSnapshotReader { tree_store, root_resolver: StaticBinaryTreeRootResolver::new() }
    }

    pub fn with_snapshot_root(self, snapshot_id: String, root: BinaryTreeRootLocator) -> (r: Self)
        ensures
            r.spec_tree_store() == self.spec_tree_store(),
            r.spec_root_resolver().roots_view() == field_set(
                self.spec_root_resolver().roots_view(),
                snapshot_id@,
                root.tree_id@,
            ),
    {
        let mut s = self;
        s.insert_snapshot_root(snapshot_id, root);
        s
    }

    pub fn insert_snapshot_root(&mut self, snapshot_id: String, root: BinaryTreeRootLocator)
        ensures
            final(self).spec_tree_store() == old(self).spec_tree_store(),
            final(self).spec_root_resolver().roots_view() == field_set(
                old(self).spec_root_resolver().roots_view(),
                snapshot_id@,
                root.tree_id@,
            ),
    {
        self.root_resolver.insert_snapshot_root(snapshot_id, root);
    }
}

} // verus!
