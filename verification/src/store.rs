//! In-memory models of the two stores a duplication spans — the
//! relational store holding project rows and the object-storage bucket
//! holding blobs — together with the cross-store invariant every operation
//! preserves, the guarded CRUD surface, and a runtime audit of the
//! invariant.

use vstd::prelude::*;

use crate::auth::authorize;
use crate::auth::deny_to_error;
use crate::auth::Decision;
use crate::auth::Operation;
use crate::error::Error;
use crate::project::BlobKey;
use crate::project::PrincipalId;
use crate::project::ProjectId;
use crate::project::ProjectMeta;
use crate::project::ProjectRow;

verus! {

/// A stored blob: bytes filed under a bucket-unique key.
pub struct StoredBlob {
    pub key: BlobKey,
    pub bytes: Vec<u8>,
}

/// In-memory model of the object-storage bucket.  Every call is atomic per
/// key; there is no multi-key transaction, which is exactly why duplication
/// needs compensating cleanup.
pub struct ObjectStore {
    pub blobs: Vec<StoredBlob>,
}

impl ObjectStore {
    /// Keys are pairwise distinct.
    pub open spec fn wf(&self) -> bool {
        forall|i: int, j: int|
            #![trigger self.blobs@[i].key, self.blobs@[j].key]
            0 <= i < j < self.blobs@.len() ==> self.blobs@[i].key != self.blobs@[j].key
    }

    /// Some blob is stored under `k`.
    pub open spec fn has_key(&self, k: BlobKey) -> bool {
        exists|i: int| 0 <= i < self.blobs@.len() && (#[trigger] self.blobs@[i]).key == k
    }

    /// The position of the blob stored under `k`.
    pub open spec fn key_index(&self, k: BlobKey) -> int {
        choose|i: int| 0 <= i < self.blobs@.len() && (#[trigger] self.blobs@[i]).key == k
    }

    /// The bytes stored under `k`.
    pub open spec fn blob_at(&self, k: BlobKey) -> Seq<u8> {
        self.blobs@[self.key_index(k)].bytes@
    }

    /// With distinct keys, the blob at position `i` is the one its key
    /// resolves to.
    pub proof fn lemma_key_at(&self, i: int)
        requires
            self.wf(),
            0 <= i < self.blobs@.len(),
        ensures
            self.has_key(self.blobs@[i].key),
            self.key_index(self.blobs@[i].key) == i,
            self.blob_at(self.blobs@[i].key) == self.blobs@[i].bytes@,
    {
        let k = self.blobs@[i].key;
        assert(self.has_key(k));
        let j = self.key_index(k);
        assert(0 <= j < self.blobs@.len() && self.blobs@[j].key == k);
        if i < j {
            assert(self.blobs@[i].key != self.blobs@[j].key);
        } else if j < i {
            assert(self.blobs@[j].key != self.blobs@[i].key);
        }
    }

    /// Decides at runtime whether every stored key is unique.
    fn keys_distinct(&self) -> (b: bool)
        ensures
            b == self.wf(),
    {
        let mut a: usize = 0;
        while a < self.blobs.len()
            invariant
                a <= self.blobs@.len(),
                forall|i: int, j: int|
                    #![trigger self.blobs@[i].key, self.blobs@[j].key]
                    0 <= i < j < self.blobs@.len() && i < a ==> self.blobs@[i].key
                        != self.blobs@[j].key,
            decreases self.blobs@.len() - a,
        {
            let mut c: usize = a + 1;
            while c < self.blobs.len()
                invariant
                    a < self.blobs@.len(),
                    a < c,
                    forall|j: int|
                        a < j < c ==> self.blobs@[a as int].key != (#[trigger] self.blobs@[j]).key,
                decreases self.blobs@.len() - c,
            {
                if self.blobs[a].key == self.blobs[c].key {
                    return false;
                }
                c += 1;
            }
            a += 1;
        }
        true
    }

    /// An empty bucket.
    pub fn new() -> (r: ObjectStore)
        ensures
            r.wf(),
            r.blobs@.len() == 0,
    {
        ObjectStore { blobs: Vec::new() }
    }

    fn find_key(&self, k: BlobKey) -> (r: Option<usize>)
        ensures
            match r {
                Some(i) => i < self.blobs@.len() && self.blobs@[i as int].key == k,
                None => !self.has_key(k),
            },
    {
        let mut i: usize = 0;
        while i < self.blobs.len()
            invariant
                i <= self.blobs@.len(),
                forall|j: int| 0 <= j < i ==> (#[trigger] self.blobs@[j]).key != k,
            decreases self.blobs@.len() - i,
        {
            if self.blobs[i].key == k {
                return Some(i);
            }
            i += 1;
        }
        None
    }

    /// Fetches the bytes stored under `k`, if any.
    pub fn fetch_blob(&self, k: BlobKey) -> (r: Option<&Vec<u8>>)
        requires
            self.wf(),
        ensures
            match r {
                Some(b) => self.has_key(k) && b@ == self.blob_at(k),
                None => !self.has_key(k),
            },
    {
        match self.find_key(k) {
            Some(i) => {
                proof {
                    self.lemma_key_at(i as int);
                }
                Some(&self.blobs[i].bytes)
            },
            None => None,
        }
    }

    /// Stores `bytes` under the fresh key `k`: one per-key atomic write.
    pub fn put_blob(&mut self, k: BlobKey, bytes: Vec<u8>)
        requires
            old(self).wf(),
            !old(self).has_key(k),
        ensures
            final(self).wf(),
            final(self).blobs@.len() == old(self).blobs@.len() + 1,
            forall|i: int|
                0 <= i < old(self).blobs@.len() ==> final(self).blobs@[i] == old(self).blobs@[i],
            final(self).blobs@.last().key == k,
            final(self).blobs@.last().bytes == bytes,
    {
        self.blobs.push(StoredBlob { key: k, bytes });
        proof {
            let n = old(self).blobs@.len() as int;
            assert forall|i: int, j: int|
                0 <= i < j < self.blobs@.len() implies self.blobs@[i].key
                != self.blobs@[j].key by {
                if j == n {
                    if self.blobs@[i].key == k {
                        assert(old(self).blobs@[i].key == k);
                        assert(old(self).has_key(k));
                    }
                } else {
                    assert(old(self).blobs@[i].key != old(self).blobs@[j].key);
                }
            }
        }
    }

    /// Deletes the blob stored under `k`, if any: one per-key atomic delete.
    pub fn delete_blob(&mut self, k: BlobKey)
        requires
            old(self).wf(),
        ensures
            final(self).wf(),
            old(self).has_key(k) ==> final(self).blobs@ == old(self).blobs@.remove(
                old(self).key_index(k),
            ),
            !old(self).has_key(k) ==> *final(self) == *old(self),
    {
        match self.find_key(k) {
            Some(i) => {
                proof {
                    self.lemma_key_at(i as int);
                }
                let _ = self.blobs.remove(i);
                proof {
                    assert forall|a: int, b: int|
                        0 <= a < b < self.blobs@.len() implies self.blobs@[a].key
                        != self.blobs@[b].key by {
                        let a0: int = if a < i { a } else { a + 1 };
                        let b0: int = if b < i { b } else { b + 1 };
                        assert(self.blobs@[a] == old(self).blobs@[a0]);
                        assert(self.blobs@[b] == old(self).blobs@[b0]);
                        assert(old(self).blobs@[a0].key != old(self).blobs@[b0].key);
                    }
                }
            },
            None => {},
        }
    }

    /// Lists the keys stored under the given project's scope: every key the
    /// result holds is stored and scoped to the project, and every stored
    /// key scoped to the project is in the result.
    pub fn list_keys(&self, project: ProjectId) -> (r: Vec<BlobKey>)
        requires
            self.wf(),
        ensures
            forall|t: int|
                0 <= t < r@.len() ==> (#[trigger] r@[t]).project == project && self.has_key(r@[t]),
            forall|b: int|
                0 <= b < self.blobs@.len() && (#[trigger] self.blobs@[b]).key.project == project
                    ==> r@.contains(self.blobs@[b].key),
    {
        let mut r: Vec<BlobKey> = Vec::new();
        let mut i: usize = 0;
        while i < self.blobs.len()
            invariant
                self.wf(),
                i <= self.blobs@.len(),
                forall|t: int|
                    0 <= t < r@.len() ==> (#[trigger] r@[t]).project == project && self.has_key(
                        r@[t],
                    ),
                forall|b: int|
                    0 <= b < i && (#[trigger] self.blobs@[b]).key.project == project
                        ==> r@.contains(self.blobs@[b].key),
            decreases self.blobs@.len() - i,
        {
            let ghost r_old = r@;
            if self.blobs[i].key.project == project {
                r.push(self.blobs[i].key);
                proof {
                    self.lemma_key_at(i as int);
                    assert(r@[r@.len() - 1] == self.blobs@[i as int].key);
                    assert(r@.contains(self.blobs@[i as int].key));
                    assert forall|b: int|
                        0 <= b < i && (#[trigger] self.blobs@[b]).key.project
                            == project implies r@.contains(self.blobs@[b].key) by {
                        let t = choose|t: int| 0 <= t < r_old.len() && r_old[t] == self.blobs@[b].key;
                        assert(r@[t] == self.blobs@[b].key);
                    }
                }
            }
            i += 1;
        }
        r
    }

    /// How one per-key delete changes what the bucket answers: the deleted
    /// key is gone, every other key still resolves, to the same bytes.
    pub proof fn lemma_delete_membership(pre: Self, post: Self, k: BlobKey)
        requires
            pre.wf(),
            post.wf(),
            pre.has_key(k) ==> post.blobs@ == pre.blobs@.remove(pre.key_index(k)),
            !pre.has_key(k) ==> post.blobs@ == pre.blobs@,
        ensures
            !post.has_key(k),
            forall|k2: BlobKey| k2 != k ==> (#[trigger] post.has_key(k2) <==> pre.has_key(k2)),
            forall|k2: BlobKey|
                k2 != k && pre.has_key(k2) ==> #[trigger] post.blob_at(k2) == pre.blob_at(k2),
    {
        if !pre.has_key(k) {
            if post.has_key(k) {
                let b = post.key_index(k);
                assert(0 <= b < post.blobs@.len() && post.blobs@[b].key == k);
                assert(pre.blobs@[b].key == k);
                assert(pre.has_key(k));
            }
            assert forall|k2: BlobKey| k2 != k implies (#[trigger] post.has_key(k2)
                <==> pre.has_key(k2)) by {
                assert(post.blobs@ == pre.blobs@);
            }
            assert forall|k2: BlobKey|
                k2 != k && pre.has_key(k2) implies #[trigger] post.blob_at(k2) == pre.blob_at(
                k2,
            ) by {
                assert(post.blobs@ == pre.blobs@);
            }
        } else {
            let pos = pre.key_index(k);
            assert(0 <= pos < pre.blobs@.len() && pre.blobs@[pos].key == k);
            pre.lemma_key_at(pos);
            if post.has_key(k) {
                let b = post.key_index(k);
                assert(0 <= b < post.blobs@.len() && post.blobs@[b].key == k);
                let b0: int = if b < pos {
                    b
                } else {
                    b + 1
                };
                assert(pre.blobs@[b0].key == k);
                pre.lemma_key_at(b0);
            }
            assert forall|k2: BlobKey| k2 != k implies (#[trigger] post.has_key(k2)
                <==> pre.has_key(k2)) by {
                if post.has_key(k2) {
                    let b = post.key_index(k2);
                    assert(0 <= b < post.blobs@.len() && post.blobs@[b].key == k2);
                    let b0: int = if b < pos {
                        b
                    } else {
                        b + 1
                    };
                    assert(pre.blobs@[b0].key == k2);
                    assert(pre.has_key(k2));
                }
                if pre.has_key(k2) {
                    let b0 = pre.key_index(k2);
                    assert(0 <= b0 < pre.blobs@.len() && pre.blobs@[b0].key == k2);
                    assert(b0 != pos);
                    let b: int = if b0 < pos {
                        b0
                    } else {
                        b0 - 1
                    };
                    assert(post.blobs@[b] == pre.blobs@[b0]);
                    assert(post.has_key(k2));
                }
            }
            assert forall|k2: BlobKey|
                k2 != k && pre.has_key(k2) implies #[trigger] post.blob_at(k2) == pre.blob_at(
                k2,
            ) by {
                let b0 = pre.key_index(k2);
                assert(0 <= b0 < pre.blobs@.len() && pre.blobs@[b0].key == k2);
                pre.lemma_key_at(b0);
                assert(b0 != pos);
                let b: int = if b0 < pos {
                    b0
                } else {
                    b0 - 1
                };
                assert(post.blobs@[b] == pre.blobs@[b0]);
                post.lemma_key_at(b);
            }
        }
    }

    /// The storage-level copy: reads the bytes under `src` and writes them,
    /// independently, under the fresh key `dst`.
    pub fn copy_blob(&mut self, src: BlobKey, dst: BlobKey)
        requires
            old(self).wf(),
            old(self).has_key(src),
            !old(self).has_key(dst),
        ensures
            final(self).wf(),
            final(self).blobs@.len() == old(self).blobs@.len() + 1,
            forall|i: int|
                0 <= i < old(self).blobs@.len() ==> final(self).blobs@[i] == old(self).blobs@[i],
            final(self).blobs@.last().key == dst,
            final(self).blobs@.last().bytes@ == old(self).blob_at(src),
    {
        match self.find_key(src) {
            Some(i) => {
                proof {
                    self.lemma_key_at(i as int);
                }
                let bytes = crate::project::copy_bytes(&self.blobs[i].bytes);
                self.put_blob(dst, bytes);
            },
            None => {
                proof {
                    assert(false);
                }
            },
        }
    }
}

/// In-memory model of the relational store: project rows, plus the id
/// sequence the store allocates new identities from.  The single-row insert
/// is atomic; there is no transaction spanning this store and the bucket.
pub struct Database {
    pub rows: Vec<ProjectRow>,
    pub next_id: u64,
}

impl Database {
    /// Ids are pairwise distinct and below the allocation cursor.
    pub open spec fn wf(&self) -> bool {
        &&& forall|i: int, j: int|
            #![trigger self.rows@[i].id, self.rows@[j].id]
            0 <= i < j < self.rows@.len() ==> self.rows@[i].id != self.rows@[j].id
        &&& forall|i: int|
            0 <= i < self.rows@.len() ==> (#[trigger] self.rows@[i]).id.0 < self.next_id
    }

    /// Some row has id `id`.
    pub open spec fn has_id(&self, id: ProjectId) -> bool {
        exists|i: int| 0 <= i < self.rows@.len() && (#[trigger] self.rows@[i]).id == id
    }

    /// The position of the row with id `id`.
    pub open spec fn row_index(&self, id: ProjectId) -> int {
        choose|i: int| 0 <= i < self.rows@.len() && (#[trigger] self.rows@[i]).id == id
    }

    /// The row with id `id`.
    pub open spec fn row_of(&self, id: ProjectId) -> ProjectRow {
        self.rows@[self.row_index(id)]
    }

    /// With distinct ids, the row at position `i` is the one its id
    /// resolves to.
    pub proof fn lemma_row_at(&self, i: int)
        requires
            self.wf(),
            0 <= i < self.rows@.len(),
        ensures
            self.has_id(self.rows@[i].id),
            self.row_index(self.rows@[i].id) == i,
            self.row_of(self.rows@[i].id) == self.rows@[i],
    {
        let id = self.rows@[i].id;
        assert(self.has_id(id));
        let j = self.row_index(id);
        assert(0 <= j < self.rows@.len() && self.rows@[j].id == id);
        if i < j {
            assert(self.rows@[i].id != self.rows@[j].id);
        } else if j < i {
            assert(self.rows@[j].id != self.rows@[i].id);
        }
    }

    /// Decides at runtime whether every row id is unique and below the
    /// allocation cursor.
    fn rows_consistent(&self) -> (b: bool)
        ensures
            b == self.wf(),
    {
        let mut a: usize = 0;
        while a < self.rows.len()
            invariant
                a <= self.rows@.len(),
                forall|i: int, j: int|
                    #![trigger self.rows@[i].id, self.rows@[j].id]
                    0 <= i < j < self.rows@.len() && i < a ==> self.rows@[i].id
                        != self.rows@[j].id,
                forall|i: int| 0 <= i < a ==> (#[trigger] self.rows@[i]).id.0 < self.next_id,
            decreases self.rows@.len() - a,
        {
            if self.rows[a].id.0 >= self.next_id {
                return false;
            }
            let mut c: usize = a + 1;
            while c < self.rows.len()
                invariant
                    a < self.rows@.len(),
                    a < c,
                    forall|j: int|
                        a < j < c ==> self.rows@[a as int].id != (#[trigger] self.rows@[j]).id,
                decreases self.rows@.len() - c,
            {
                if self.rows[a].id == self.rows[c].id {
                    return false;
                }
                c += 1;
            }
            a += 1;
        }
        true
    }

    /// An empty store.
    pub fn new() -> (r: Database)
        ensures
            r.wf(),
            r.rows@.len() == 0,
            r.next_id == 0,
    {
        Database { rows: Vec::new(), next_id: 0 }
    }

    pub(crate) fn find_index(&self, id: ProjectId) -> (r: Option<usize>)
        ensures
            match r {
                Some(i) => i < self.rows@.len() && self.rows@[i as int].id == id,
                None => !self.has_id(id),
            },
    {
        let mut i: usize = 0;
        while i < self.rows.len()
            invariant
                i <= self.rows@.len(),
                forall|j: int| 0 <= j < i ==> (#[trigger] self.rows@[j]).id != id,
            decreases self.rows@.len() - i,
        {
            if self.rows[i].id == id {
                return Some(i);
            }
            i += 1;
        }
        None
    }

    /// The snapshot read: the row with id `id` and its asset list, as one
    /// consistent value, if such a row exists.
    pub fn find(&self, id: ProjectId) -> (r: Option<&ProjectRow>)
        requires
            self.wf(),
        ensures
            match r {
                Some(p) => self.has_id(id) && *p == self.row_of(id),
                None => !self.has_id(id),
            },
    {
        match self.find_index(id) {
            Some(i) => {
                proof {
                    self.lemma_row_at(i as int);
                }
                Some(&self.rows[i])
            },
            None => None,
        }
    }

    /// The transactional single-row delete.
    pub(crate) fn remove_row(&mut self, idx: usize)
        requires
            old(self).wf(),
            idx < old(self).rows@.len(),
        ensures
            final(self).wf(),
            final(self).rows@ == old(self).rows@.remove(idx as int),
            final(self).next_id == old(self).next_id,
    {
        let _ = self.rows.remove(idx);
        proof {
            assert forall|a: int, b: int|
                0 <= a < b < self.rows@.len() implies self.rows@[a].id != self.rows@[b].id by {
                let a0: int = if a < idx {
                    a
                } else {
                    a + 1
                };
                let b0: int = if b < idx {
                    b
                } else {
                    b + 1
                };
                assert(self.rows@[a] == old(self).rows@[a0]);
                assert(self.rows@[b] == old(self).rows@[b0]);
                assert(old(self).rows@[a0].id != old(self).rows@[b0].id);
            }
            assert forall|i: int|
                0 <= i < self.rows@.len() implies (#[trigger] self.rows@[i]).id.0
                < self.next_id by {
                let i0: int = if i < idx {
                    i
                } else {
                    i + 1
                };
                assert(self.rows@[i] == old(self).rows@[i0]);
                assert(old(self).rows@[i0].id.0 < old(self).next_id);
            }
        }
    }

    /// The transactional single-row insert, at the allocation cursor.
    pub fn insert_row(&mut self, row: ProjectRow)
        requires
            old(self).wf(),
            row.id.0 == old(self).next_id,
            old(self).next_id < u64::MAX,
        ensures
            final(self).wf(),
            final(self).rows@ == old(self).rows@.push(row),
            final(self).next_id == old(self).next_id + 1,
    {
        self.rows.push(row);
        self.next_id = self.next_id + 1;
        proof {
            let n = old(self).rows@.len() as int;
            assert forall|i: int, j: int|
                0 <= i < j < self.rows@.len() implies self.rows@[i].id != self.rows@[j].id by {
                if j == n {
                    assert(old(self).rows@[i].id.0 < old(self).next_id);
                } else {
                    assert(old(self).rows@[i].id != old(self).rows@[j].id);
                }
            }
        }
    }
}

/// The two stores a duplication spans.  The orchestrator keeps the
/// well-formedness below across every operation, successful or failed:
/// a committed row never references a blob that does not exist, and no
/// blob outlives the row that owns it.
pub struct Stores {
    pub db: Database,
    pub obj: ObjectStore,
}

impl Stores {
    /// Cross-store well-formedness:
    /// - both stores are internally well formed;
    /// - asset keys are canonical: the `j`-th asset reference of a row is the
    ///   key scoped to that row's id with index `j`, so no two projects ever
    ///   share a key;
    /// - every asset reference resolves to a stored blob;
    /// - every stored blob is referenced by the row its key is scoped to.
    pub open spec fn wf(&self) -> bool {
        &&& self.db.wf()
        &&& self.obj.wf()
        &&& forall|i: int, j: int|
            #![trigger self.db.rows@[i].assets@[j]]
            0 <= i < self.db.rows@.len() && 0 <= j < self.db.rows@[i].assets@.len()
                ==> self.db.rows@[i].assets@[j] == (BlobKey {
                project: self.db.rows@[i].id,
                index: j as usize,
            })
        &&& forall|i: int, j: int|
            #![trigger self.db.rows@[i].assets@[j]]
            0 <= i < self.db.rows@.len() && 0 <= j < self.db.rows@[i].assets@.len()
                ==> self.obj.has_key(self.db.rows@[i].assets@[j])
        &&& forall|b: int|
            0 <= b < self.obj.blobs@.len() ==> {
                let k = (#[trigger] self.obj.blobs@[b]).key;
                self.db.has_id(k.project) && k.index < self.db.row_of(k.project).assets@.len()
            }
    }

    /// Every stored blob's key is scoped to an already-allocated project id,
    /// so keys scoped to a not-yet-allocated id are fresh.
    pub proof fn lemma_blob_projects_allocated(&self)
        requires
            self.wf(),
        ensures
            forall|b: int|
                0 <= b < self.obj.blobs@.len() ==> (#[trigger] self.obj.blobs@[b]).key.project.0
                    < self.db.next_id,
    {
        assert forall|b: int|
            0 <= b < self.obj.blobs@.len() implies (#[trigger] self.obj.blobs@[b]).key.project.0
            < self.db.next_id by {
            let k = self.obj.blobs@[b].key;
            assert(self.db.has_id(k.project));
            let i = self.db.row_index(k.project);
            assert(0 <= i < self.db.rows@.len() && self.db.rows@[i].id == k.project);
            assert(self.db.rows@[i].id.0 < self.db.next_id);
        }
    }

    /// Two empty stores.
    pub fn new() -> (r: Stores)
        ensures
            r.wf(),
            r.db.rows@.len() == 0,
            r.db.next_id == 0,
            r.obj.blobs@.len() == 0,
    {
        Stores { db: Database::new(), obj: ObjectStore::new() }
    }

    /// Decides at runtime whether every row's asset references are
    /// canonically scoped and resolve to stored blobs.
    fn assets_resolve(&self) -> (b: bool)
        ensures
            b == (forall|i: int, j: int|
                #![trigger self.db.rows@[i].assets@[j]]
                0 <= i < self.db.rows@.len() && 0 <= j < self.db.rows@[i].assets@.len() ==> {
                    &&& self.db.rows@[i].assets@[j] == (BlobKey {
                        project: self.db.rows@[i].id,
                        index: j as usize,
                    })
                    &&& self.obj.has_key(self.db.rows@[i].assets@[j])
                }),
    {
        let mut a: usize = 0;
        while a < self.db.rows.len()
            invariant
                a <= self.db.rows@.len(),
                forall|i: int, j: int|
                    #![trigger self.db.rows@[i].assets@[j]]
                    0 <= i < a && 0 <= j < self.db.rows@[i].assets@.len() ==> {
                        &&& self.db.rows@[i].assets@[j] == (BlobKey {
                            project: self.db.rows@[i].id,
                            index: j as usize,
                        })
                        &&& self.obj.has_key(self.db.rows@[i].assets@[j])
                    },
            decreases self.db.rows@.len() - a,
        {
            let mut c: usize = 0;
            while c < self.db.rows[a].assets.len()
                invariant
                    a < self.db.rows@.len(),
                    c <= self.db.rows@[a as int].assets@.len(),
                    forall|j: int|
                        0 <= j < c ==> {
                            &&& (#[trigger] self.db.rows@[a as int].assets@[j]) == (BlobKey {
                                project: self.db.rows@[a as int].id,
                                index: j as usize,
                            })
                            &&& self.obj.has_key(self.db.rows@[a as int].assets@[j])
                        },
                decreases self.db.rows@[a as int].assets@.len() - c,
            {
                let key = self.db.rows[a].assets[c];
                let expected = BlobKey { project: self.db.rows[a].id, index: c };
                if key != expected {
                    return false;
                }
                if self.obj.find_key(key).is_none() {
                    return false;
                }
                c += 1;
            }
            a += 1;
        }
        true
    }

    /// Decides at runtime whether every stored blob is referenced by the
    /// row its key is scoped to — the sweep that finds orphaned blobs.
    fn blobs_owned(&self) -> (b: bool)
        requires
            self.db.wf(),
        ensures
            b == (forall|b2: int|
                0 <= b2 < self.obj.blobs@.len() ==> {
                    let k = (#[trigger] self.obj.blobs@[b2]).key;
                    self.db.has_id(k.project) && k.index < self.db.row_of(k.project).assets@.len()
                }),
    {
        let mut a: usize = 0;
        while a < self.obj.blobs.len()
            invariant
                self.db.wf(),
                a <= self.obj.blobs@.len(),
                forall|b2: int|
                    0 <= b2 < a ==> {
                        let k = (#[trigger] self.obj.blobs@[b2]).key;
                        self.db.has_id(k.project) && k.index < self.db.row_of(
                            k.project,
                        ).assets@.len()
                    },
            decreases self.obj.blobs@.len() - a,
        {
            let k = self.obj.blobs[a].key;
            match self.db.find_index(k.project) {
                None => {
                    return false;
                },
                Some(i) => {
                    proof {
                        self.db.lemma_row_at(i as int);
                    }
                    if k.index >= self.db.rows[i].assets.len() {
                        return false;
                    }
                },
            }
            a += 1;
        }
        true
    }

    /// Runtime audit of the whole cross-store invariant: unique ids and
    /// keys, canonically scoped references that all resolve, and no blob
    /// without its owning row.  Answers exactly whether `wf` holds, so an
    /// unverified caller can test the stores before trusting them.
    pub fn audit(&self) -> (b: bool)
        ensures
            b == self.wf(),
    {
        if !self.db.rows_consistent() {
            return false;
        }
        if !self.obj.keys_distinct() {
            return false;
        }
        if !self.assets_resolve() {
            return false;
        }
        if !self.blobs_owned() {
            return false;
        }
        true
    }

    /// Creates an empty project owned by `principal`.  Allowed for every
    /// authenticated principal; refused only when no principal is present.
    pub fn create_project(
        &mut self,
        principal: Option<PrincipalId>,
        meta: ProjectMeta,
        now: u64,
    ) -> (r: Result<ProjectId, Error>)
        requires
            old(self).wf(),
            old(self).db.next_id < u64::MAX,
        ensures
            final(self).wf(),
            match r {
                Ok(id) => {
                    &&& principal matches Some(u) && final(self).db.rows@.last().owner == u
                    &&& id == (ProjectId { 0: old(self).db.next_id })
                    &&& final(self).obj == old(self).obj
                    &&& final(self).db.next_id == old(self).db.next_id + 1
                    &&& final(self).db.rows@.len() == old(self).db.rows@.len() + 1
                    &&& forall|i: int|
                        0 <= i < old(self).db.rows@.len() ==> final(self).db.rows@[i] == old(
                            self,
                        ).db.rows@[i]
                    &&& final(self).db.rows@.last().id == id
                    &&& final(self).db.rows@.last().meta == meta
                    &&& final(self).db.rows@.last().assets@.len() == 0
                    &&& final(self).db.rows@.last().created_at == now
                    &&& final(self).db.rows@.last().modified_at == now
                },
                Err(e) => e == Error::Unauthenticated && principal is None && *final(self)
                    == *old(self),
            },
    {
        let d = authorize(principal, None, Operation::Create);
        if let (Some(u), Decision::Allowed) = (principal, d) {
            let id = ProjectId(self.db.next_id);
            let row = ProjectRow {
                id,
                owner: u,
                meta,
                assets: Vec::new(),
                created_at: now,
                modified_at: now,
            };
            self.db.insert_row(row);
            proof {
                self.lemma_wf_after_push_row(*old(self));
            }
            Ok(id)
        } else {
            Err(Error::Unauthenticated)
        }
    }

    /// Re-establishes cross-store well-formedness after a row was appended
    /// whose asset references all resolve, the bucket left as it was.
    proof fn lemma_wf_after_push_row(&self, pre: Stores)
        requires
            pre.wf(),
            self.db.wf(),
            self.obj == pre.obj,
            self.db.rows@.len() == pre.db.rows@.len() + 1,
            forall|i: int| 0 <= i < pre.db.rows@.len() ==> self.db.rows@[i] == pre.db.rows@[i],
            forall|j: int|
                0 <= j < self.db.rows@.last().assets@.len()
                    ==> #[trigger] self.db.rows@.last().assets@[j] == (BlobKey {
                    project: self.db.rows@.last().id,
                    index: j as usize,
                }),
            forall|j: int|
                0 <= j < self.db.rows@.last().assets@.len() ==> self.obj.has_key(
                    #[trigger] self.db.rows@.last().assets@[j],
                ),
        ensures
            self.wf(),
    {
        let n = pre.db.rows@.len() as int;
        assert forall|i: int, j: int|
            0 <= i < self.db.rows@.len() && 0 <= j < self.db.rows@[i].assets@.len() implies {
            &&& #[trigger] self.db.rows@[i].assets@[j] == (BlobKey {
                project: self.db.rows@[i].id,
                index: j as usize,
            })
            &&& self.obj.has_key(self.db.rows@[i].assets@[j])
        } by {
            if i < n {
                assert(self.db.rows@[i] == pre.db.rows@[i]);
                assert(pre.db.rows@[i].assets@[j] == (BlobKey {
                    project: pre.db.rows@[i].id,
                    index: j as usize,
                }));
                assert(pre.obj.has_key(pre.db.rows@[i].assets@[j]));
            } else {
                assert(self.db.rows@[i] == self.db.rows@.last());
            }
        }
        assert forall|b: int| 0 <= b < self.obj.blobs@.len() implies {
            let k = (#[trigger] self.obj.blobs@[b]).key;
            self.db.has_id(k.project) && k.index < self.db.row_of(k.project).assets@.len()
        } by {
            let k = self.obj.blobs@[b].key;
            assert(pre.db.has_id(k.project));
            let i = pre.db.row_index(k.project);
            assert(0 <= i < pre.db.rows@.len() && pre.db.rows@[i].id == k.project);
            assert(self.db.rows@[i] == pre.db.rows@[i]);
            self.db.lemma_row_at(i);
            pre.db.lemma_row_at(i);
        }
    }

    /// Appends an asset to a project the principal owns.  The bytes reach
    /// the bucket first and the row is extended after, so a committed
    /// reference never dangles.
    pub fn add_asset(
        &mut self,
        principal: Option<PrincipalId>,
        project_id: ProjectId,
        bytes: Vec<u8>,
        now: u64,
    ) -> (r: Result<BlobKey, Error>)
        requires
            old(self).wf(),
        ensures
            final(self).wf(),
            match r {
                Ok(k) => {
                    let idx = old(self).db.row_index(project_id);
                    let old_row = old(self).db.rows@[idx];
                    &&& principal matches Some(u) && old_row.owner == u
                    &&& old(self).db.has_id(project_id)
                    &&& k == (BlobKey { project: project_id, index: old_row.assets@.len() as usize })
                    &&& final(self).db.next_id == old(self).db.next_id
                    &&& final(self).db.rows@.len() == old(self).db.rows@.len()
                    &&& forall|i: int|
                        0 <= i < old(self).db.rows@.len() && i != idx
                            ==> final(self).db.rows@[i] == old(self).db.rows@[i]
                    &&& final(self).db.rows@[idx].id == old_row.id
                    &&& final(self).db.rows@[idx].owner == old_row.owner
                    &&& final(self).db.rows@[idx].meta == old_row.meta
                    &&& final(self).db.rows@[idx].created_at == old_row.created_at
                    &&& final(self).db.rows@[idx].modified_at == now
                    &&& final(self).db.rows@[idx].assets@ == old_row.assets@.push(k)
                    &&& final(self).obj.blobs@.len() == old(self).obj.blobs@.len() + 1
                    &&& forall|b: int|
                        0 <= b < old(self).obj.blobs@.len() ==> final(self).obj.blobs@[b] == old(
                            self,
                        ).obj.blobs@[b]
                    &&& final(self).obj.blobs@.last().key == k
                    &&& final(self).obj.blobs@.last().bytes == bytes
                },
                Err(e) => *final(self) == *old(self) && match e {
                    Error::Unauthenticated => principal is None,
                    Error::NotFound => principal is Some && !old(self).db.has_id(project_id),
                    Error::Denied => principal matches Some(u) && old(self).db.has_id(project_id)
                        && old(self).db.row_of(project_id).owner != u,
                    _ => false,
                },
            },
    {
        let d = {
            let found = self.db.find(project_id);
            authorize(principal, found, Operation::Update)
        };
        match d {
            Decision::Denied(rz) => {
                return Err(deny_to_error(rz));
            },
            Decision::Allowed => {},
        }
        let idx = match self.db.find_index(project_id) {
            Some(i) => i,
            None => {
                proof {
                    assert(false);
                }
                return Err(Error::NotFound);
            },
        };
        proof {
            self.db.lemma_row_at(idx as int);
        }
        let k = BlobKey { project: project_id, index: self.db.rows[idx].assets.len() };
        proof {
            if self.obj.has_key(k) {
                let b = self.obj.key_index(k);
                assert(0 <= b < self.obj.blobs@.len() && self.obj.blobs@[b].key == k);
                assert(k.index < self.db.row_of(k.project).assets@.len());
            }
        }
        self.obj.put_blob(k, bytes);
        let row = &mut self.db.rows[idx];
        row.assets.push(k);
        row.modified_at = now;
        proof {
            self.lemma_wf_after_asset_push(*old(self), idx as int, k);
        }
        Ok(k)
    }

    /// Re-establishes cross-store well-formedness after one blob was
    /// appended to the bucket and the matching reference appended to the
    /// row that owns it.
    proof fn lemma_wf_after_asset_push(&self, pre: Stores, idx: int, k: BlobKey)
        requires
            pre.wf(),
            0 <= idx < pre.db.rows@.len(),
            k == (BlobKey {
                project: pre.db.rows@[idx].id,
                index: pre.db.rows@[idx].assets@.len() as usize,
            }),
            self.db.next_id == pre.db.next_id,
            self.db.rows@.len() == pre.db.rows@.len(),
            forall|i: int|
                0 <= i < pre.db.rows@.len() && i != idx ==> self.db.rows@[i] == pre.db.rows@[i],
            self.db.rows@[idx].id == pre.db.rows@[idx].id,
            self.db.rows@[idx].assets@ == pre.db.rows@[idx].assets@.push(k),
            self.obj.wf(),
            self.obj.blobs@.len() == pre.obj.blobs@.len() + 1,
            forall|b: int| 0 <= b < pre.obj.blobs@.len() ==> self.obj.blobs@[b] == pre.obj.blobs@[b],
            self.obj.blobs@.last().key == k,
        ensures
            self.wf(),
    {
        let n = pre.db.rows@.len() as int;
        assert forall|i: int, j: int|
            0 <= i < j < self.db.rows@.len() implies self.db.rows@[i].id != self.db.rows@[j].id by {
            assert(self.db.rows@[i].id == pre.db.rows@[i].id);
            assert(self.db.rows@[j].id == pre.db.rows@[j].id);
            assert(pre.db.rows@[i].id != pre.db.rows@[j].id);
        }
        assert forall|i: int|
            0 <= i < self.db.rows@.len() implies (#[trigger] self.db.rows@[i]).id.0
            < self.db.next_id by {
            assert(self.db.rows@[i].id == pre.db.rows@[i].id);
            assert(pre.db.rows@[i].id.0 < pre.db.next_id);
        }
        assert forall|i: int, j: int|
            0 <= i < self.db.rows@.len() && 0 <= j < self.db.rows@[i].assets@.len() implies {
            &&& #[trigger] self.db.rows@[i].assets@[j] == (BlobKey {
                project: self.db.rows@[i].id,
                index: j as usize,
            })
            &&& self.obj.has_key(self.db.rows@[i].assets@[j])
        } by {
            let m = pre.db.rows@[idx].assets@.len() as int;
            if i == idx && j == m {
                assert(self.db.rows@[i].assets@[j] == k);
                self.obj.lemma_key_at(self.obj.blobs@.len() - 1);
            } else {
                assert(self.db.rows@[i].assets@[j] == pre.db.rows@[i].assets@[j]);
                assert(pre.db.rows@[i].assets@[j] == (BlobKey {
                    project: pre.db.rows@[i].id,
                    index: j as usize,
                }));
                assert(pre.obj.has_key(pre.db.rows@[i].assets@[j]));
                let b = pre.obj.key_index(pre.db.rows@[i].assets@[j]);
                assert(self.obj.blobs@[b] == pre.obj.blobs@[b]);
                assert(self.obj.has_key(self.db.rows@[i].assets@[j]));
            }
        }
        assert forall|b: int| 0 <= b < self.obj.blobs@.len() implies {
            let kb = (#[trigger] self.obj.blobs@[b]).key;
            self.db.has_id(kb.project) && kb.index < self.db.row_of(kb.project).assets@.len()
        } by {
            if b < pre.obj.blobs@.len() {
                let kb = self.obj.blobs@[b].key;
                assert(pre.obj.blobs@[b].key == kb);
                assert(pre.db.has_id(kb.project));
                let i = pre.db.row_index(kb.project);
                assert(0 <= i < pre.db.rows@.len() && pre.db.rows@[i].id == kb.project);
                pre.db.lemma_row_at(i);
                assert(self.db.rows@[i].id == kb.project);
                self.db.lemma_row_at(i);
                assert(kb.index < pre.db.rows@[i].assets@.len());
                assert(pre.db.rows@[i].assets@.len() <= self.db.rows@[i].assets@.len());
            } else {
                assert(self.obj.blobs@[b].key == k);
                self.db.lemma_row_at(idx);
                assert(k.index < self.db.rows@[idx].assets@.len());
            }
        }
    }

    /// Replaces the metadata of a project the principal owns; the asset
    /// list and identity are untouched.
    pub fn update_project(
        &mut self,
        principal: Option<PrincipalId>,
        project_id: ProjectId,
        meta: ProjectMeta,
        now: u64,
    ) -> (r: Result<(), Error>)
        requires
            old(self).wf(),
        ensures
            final(self).wf(),
            match r {
                Ok(_) => {
                    let idx = old(self).db.row_index(project_id);
                    let old_row = old(self).db.rows@[idx];
                    &&& principal matches Some(u) && old_row.owner == u
                    &&& old(self).db.has_id(project_id)
                    &&& final(self).obj == old(self).obj
                    &&& final(self).db.next_id == old(self).db.next_id
                    &&& final(self).db.rows@.len() == old(self).db.rows@.len()
                    &&& forall|i: int|
                        0 <= i < old(self).db.rows@.len() && i != idx
                            ==> final(self).db.rows@[i] == old(self).db.rows@[i]
                    &&& final(self).db.rows@[idx].id == old_row.id
                    &&& final(self).db.rows@[idx].owner == old_row.owner
                    &&& final(self).db.rows@[idx].meta == meta
                    &&& final(self).db.rows@[idx].assets == old_row.assets
                    &&& final(self).db.rows@[idx].created_at == old_row.created_at
                    &&& final(self).db.rows@[idx].modified_at == now
                },
                Err(e) => *final(self) == *old(self) && match e {
                    Error::Unauthenticated => principal is None,
                    Error::NotFound => principal is Some && !old(self).db.has_id(project_id),
                    Error::Denied => principal matches Some(u) && old(self).db.has_id(project_id)
                        && old(self).db.row_of(project_id).owner != u,
                    _ => false,
                },
            },
    {
        let d = {
            let found = self.db.find(project_id);
            authorize(principal, found, Operation::Update)
        };
        match d {
            Decision::Denied(rz) => {
                return Err(deny_to_error(rz));
            },
            Decision::Allowed => {},
        }
        let idx = match self.db.find_index(project_id) {
            Some(i) => i,
            None => {
                proof {
                    assert(false);
                }
                return Err(Error::NotFound);
            },
        };
        proof {
            self.db.lemma_row_at(idx as int);
        }
        let row = &mut self.db.rows[idx];
        row.meta = meta;
        row.modified_at = now;
        proof {
            self.lemma_wf_after_meta_update(*old(self), idx as int);
        }
        Ok(())
    }

    /// Re-establishes cross-store well-formedness after a row's metadata
    /// alone was replaced.
    proof fn lemma_wf_after_meta_update(&self, pre: Stores, idx: int)
        requires
            pre.wf(),
            0 <= idx < pre.db.rows@.len(),
            self.obj == pre.obj,
            self.db.next_id == pre.db.next_id,
            self.db.rows@.len() == pre.db.rows@.len(),
            forall|i: int|
                0 <= i < pre.db.rows@.len() && i != idx ==> self.db.rows@[i] == pre.db.rows@[i],
            self.db.rows@[idx].id == pre.db.rows@[idx].id,
            self.db.rows@[idx].assets == pre.db.rows@[idx].assets,
        ensures
            self.wf(),
    {
        assert forall|i: int, j: int|
            0 <= i < j < self.db.rows@.len() implies self.db.rows@[i].id != self.db.rows@[j].id by {
            assert(self.db.rows@[i].id == pre.db.rows@[i].id);
            assert(self.db.rows@[j].id == pre.db.rows@[j].id);
            assert(pre.db.rows@[i].id != pre.db.rows@[j].id);
        }
        assert forall|i: int|
            0 <= i < self.db.rows@.len() implies (#[trigger] self.db.rows@[i]).id.0
            < self.db.next_id by {
            assert(self.db.rows@[i].id == pre.db.rows@[i].id);
            assert(pre.db.rows@[i].id.0 < pre.db.next_id);
        }
        assert forall|i: int, j: int|
            0 <= i < self.db.rows@.len() && 0 <= j < self.db.rows@[i].assets@.len() implies {
            &&& #[trigger] self.db.rows@[i].assets@[j] == (BlobKey {
                project: self.db.rows@[i].id,
                index: j as usize,
            })
            &&& self.obj.has_key(self.db.rows@[i].assets@[j])
        } by {
            assert(self.db.rows@[i].id == pre.db.rows@[i].id);
            assert(self.db.rows@[i].assets == pre.db.rows@[i].assets);
            assert(pre.db.rows@[i].assets@[j] == (BlobKey {
                project: pre.db.rows@[i].id,
                index: j as usize,
            }));
            assert(pre.obj.has_key(pre.db.rows@[i].assets@[j]));
        }
        assert forall|b: int| 0 <= b < self.obj.blobs@.len() implies {
            let kb = (#[trigger] self.obj.blobs@[b]).key;
            self.db.has_id(kb.project) && kb.index < self.db.row_of(kb.project).assets@.len()
        } by {
            let kb = self.obj.blobs@[b].key;
            assert(pre.db.has_id(kb.project));
            let i = pre.db.row_index(kb.project);
            assert(0 <= i < pre.db.rows@.len() && pre.db.rows@[i].id == kb.project);
            pre.db.lemma_row_at(i);
            assert(self.db.rows@[i].id == kb.project);
            self.db.lemma_row_at(i);
            assert(kb.index < pre.db.rows@[i].assets@.len());
            assert(self.db.rows@[i].assets == pre.db.rows@[i].assets);
        }
    }

    /// Destroys a project the principal owns together with every blob it
    /// owns.  The row is removed first and the blobs after it, so no row
    /// ever persists with dangling references; the blobs a removed row
    /// orphans mid-way are all gone by the time the operation returns.
    pub fn delete_project(&mut self, principal: Option<PrincipalId>, project_id: ProjectId) -> (r:
        Result<(), Error>)
        requires
            old(self).wf(),
        ensures
            final(self).wf(),
            match r {
                Ok(_) => {
                    let idx = old(self).db.row_index(project_id);
                    &&& principal matches Some(u) && old(self).db.rows@[idx].owner == u
                    &&& old(self).db.has_id(project_id)
                    &&& final(self).db.next_id == old(self).db.next_id
                    &&& final(self).db.rows@ == old(self).db.rows@.remove(idx)
                    &&& forall|k: BlobKey|
                        #[trigger] final(self).obj.has_key(k) <==> (old(self).obj.has_key(k)
                            && k.project != project_id)
                    &&& forall|k: BlobKey|
                        #[trigger] final(self).obj.has_key(k) ==> final(self).obj.blob_at(k) == old(
                            self,
                        ).obj.blob_at(k)
                },
                Err(e) => *final(self) == *old(self) && match e {
                    Error::Unauthenticated => principal is None,
                    Error::NotFound => principal is Some && !old(self).db.has_id(project_id),
                    Error::Denied => principal matches Some(u) && old(self).db.has_id(project_id)
                        && old(self).db.row_of(project_id).owner != u,
                    _ => false,
                },
            },
    {
        let d = {
            let found = self.db.find(project_id);
            authorize(principal, found, Operation::Delete)
        };
        match d {
            Decision::Denied(rz) => {
                return Err(deny_to_error(rz));
            },
            Decision::Allowed => {},
        }
        let idx = match self.db.find_index(project_id) {
            Some(i) => i,
            None => {
                proof {
                    assert(false);
                }
                return Err(Error::NotFound);
            },
        };
        proof {
            self.db.lemma_row_at(idx as int);
        }
        let m = self.db.rows[idx].assets.len();
        let ghost pre = *self;
        self.db.remove_row(idx);
        let mut j: usize = 0;
        while j < m
            invariant
                pre == *old(self),
                pre.wf(),
                idx < pre.db.rows@.len(),
                pre.db.rows@[idx as int].id == project_id,
                idx as int == pre.db.row_index(project_id),
                m == pre.db.rows@[idx as int].assets@.len(),
                j <= m,
                self.db.rows@ == pre.db.rows@.remove(idx as int),
                self.db.next_id == pre.db.next_id,
                self.db.wf(),
                self.obj.wf(),
                forall|k: BlobKey|
                    #[trigger] self.obj.has_key(k) <==> (pre.obj.has_key(k) && !(k.project
                        == project_id && k.index < j)),
                forall|k: BlobKey|
                    #[trigger] self.obj.has_key(k) ==> self.obj.blob_at(k) == pre.obj.blob_at(k),
            decreases m - j,
        {
            let k = BlobKey { project: project_id, index: j };
            let ghost prev = self.obj;
            self.obj.delete_blob(k);
            proof {
                ObjectStore::lemma_delete_membership(prev, self.obj, k);
                assert forall|k2: BlobKey| #[trigger] self.obj.has_key(k2) <==> (pre.obj.has_key(k2)
                    && !(k2.project == project_id && k2.index < j + 1)) by {
                    if k2 == k {
                        assert(!self.obj.has_key(k2));
                    } else {
                        assert(self.obj.has_key(k2) <==> prev.has_key(k2));
                    }
                }
                assert forall|k2: BlobKey| #[trigger] self.obj.has_key(k2) implies self.obj.blob_at(
                    k2,
                ) == pre.obj.blob_at(k2) by {
                    assert(k2 != k);
                    assert(prev.has_key(k2));
                    assert(self.obj.blob_at(k2) == prev.blob_at(k2));
                }
            }
            j += 1;
        }
        proof {
            let pidx = idx as int;
            // a key scoped to the deleted project with index at or past `m`
            // was never stored, so the whole key space of the project is gone
            assert forall|k: BlobKey| #[trigger] self.obj.has_key(k) <==> (pre.obj.has_key(k)
                && k.project != project_id) by {
                if pre.obj.has_key(k) && k.project == project_id && k.index >= m {
                    let b = pre.obj.key_index(k);
                    assert(0 <= b < pre.obj.blobs@.len() && pre.obj.blobs@[b].key == k);
                    assert(pre.db.has_id(k.project));
                    assert(k.index < pre.db.row_of(k.project).assets@.len());
                }
            }
            // surviving rows still reference only stored blobs, canonically
            assert forall|i: int, j2: int|
                0 <= i < self.db.rows@.len() && 0 <= j2 < self.db.rows@[i].assets@.len() implies {
                &&& #[trigger] self.db.rows@[i].assets@[j2] == (BlobKey {
                    project: self.db.rows@[i].id,
                    index: j2 as usize,
                })
                &&& self.obj.has_key(self.db.rows@[i].assets@[j2])
            } by {
                let i0: int = if i < pidx {
                    i
                } else {
                    i + 1
                };
                assert(self.db.rows@[i] == pre.db.rows@[i0]);
                assert(pre.db.rows@[i0].assets@[j2] == (BlobKey {
                    project: pre.db.rows@[i0].id,
                    index: j2 as usize,
                }));
                assert(pre.obj.has_key(pre.db.rows@[i0].assets@[j2]));
                assert(pre.db.rows@[i0].id != project_id);
                assert(self.obj.has_key(self.db.rows@[i].assets@[j2]));
            }
            // and every remaining blob still has its owning row
            assert forall|b: int| 0 <= b < self.obj.blobs@.len() implies {
                let kb = (#[trigger] self.obj.blobs@[b]).key;
                self.db.has_id(kb.project) && kb.index < self.db.row_of(kb.project).assets@.len()
            } by {
                self.obj.lemma_key_at(b);
                let kb = self.obj.blobs@[b].key;
                assert(self.obj.has_key(kb));
                assert(pre.obj.has_key(kb) && kb.project != project_id);
                assert(pre.db.has_id(kb.project));
                let i0 = pre.db.row_index(kb.project);
                assert(0 <= i0 < pre.db.rows@.len() && pre.db.rows@[i0].id == kb.project);
                assert(i0 != pidx);
                let i: int = if i0 < pidx {
                    i0
                } else {
                    i0 - 1
                };
                assert(self.db.rows@[i] == pre.db.rows@[i0]);
                self.db.lemma_row_at(i);
                assert(kb.index < pre.db.rows@[i0].assets@.len());
            }
        }
        Ok(())
    }

    /// Lists every project's identity.
    pub fn list_projects(&self) -> (r: Vec<ProjectId>)
        ensures
            r@.len() == self.db.rows@.len(),
            forall|i: int| 0 <= i < r@.len() ==> r@[i] == self.db.rows@[i].id,
    {
        let mut r: Vec<ProjectId> = Vec::new();
        let mut i: usize = 0;
        while i < self.db.rows.len()
            invariant
                i <= self.db.rows@.len(),
                r@.len() == i as int,
                forall|j: int| 0 <= j < i ==> r@[j] == self.db.rows@[j].id,
            decreases self.db.rows@.len() - i,
        {
            r.push(self.db.rows[i].id);
            i += 1;
        }
        r
    }

    /// Fetches the project with id `id`, if any.
    pub fn get_project(&self, id: ProjectId) -> (r: Option<&ProjectRow>)
        requires
            self.wf(),
        ensures
            match r {
                Some(p) => self.db.has_id(id) && *p == self.db.row_of(id),
                None => !self.db.has_id(id),
            },
    {
        self.db.find(id)
    }
}

} // verus!
