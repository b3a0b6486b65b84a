//! The duplication orchestrator: a saga of ordered steps with
//! compensating cleanup in place of a transaction spanning both stores.

use vstd::prelude::*;

use crate::auth::authorize;
use crate::auth::deny_to_error;
use crate::auth::Decision;
use crate::auth::Operation;
use crate::error::Error;
use crate::error::Stage;
use crate::project::clone_meta;
use crate::project::copy_keys;
use crate::project::BlobKey;
use crate::project::PrincipalId;
use crate::project::ProjectId;
use crate::project::ProjectRow;
use crate::store::ObjectStore;
use crate::store::StoredBlob;
use crate::store::Stores;

verus! {

/// The store failures injected into, or observed during, one duplication
/// attempt.  Each field models one kind of call the stores may refuse:
/// the snapshot read, the `n`-th blob copy, the final row insert.
#[derive(Clone, Copy, Debug)]
pub struct StoreFaults {
    pub snapshot_fails: bool,
    pub copy_fail_at: Option<usize>,
    pub insert_fails: bool,
}

impl StoreFaults {
    /// Stores that answer every call.
    pub fn none() -> (r: StoreFaults)
        ensures
            !r.snapshot_fails,
            r.copy_fail_at is None,
            !r.insert_fails,
    {
        StoreFaults { snapshot_fails: false, copy_fail_at: None, insert_fails: false }
    }
}

/// Whether a copy fault is reached when `m` blobs are to be copied: a fault
/// placed on the `n`-th copy fires only if at least `n + 1` copies happen.
pub open spec fn copy_fault_hits(faults: StoreFaults, m: int) -> bool {
    match faults.copy_fail_at {
        Some(n) => n < m,
        None => false,
    }
}

/// The outcome `duplicate` is bound to: which error, if any, a duplication
/// of `source_id` by `principal` reports against the pre-state `pre` under
/// the store behaviour `faults`.  `None` means the duplication succeeds.
pub open spec fn dup_error(
    pre: Stores,
    faults: StoreFaults,
    principal: Option<PrincipalId>,
    source_id: ProjectId,
) -> Option<Error> {
    match principal {
        None => Some(Error::Unauthenticated),
        Some(u) => if !pre.db.has_id(source_id) {
            Some(Error::NotFound)
        } else if pre.db.row_of(source_id).owner != u {
            Some(Error::Denied)
        } else if faults.snapshot_fails {
            Some(Error::StoreUnavailable)
        } else if copy_fault_hits(faults, pre.db.row_of(source_id).assets@.len() as int) {
            Some(Error::DuplicationFailed(Stage::CopyBlob))
        } else if faults.insert_fails {
            Some(Error::DuplicationFailed(Stage::InsertRow))
        } else {
            None
        },
    }
}

/// Two rows with the same identity, owner, metadata, asset list and
/// timestamps.
pub open spec fn row_matches(a: ProjectRow, b: ProjectRow) -> bool {
    &&& a.id == b.id
    &&& a.owner == b.owner
    &&& a.meta == b.meta
    &&& a.assets@ == b.assets@
    &&& a.created_at == b.created_at
    &&& a.modified_at == b.modified_at
}

/// What a successful duplication leaves behind: against pre-state `pre`,
/// the post-state `post` holds one new row — returned as `p`, owned by `u`,
/// carrying a copy of the source's metadata and one fresh asset key per
/// source asset — and one new blob per source asset, byte-identical to the
/// source's blob, under the new project's keys.  Everything else in both
/// stores is exactly as it was.
pub open spec fn dup_success_post(
    pre: Stores,
    post: Stores,
    p: ProjectRow,
    u: PrincipalId,
    source_id: ProjectId,
    now: u64,
) -> bool {
    let src = pre.db.row_of(source_id);
    let m = src.assets@.len() as int;
    let new_id = ProjectId { 0: pre.db.next_id };
    &&& p.id == new_id
    &&& p.owner == u
    &&& p.meta == src.meta
    &&& p.created_at == now
    &&& p.modified_at == now
    &&& p.assets@.len() == m
    &&& forall|j: int|
        0 <= j < m ==> #[trigger] p.assets@[j] == (BlobKey { project: new_id, index: j as usize })
    &&& post.db.next_id == pre.db.next_id + 1
    &&& post.db.rows@.len() == pre.db.rows@.len() + 1
    &&& forall|i: int|
        0 <= i < pre.db.rows@.len() ==> #[trigger] post.db.rows@[i] == pre.db.rows@[i]
    &&& row_matches(post.db.rows@.last(), p)
    &&& post.obj.blobs@.len() == pre.obj.blobs@.len() + m
    &&& forall|b: int|
        0 <= b < pre.obj.blobs@.len() ==> #[trigger] post.obj.blobs@[b] == pre.obj.blobs@[b]
    &&& forall|j: int|
        0 <= j < m ==> (#[trigger] post.obj.blobs@[pre.obj.blobs@.len() + j]).key == (BlobKey {
            project: new_id,
            index: j as usize,
        })
    &&& forall|j: int|
        0 <= j < m ==> (#[trigger] post.obj.blobs@[pre.obj.blobs@.len() + j]).bytes@
            == pre.obj.blob_at(src.assets@[j])
}

/// Compensating cleanup: deletes, newest first, the `count` blobs this
/// attempt appended under the new project's keys, returning the bucket to
/// exactly the state it had when the attempt began.
fn cleanup_copies(
    obj: &mut ObjectStore,
    new_id: ProjectId,
    count: usize,
    Ghost(pre_blobs): Ghost<Seq<StoredBlob>>,
)
    requires
        old(obj).wf(),
        old(obj).blobs@.len() == pre_blobs.len() + count,
        forall|b: int| 0 <= b < pre_blobs.len() ==> old(obj).blobs@[b] == pre_blobs[b],
        forall|l: int|
            0 <= l < count ==> (#[trigger] old(obj).blobs@[pre_blobs.len() + l]).key == (BlobKey {
                project: new_id,
                index: l as usize,
            }),
    ensures
        final(obj).wf(),
        final(obj).blobs@ == pre_blobs,
{
    let mut j = count;
    while j > 0
        invariant
            obj.wf(),
            j <= count,
            obj.blobs@.len() == pre_blobs.len() + j,
            forall|b: int| 0 <= b < pre_blobs.len() ==> obj.blobs@[b] == pre_blobs[b],
            forall|l: int|
                0 <= l < j ==> (#[trigger] obj.blobs@[pre_blobs.len() + l]).key == (BlobKey {
                    project: new_id,
                    index: l as usize,
                }),
        decreases j,
    {
        j -= 1;
        let k = BlobKey { project: new_id, index: j };
        proof {
            let lidx = obj.blobs@.len() - 1;
            assert(lidx == pre_blobs.len() + j as int);
            assert(obj.blobs@[pre_blobs.len() + (j as int)].key == (BlobKey {
                project: new_id,
                index: (j as int) as usize,
            }));
            obj.lemma_key_at(lidx);
            assert(obj.blobs@.last().key == k);
        }
        obj.delete_blob(k);
    }
    proof {
        assert(obj.blobs@ =~= pre_blobs);
    }
}

/// Re-establishes cross-store well-formedness at the end of a successful
/// duplication: the new row was appended with `m` canonical keys scoped to
/// the new id, and the bucket was extended with exactly those keys.
proof fn lemma_wf_after_duplicate(post: Stores, pre: Stores, source_id: ProjectId, m: int)
    requires
        pre.wf(),
        post.db.wf(),
        post.db.rows@.len() == pre.db.rows@.len() + 1,
        forall|i: int| 0 <= i < pre.db.rows@.len() ==> post.db.rows@[i] == pre.db.rows@[i],
        post.db.rows@.last().id == (ProjectId { 0: pre.db.next_id }),
        post.db.rows@.last().assets@.len() == m,
        forall|j: int|
            0 <= j < m ==> #[trigger] post.db.rows@.last().assets@[j] == (BlobKey {
                project: ProjectId { 0: pre.db.next_id },
                index: j as usize,
            }),
        post.obj.wf(),
        post.obj.blobs@.len() == pre.obj.blobs@.len() + m,
        forall|b: int| 0 <= b < pre.obj.blobs@.len() ==> post.obj.blobs@[b] == pre.obj.blobs@[b],
        forall|j: int|
            0 <= j < m ==> (#[trigger] post.obj.blobs@[pre.obj.blobs@.len() + j]).key == (BlobKey {
                project: ProjectId { 0: pre.db.next_id },
                index: j as usize,
            }),
    ensures
        post.wf(),
{
    let n = pre.db.rows@.len() as int;
    let new_id = ProjectId { 0: pre.db.next_id };
    assert forall|i: int, j: int|
        0 <= i < post.db.rows@.len() && 0 <= j < post.db.rows@[i].assets@.len() implies {
        &&& #[trigger] post.db.rows@[i].assets@[j] == (BlobKey {
            project: post.db.rows@[i].id,
            index: j as usize,
        })
        &&& post.obj.has_key(post.db.rows@[i].assets@[j])
    } by {
        if i < n {
            assert(post.db.rows@[i] == pre.db.rows@[i]);
            assert(pre.db.rows@[i].assets@[j] == (BlobKey {
                project: pre.db.rows@[i].id,
                index: j as usize,
            }));
            assert(pre.obj.has_key(pre.db.rows@[i].assets@[j]));
            let b = pre.obj.key_index(pre.db.rows@[i].assets@[j]);
            assert(post.obj.blobs@[b] == pre.obj.blobs@[b]);
            assert(post.obj.has_key(post.db.rows@[i].assets@[j]));
        } else {
            assert(post.db.rows@[i] == post.db.rows@.last());
            assert(post.db.rows@[i].assets@[j] == (BlobKey { project: new_id, index: j as usize }));
            let b = pre.obj.blobs@.len() + j;
            assert(post.obj.blobs@[b].key == (BlobKey { project: new_id, index: j as usize }));
            assert(post.obj.has_key(post.db.rows@[i].assets@[j]));
        }
    }
    assert forall|b: int| 0 <= b < post.obj.blobs@.len() implies {
        let kb = (#[trigger] post.obj.blobs@[b]).key;
        post.db.has_id(kb.project) && kb.index < post.db.row_of(kb.project).assets@.len()
    } by {
        if b < pre.obj.blobs@.len() {
            let kb = post.obj.blobs@[b].key;
            assert(pre.obj.blobs@[b].key == kb);
            assert(pre.db.has_id(kb.project));
            let i = pre.db.row_index(kb.project);
            assert(0 <= i < pre.db.rows@.len() && pre.db.rows@[i].id == kb.project);
            pre.db.lemma_row_at(i);
            assert(post.db.rows@[i] == pre.db.rows@[i]);
            post.db.lemma_row_at(i);
            assert(kb.index < pre.db.rows@[i].assets@.len());
        } else {
            let kb = post.obj.blobs@[b].key;
            let j = b - pre.obj.blobs@.len();
            assert(post.obj.blobs@[pre.obj.blobs@.len() + j].key == (BlobKey {
                project: new_id,
                index: j as usize,
            }));
            post.db.lemma_row_at(n);
            assert(post.db.row_of(new_id) == post.db.rows@.last());
            assert(kb.index < post.db.rows@.last().assets@.len());
        }
    }
}

/// The duplication orchestrator.  Authorizes `source_id` for `principal`,
/// reads the source row as one consistent snapshot, copies each of its
/// blobs to a fresh key scoped to the newly allocated project id, and only
/// then inserts the new row — a committed row never references a missing
/// blob.  If a copy or the insert fails, every blob this attempt copied is
/// deleted again and the attempt reports `DuplicationFailed` with the stage
/// that failed; refusals and `NotFound` are reported before anything is
/// written.  Either way both stores are left well formed, and a failed
/// attempt leaves them exactly as they were.
pub fn duplicate(
    s: &mut Stores,
    faults: StoreFaults,
    principal: Option<PrincipalId>,
    source_id: ProjectId,
    now: u64,
) -> (r: Result<ProjectRow, Error>)
    requires
        old(s).wf(),
        old(s).db.next_id < u64::MAX,
    ensures
        final(s).wf(),
        match dup_error(*old(s), faults, principal, source_id) {
            Some(e) => r matches Err(a) && a == e && final(s).db == old(s).db
                && final(s).obj.blobs@ == old(s).obj.blobs@,
            None => principal matches Some(u) && r matches Ok(p) && dup_success_post(
                *old(s),
                *final(s),
                p,
                u,
                source_id,
                now,
            ),
        },
{
    let d = {
        let found = s.db.find(source_id);
        authorize(principal, found, Operation::Duplicate)
    };
    let u = match d {
        Decision::Denied(rz) => {
            return Err(deny_to_error(rz));
        },
        Decision::Allowed => match principal {
            Some(u) => u,
            None => {
                proof {
                    assert(false);
                }
                return Err(Error::Unauthenticated);
            },
        },
    };
    if faults.snapshot_fails {
        return Err(Error::StoreUnavailable);
    }
    let (src_meta, m) = match s.db.find(source_id) {
        Some(p) => (clone_meta(&p.meta), p.assets.len()),
        None => {
            proof {
                assert(false);
            }
            return Err(Error::NotFound);
        },
    };
    let new_id = ProjectId(s.db.next_id);
    let ghost pre = *s;
    proof {
        let si = pre.db.row_index(source_id);
        assert(0 <= si < pre.db.rows@.len() && pre.db.rows@[si].id == source_id);
    }
    let mut new_assets: Vec<BlobKey> = Vec::new();
    let mut i: usize = 0;
    while i < m
        invariant
            pre == *old(s),
            pre.wf(),
            pre.db.next_id < u64::MAX,
            s.db == pre.db,
            new_id == (ProjectId { 0: pre.db.next_id }),
            principal == Some(u),
            !faults.snapshot_fails,
            pre.db.has_id(source_id),
            pre.db.row_of(source_id).owner == u,
            m == pre.db.row_of(source_id).assets@.len(),
            i <= m,
            match faults.copy_fail_at {
                Some(n) => n >= i,
                None => true,
            },
            new_assets@.len() == i as int,
            forall|j: int|
                0 <= j < i ==> #[trigger] new_assets@[j] == (BlobKey {
                    project: new_id,
                    index: j as usize,
                }),
            s.obj.wf(),
            s.obj.blobs@.len() == pre.obj.blobs@.len() + i,
            forall|b: int| 0 <= b < pre.obj.blobs@.len() ==> s.obj.blobs@[b] == pre.obj.blobs@[b],
            forall|j: int|
                0 <= j < i ==> (#[trigger] s.obj.blobs@[pre.obj.blobs@.len() + j]).key == (BlobKey {
                    project: new_id,
                    index: j as usize,
                }),
            forall|j: int|
                0 <= j < i ==> (#[trigger] s.obj.blobs@[pre.obj.blobs@.len() + j]).bytes@
                    == pre.obj.blob_at(pre.db.row_of(source_id).assets@[j]),
        decreases m - i,
    {
        let fail_now = match faults.copy_fail_at {
            Some(n) => n == i,
            None => false,
        };
        if fail_now {
            cleanup_copies(&mut s.obj, new_id, i, Ghost(pre.obj.blobs@));
            return Err(Error::DuplicationFailed(Stage::CopyBlob));
        }
        let src_key = BlobKey { project: source_id, index: i };
        let dst_key = BlobKey { project: new_id, index: i };
        proof {
            let si = pre.db.row_index(source_id);
            assert(0 <= si < pre.db.rows@.len() && pre.db.rows@[si].id == source_id);
            assert(pre.db.rows@[si].assets@[i as int] == (BlobKey {
                project: source_id,
                index: i,
            }));
            assert(pre.obj.has_key(src_key));
            let bsrc = pre.obj.key_index(src_key);
            assert(0 <= bsrc < pre.obj.blobs@.len() && pre.obj.blobs@[bsrc].key == src_key);
            pre.obj.lemma_key_at(bsrc);
            assert(s.obj.blobs@[bsrc] == pre.obj.blobs@[bsrc]);
            s.obj.lemma_key_at(bsrc);
            if s.obj.has_key(dst_key) {
                let bd = s.obj.key_index(dst_key);
                assert(0 <= bd < s.obj.blobs@.len() && s.obj.blobs@[bd].key == dst_key);
                if bd < pre.obj.blobs@.len() {
                    pre.lemma_blob_projects_allocated();
                    assert(pre.obj.blobs@[bd].key.project.0 < pre.db.next_id);
                } else {
                    let l = bd - pre.obj.blobs@.len();
                    assert(s.obj.blobs@[pre.obj.blobs@.len() + l].key == (BlobKey {
                        project: new_id,
                        index: l as usize,
                    }));
                }
                assert(false);
            }
        }
        s.obj.copy_blob(src_key, dst_key);
        new_assets.push(dst_key);
        i += 1;
    }
    if faults.insert_fails {
        cleanup_copies(&mut s.obj, new_id, m, Ghost(pre.obj.blobs@));
        return Err(Error::DuplicationFailed(Stage::InsertRow));
    }
    let row_meta = clone_meta(&src_meta);
    let row_assets = copy_keys(&new_assets);
    let row = ProjectRow {
        id: new_id,
        owner: u,
        meta: row_meta,
        assets: row_assets,
        created_at: now,
        modified_at: now,
    };
    s.db.insert_row(row);
    let result = ProjectRow {
        id: new_id,
        owner: u,
        meta: src_meta,
        assets: new_assets,
        created_at: now,
        modified_at: now,
    };
    proof {
        lemma_wf_after_duplicate(*s, pre, source_id, m as int);
    }
    Ok(result)
}

} // verus!
