//! The crate-level guarantees of duplication, stated over the same spec
//! functions `duplicate`'s contract uses and proved once for all inputs.

use vstd::prelude::*;

use crate::dup::copy_fault_hits;
use crate::dup::dup_error;
use crate::dup::dup_success_post;
use crate::dup::row_matches;
use crate::dup::StoreFaults;
use crate::error::Error;
use crate::error::Stage;
use crate::project::PrincipalId;
use crate::project::ProjectId;
use crate::project::ProjectRow;
use crate::store::Stores;

verus! {

/// A successful duplication yields a new project with the source's metadata
/// and the same number of assets, each byte-identical to the source's
/// corresponding asset but stored under a distinct key: one that was absent
/// from the bucket before the operation and in particular is never shared
/// with the source.  The source's own blobs are read, not touched.
pub proof fn lemma_duplicate_makes_independent_copy(
    pre: Stores,
    post: Stores,
    p: ProjectRow,
    u: PrincipalId,
    source_id: ProjectId,
    now: u64,
)
    requires
        pre.wf(),
        post.wf(),
        pre.db.has_id(source_id),
        dup_success_post(pre, post, p, u, source_id, now),
    ensures
        p.owner == u,
        p.meta == pre.db.row_of(source_id).meta,
        p.assets@.len() == pre.db.row_of(source_id).assets@.len(),
        forall|j: int| 0 <= j < p.assets@.len() ==> post.obj.has_key(#[trigger] p.assets@[j]),
        forall|j: int|
            0 <= j < p.assets@.len() ==> post.obj.blob_at(#[trigger] p.assets@[j])
                == pre.obj.blob_at(pre.db.row_of(source_id).assets@[j]),
        forall|j: int| 0 <= j < p.assets@.len() ==> !pre.obj.has_key(#[trigger] p.assets@[j]),
        forall|j: int|
            0 <= j < p.assets@.len() ==> #[trigger] p.assets@[j] != pre.db.row_of(
                source_id,
            ).assets@[j],
        forall|j: int|
            0 <= j < p.assets@.len() ==> post.obj.blob_at(
                #[trigger] pre.db.row_of(source_id).assets@[j],
            ) == pre.obj.blob_at(pre.db.row_of(source_id).assets@[j]),
{
    let src = pre.db.row_of(source_id);
    let m = src.assets@.len() as int;
    let pre_len = pre.obj.blobs@.len() as int;
    let si = pre.db.row_index(source_id);
    assert(0 <= si < pre.db.rows@.len() && pre.db.rows@[si].id == source_id);
    assert forall|j: int| 0 <= j < p.assets@.len() implies {
        &&& post.obj.has_key(#[trigger] p.assets@[j])
        &&& post.obj.blob_at(p.assets@[j]) == pre.obj.blob_at(src.assets@[j])
        &&& !pre.obj.has_key(p.assets@[j])
        &&& p.assets@[j] != src.assets@[j]
        &&& post.obj.blob_at(src.assets@[j]) == pre.obj.blob_at(src.assets@[j])
    } by {
        assert(post.obj.blobs@[pre_len + j].key == p.assets@[j]);
        post.obj.lemma_key_at(pre_len + j);
        // the new key was nowhere in the bucket before the operation
        if pre.obj.has_key(p.assets@[j]) {
            let b = pre.obj.key_index(p.assets@[j]);
            assert(0 <= b < pre.obj.blobs@.len() && pre.obj.blobs@[b].key == p.assets@[j]);
            pre.lemma_blob_projects_allocated();
            assert(pre.obj.blobs@[b].key.project.0 < pre.db.next_id);
            assert(false);
        }
        // the source's own blob sits where it sat, with the same bytes
        assert(pre.db.rows@[si].assets@[j] == src.assets@[j]);
        assert(pre.obj.has_key(src.assets@[j]));
        let bs = pre.obj.key_index(src.assets@[j]);
        assert(0 <= bs < pre.obj.blobs@.len() && pre.obj.blobs@[bs].key == src.assets@[j]);
        pre.obj.lemma_key_at(bs);
        assert(post.obj.blobs@[bs] == pre.obj.blobs@[bs]);
        post.obj.lemma_key_at(bs);
    }
    assert forall|j: int|
        0 <= j < p.assets@.len() implies post.obj.blob_at(#[trigger] src.assets@[j])
        == pre.obj.blob_at(src.assets@[j]) by {
        assert(post.obj.has_key(p.assets@[j]));
    }
}

/// A principal other than the source's owner is refused with `Denied`;
/// together with `duplicate`'s contract, the refusal creates no new project
/// row and no new blob — both stores are exactly as they were.
pub proof fn lemma_duplicate_denied_for_non_owner(
    pre: Stores,
    faults: StoreFaults,
    v: PrincipalId,
    source_id: ProjectId,
)
    requires
        pre.db.has_id(source_id),
        pre.db.row_of(source_id).owner != v,
    ensures
        dup_error(pre, faults, Some(v), source_id) == Some(Error::Denied),
{
}

/// Duplicating a project id that does not exist reports `NotFound`;
/// together with `duplicate`'s contract, no write is performed.
pub proof fn lemma_duplicate_not_found(
    pre: Stores,
    faults: StoreFaults,
    v: PrincipalId,
    source_id: ProjectId,
)
    requires
        !pre.db.has_id(source_id),
    ensures
        dup_error(pre, faults, Some(v), source_id) == Some(Error::NotFound),
{
}

/// If the `n`-th of the source's blob copies fails, the attempt reports
/// `DuplicationFailed` at the copy stage; together with `duplicate`'s
/// contract, no new row exists and the blobs copied before the fault are
/// gone again after cleanup.
pub proof fn lemma_duplicate_copy_fault(
    pre: Stores,
    faults: StoreFaults,
    u: PrincipalId,
    source_id: ProjectId,
    n: usize,
)
    requires
        pre.db.has_id(source_id),
        pre.db.row_of(source_id).owner == u,
        !faults.snapshot_fails,
        faults.copy_fail_at == Some(n),
        n < pre.db.row_of(source_id).assets@.len(),
    ensures
        dup_error(pre, faults, Some(u), source_id) == Some(
            Error::DuplicationFailed(Stage::CopyBlob),
        ),
{
}

/// If the final row insert fails after every blob copy succeeded, the
/// attempt reports `DuplicationFailed` at the insert stage; together with
/// `duplicate`'s contract, all blobs copied during the attempt are removed.
pub proof fn lemma_duplicate_insert_fault(
    pre: Stores,
    faults: StoreFaults,
    u: PrincipalId,
    source_id: ProjectId,
)
    requires
        pre.db.has_id(source_id),
        pre.db.row_of(source_id).owner == u,
        !faults.snapshot_fails,
        !copy_fault_hits(faults, pre.db.row_of(source_id).assets@.len() as int),
        faults.insert_fails,
    ensures
        dup_error(pre, faults, Some(u), source_id) == Some(
            Error::DuplicationFailed(Stage::InsertRow),
        ),
{
}

/// Two duplications of the same source project, each reading its own
/// snapshot — as with two concurrent requests whose store operations
/// serialize — produce two independent, non-interfering projects: distinct
/// ids, disjoint asset keys, and each a faithful copy of the source's
/// metadata and bytes; the second duplication leaves the first's row and
/// blobs untouched.
pub proof fn lemma_concurrent_duplications_independent(
    pre: Stores,
    mid: Stores,
    post: Stores,
    p1: ProjectRow,
    p2: ProjectRow,
    u1: PrincipalId,
    u2: PrincipalId,
    source_id: ProjectId,
    now1: u64,
    now2: u64,
)
    requires
        pre.wf(),
        mid.wf(),
        post.wf(),
        pre.db.has_id(source_id),
        dup_success_post(pre, mid, p1, u1, source_id, now1),
        dup_success_post(mid, post, p2, u2, source_id, now2),
    ensures
        p1.id != p2.id,
        forall|a: int, b: int|
            0 <= a < p1.assets@.len() && 0 <= b < p2.assets@.len() ==> #[trigger] p1.assets@[a]
                != #[trigger] p2.assets@[b],
        post.db.rows@[pre.db.rows@.len() as int] == mid.db.rows@[pre.db.rows@.len() as int],
        row_matches(post.db.rows@[pre.db.rows@.len() as int], p1),
        forall|j: int|
            0 <= j < p1.assets@.len() ==> post.obj.blob_at(#[trigger] p1.assets@[j])
                == mid.obj.blob_at(p1.assets@[j]),
        p1.meta == pre.db.row_of(source_id).meta,
        p2.meta == pre.db.row_of(source_id).meta,
        forall|j: int|
            0 <= j < p2.assets@.len() ==> post.obj.blob_at(#[trigger] p2.assets@[j])
                == pre.obj.blob_at(pre.db.row_of(source_id).assets@[j]),
{
    let n1 = pre.db.rows@.len() as int;
    let pre_olen = pre.obj.blobs@.len() as int;
    let mid_olen = mid.obj.blobs@.len() as int;
    let si = pre.db.row_index(source_id);
    assert(0 <= si < pre.db.rows@.len() && pre.db.rows@[si].id == source_id);
    pre.db.lemma_row_at(si);
    // the second snapshot reads the very row the first one read
    assert(mid.db.rows@[si] == pre.db.rows@[si]);
    mid.db.lemma_row_at(si);
    assert(mid.db.row_of(source_id) == pre.db.row_of(source_id));
    let src = pre.db.row_of(source_id);
    let m = src.assets@.len() as int;
    // distinct identities, hence disjoint key spaces
    assert(p1.id == (ProjectId { 0: pre.db.next_id }));
    assert(p2.id == (ProjectId { 0: mid.db.next_id }));
    assert forall|a: int, b: int|
        0 <= a < p1.assets@.len() && 0 <= b < p2.assets@.len() implies #[trigger] p1.assets@[a]
        != #[trigger] p2.assets@[b] by {
        assert(p1.assets@[a].project == p1.id);
        assert(p2.assets@[b].project == p2.id);
    }
    // the first new row is still there, as inserted
    assert(mid.db.rows@.len() == n1 + 1);
    assert(post.db.rows@[n1] == mid.db.rows@[n1]);
    assert(row_matches(mid.db.rows@.last(), p1));
    // the first copy's blobs are untouched by the second duplication
    assert forall|j: int|
        0 <= j < p1.assets@.len() implies post.obj.blob_at(#[trigger] p1.assets@[j])
        == mid.obj.blob_at(p1.assets@[j]) by {
        assert(mid.obj.blobs@[pre_olen + j].key == p1.assets@[j]);
        mid.obj.lemma_key_at(pre_olen + j);
        assert(post.obj.blobs@[pre_olen + j] == mid.obj.blobs@[pre_olen + j]);
        post.obj.lemma_key_at(pre_olen + j);
    }
    // the second copy carries the source's original bytes
    assert forall|j: int|
        0 <= j < p2.assets@.len() implies post.obj.blob_at(#[trigger] p2.assets@[j])
        == pre.obj.blob_at(pre.db.row_of(source_id).assets@[j]) by {
        assert(post.obj.blobs@[mid_olen + j].key == p2.assets@[j]);
        post.obj.lemma_key_at(mid_olen + j);
        assert(post.obj.blobs@[mid_olen + j].bytes@ == mid.obj.blob_at(src.assets@[j]));
        // the source blob read by the second attempt is the one the first saw
        assert(pre.db.rows@[si].assets@[j] == src.assets@[j]);
        assert(pre.obj.has_key(src.assets@[j]));
        let bs = pre.obj.key_index(src.assets@[j]);
        assert(0 <= bs < pre.obj.blobs@.len() && pre.obj.blobs@[bs].key == src.assets@[j]);
        pre.obj.lemma_key_at(bs);
        assert(mid.obj.blobs@[bs] == pre.obj.blobs@[bs]);
        mid.obj.lemma_key_at(bs);
    }
}

} // verus!
