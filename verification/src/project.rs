//! The domain model: identities, asset keys, metadata and project rows.

use vstd::prelude::*;

verus! {

/// Identity of a project row: an opaque unique id.
#[derive(Clone, Copy, Debug, PartialEq, Eq, Structural)]
pub struct ProjectId(pub u64);

/// Identity of an authenticated caller.
#[derive(Clone, Copy, Debug, PartialEq, Eq, Structural)]
pub struct PrincipalId(pub u64);

/// A storage key, scoped to the project that exclusively owns the blob:
/// the `index`-th asset of project `project`.  Keys for a freshly duplicated
/// project are generated under the new project's id, so a copy never shares
/// a key with its source.
#[derive(Clone, Copy, Debug, PartialEq, Eq, Structural)]
pub struct BlobKey {
    pub project: ProjectId,
    pub index: usize,
}

/// Mutable metadata of a project.
#[derive(Debug)]
pub struct ProjectMeta {
    pub name: String,
    pub description: String,
    pub content: String,
}

/// A project row: identity, owner, metadata, the ordered list of asset
/// references, and timestamps.
#[derive(Debug)]
pub struct ProjectRow {
    pub id: ProjectId,
    pub owner: PrincipalId,
    pub meta: ProjectMeta,
    pub assets: Vec<BlobKey>,
    pub created_at: u64,
    pub modified_at: u64,
}

/// An independent copy of a project's metadata.
pub fn clone_meta(m: &ProjectMeta) -> (r: ProjectMeta)
    ensures
        r == *m,
{
    ProjectMeta { name: m.name.clone(), description: m.description.clone(), content: m.content.clone() }
}

/// An independent copy of a list of asset references.
pub fn copy_keys(v: &Vec<BlobKey>) -> (r: Vec<BlobKey>)
    ensures
        r@ == v@,
{
    let mut r: Vec<BlobKey> = Vec::new();
    let mut t: usize = 0;
    while t < v.len()
        invariant
            t <= v@.len(),
            r@ == v@.take(t as int),
        decreases v@.len() - t,
    {
        r.push(v[t]);
        proof {
            assert(r@ =~= v@.take(t + 1));
        }
        t += 1;
    }
    proof {
        assert(r@ =~= v@);
    }
    r
}

/// An independent copy of a blob's bytes.
pub fn copy_bytes(v: &Vec<u8>) -> (r: Vec<u8>)
    ensures
        r@ == v@,
{
    let mut r: Vec<u8> = Vec::new();
    let mut t: usize = 0;
    while t < v.len()
        invariant
            t <= v@.len(),
            r@ == v@.take(t as int),
        decreases v@.len() - t,
    {
        r.push(v[t]);
        proof {
            assert(r@ =~= v@.take(t + 1));
        }
        t += 1;
    }
    proof {
        assert(r@ =~= v@);
    }
    r
}

} // verus!
