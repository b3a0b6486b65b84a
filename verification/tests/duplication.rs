use api::dup::duplicate;
use api::dup::StoreFaults;
use api::project::BlobKey;
use api::project::PrincipalId;
use api::project::ProjectId;
use api::project::ProjectMeta;
use api::store::Stores;
use api::Error;
use api::Stage;

fn meta(name: &str) -> ProjectMeta {
    ProjectMeta {
        name: name.to_string(),
        description: "subsurface model".to_string(),
        content: "{\"layers\":[1,2]}".to_string(),
    }
}

/// A store with one project owned by principal 1, holding two blobs.
fn seeded() -> (Stores, PrincipalId, ProjectId) {
    let owner = PrincipalId(1);
    let mut s = Stores::new();
    let id = s.create_project(Some(owner), meta("source"), 10).unwrap();
    s.add_asset(Some(owner), id, vec![1, 2, 3], 11).unwrap();
    s.add_asset(Some(owner), id, vec![4, 5], 12).unwrap();
    (s, owner, id)
}

#[test]
fn duplicate_copies_row_and_every_asset() {
    let (mut s, owner, src) = seeded();
    let p = duplicate(&mut s, StoreFaults::none(), Some(owner), src, 99).unwrap();
    assert_eq!(p.id, ProjectId(1));
    assert_eq!(p.owner, owner);
    assert_eq!(p.meta.name, "source");
    assert_eq!(p.meta.description, "subsurface model");
    assert_eq!(p.meta.content, "{\"layers\":[1,2]}");
    assert_eq!(p.created_at, 99);
    assert_eq!(p.modified_at, 99);
    // as many assets as the source, under fresh keys scoped to the new id
    assert_eq!(p.assets.len(), 2);
    assert_eq!(p.assets[0], BlobKey { project: p.id, index: 0 });
    assert_eq!(p.assets[1], BlobKey { project: p.id, index: 1 });
    let src_row_assets = s.get_project(src).unwrap().assets.clone();
    assert_ne!(p.assets[0], src_row_assets[0]);
    assert_ne!(p.assets[1], src_row_assets[1]);
    // byte-identical copies, independently stored
    assert_eq!(s.obj.fetch_blob(p.assets[0]).unwrap(), &vec![1, 2, 3]);
    assert_eq!(s.obj.fetch_blob(p.assets[1]).unwrap(), &vec![4, 5]);
    // the source's own blobs are untouched
    assert_eq!(s.obj.fetch_blob(src_row_assets[0]).unwrap(), &vec![1, 2, 3]);
    assert_eq!(s.obj.fetch_blob(src_row_assets[1]).unwrap(), &vec![4, 5]);
    // the new row is committed and matches what was returned
    let stored = s.get_project(p.id).unwrap();
    assert_eq!(stored.owner, owner);
    assert_eq!(stored.meta.name, "source");
    assert_eq!(stored.assets, p.assets);
}

#[test]
fn duplicate_of_empty_project_copies_only_the_row() {
    let mut s = Stores::new();
    let owner = PrincipalId(4);
    let src = s.create_project(Some(owner), meta("bare"), 0).unwrap();
    let p = duplicate(&mut s, StoreFaults::none(), Some(owner), src, 1).unwrap();
    assert_eq!(p.id, ProjectId(1));
    assert!(p.assets.is_empty());
    assert_eq!(s.obj.blobs.len(), 0);
    assert_eq!(s.db.rows.len(), 2);
}

#[test]
fn duplicate_refused_for_non_owner_writes_nothing() {
    let (mut s, _owner, src) = seeded();
    let rows = s.db.rows.len();
    let blobs = s.obj.blobs.len();
    let r = duplicate(&mut s, StoreFaults::none(), Some(PrincipalId(2)), src, 99);
    assert_eq!(r.unwrap_err(), Error::Denied);
    assert_eq!(s.db.rows.len(), rows);
    assert_eq!(s.obj.blobs.len(), blobs);
    assert_eq!(s.db.next_id, 1);
}

#[test]
fn duplicate_unauthenticated_writes_nothing() {
    let (mut s, _owner, src) = seeded();
    let r = duplicate(&mut s, StoreFaults::none(), None, src, 99);
    assert_eq!(r.unwrap_err(), Error::Unauthenticated);
    assert_eq!(s.db.rows.len(), 1);
    assert_eq!(s.obj.blobs.len(), 2);
}

#[test]
fn duplicate_of_missing_project_reports_not_found_and_writes_nothing() {
    let (mut s, owner, _src) = seeded();
    let r = duplicate(&mut s, StoreFaults::none(), Some(owner), ProjectId(77), 99);
    assert_eq!(r.unwrap_err(), Error::NotFound);
    assert_eq!(s.db.rows.len(), 1);
    assert_eq!(s.obj.blobs.len(), 2);
    assert_eq!(s.db.next_id, 1);
}

#[test]
fn duplicate_snapshot_fault_reports_store_unavailable() {
    let (mut s, owner, src) = seeded();
    let faults = StoreFaults { snapshot_fails: true, copy_fail_at: None, insert_fails: false };
    let r = duplicate(&mut s, faults, Some(owner), src, 99);
    assert_eq!(r.unwrap_err(), Error::StoreUnavailable);
    assert_eq!(s.db.rows.len(), 1);
    assert_eq!(s.obj.blobs.len(), 2);
}

#[test]
fn copy_fault_cleans_up_earlier_copies() {
    let owner = PrincipalId(1);
    let mut s = Stores::new();
    let src = s.create_project(Some(owner), meta("three blobs"), 0).unwrap();
    s.add_asset(Some(owner), src, vec![1], 1).unwrap();
    s.add_asset(Some(owner), src, vec![2], 2).unwrap();
    s.add_asset(Some(owner), src, vec![3], 3).unwrap();
    // the second of three copies fails
    let faults = StoreFaults { snapshot_fails: false, copy_fail_at: Some(1), insert_fails: false };
    let r = duplicate(&mut s, faults, Some(owner), src, 99);
    assert_eq!(r.unwrap_err(), Error::DuplicationFailed(Stage::CopyBlob));
    // no new row, and the blob copied before the fault is gone again
    assert_eq!(s.db.rows.len(), 1);
    assert_eq!(s.obj.blobs.len(), 3);
    assert!(s.obj.fetch_blob(BlobKey { project: ProjectId(1), index: 0 }).is_none());
    // the source's blobs are still intact
    assert_eq!(s.obj.fetch_blob(BlobKey { project: src, index: 0 }).unwrap(), &vec![1]);
    assert_eq!(s.obj.fetch_blob(BlobKey { project: src, index: 2 }).unwrap(), &vec![3]);
}

#[test]
fn insert_fault_removes_every_copied_blob() {
    let (mut s, owner, src) = seeded();
    let faults = StoreFaults { snapshot_fails: false, copy_fail_at: None, insert_fails: true };
    let r = duplicate(&mut s, faults, Some(owner), src, 99);
    assert_eq!(r.unwrap_err(), Error::DuplicationFailed(Stage::InsertRow));
    assert_eq!(s.db.rows.len(), 1);
    assert_eq!(s.obj.blobs.len(), 2);
    assert!(s.obj.fetch_blob(BlobKey { project: ProjectId(1), index: 0 }).is_none());
    assert!(s.obj.fetch_blob(BlobKey { project: ProjectId(1), index: 1 }).is_none());
}

#[test]
fn two_duplications_are_independent() {
    let (mut s, owner, src) = seeded();
    let p1 = duplicate(&mut s, StoreFaults::none(), Some(owner), src, 20).unwrap();
    let p2 = duplicate(&mut s, StoreFaults::none(), Some(owner), src, 21).unwrap();
    assert_ne!(p1.id, p2.id);
    for a in &p1.assets {
        for b in &p2.assets {
            assert_ne!(a, b);
        }
    }
    // both carry the source's bytes, each under its own keys
    assert_eq!(s.obj.fetch_blob(p1.assets[0]).unwrap(), &vec![1, 2, 3]);
    assert_eq!(s.obj.fetch_blob(p2.assets[0]).unwrap(), &vec![1, 2, 3]);
    assert_eq!(s.obj.fetch_blob(p1.assets[1]).unwrap(), &vec![4, 5]);
    assert_eq!(s.obj.fetch_blob(p2.assets[1]).unwrap(), &vec![4, 5]);
    // the first copy's row survived the second duplication
    let first = s.get_project(p1.id).unwrap();
    assert_eq!(first.meta.name, "source");
    assert_eq!(first.assets, p1.assets);
    assert_eq!(s.db.rows.len(), 3);
    assert_eq!(s.obj.blobs.len(), 6);
}
