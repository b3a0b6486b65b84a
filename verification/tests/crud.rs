use api::project::BlobKey;
use api::store::StoredBlob;
use api::project::PrincipalId;
use api::project::ProjectId;
use api::project::ProjectMeta;
use api::store::Stores;
use api::Error;

fn meta(name: &str) -> ProjectMeta {
    ProjectMeta {
        name: name.to_string(),
        description: "a project".to_string(),
        content: "{\"layers\":[]}".to_string(),
    }
}

#[test]
fn create_assigns_ids_in_order() {
    let mut s = Stores::new();
    let a = s.create_project(Some(PrincipalId(1)), meta("first"), 10).unwrap();
    let b = s.create_project(Some(PrincipalId(2)), meta("second"), 11).unwrap();
    assert_eq!(a, ProjectId(0));
    assert_eq!(b, ProjectId(1));
    let row = s.get_project(a).unwrap();
    assert_eq!(row.owner, PrincipalId(1));
    assert_eq!(row.meta.name, "first");
    assert_eq!(row.created_at, 10);
    assert_eq!(row.modified_at, 10);
    assert!(row.assets.is_empty());
}

#[test]
fn create_requires_a_principal() {
    let mut s = Stores::new();
    let r = s.create_project(None, meta("nobody"), 0);
    assert_eq!(r.unwrap_err(), Error::Unauthenticated);
    assert_eq!(s.db.rows.len(), 0);
    assert_eq!(s.db.next_id, 0);
}

#[test]
fn add_asset_stores_bytes_under_a_scoped_key() {
    let mut s = Stores::new();
    let id = s.create_project(Some(PrincipalId(1)), meta("with assets"), 0).unwrap();
    let k = s.add_asset(Some(PrincipalId(1)), id, vec![1, 2, 3], 5).unwrap();
    assert_eq!(k, BlobKey { project: id, index: 0 });
    assert_eq!(s.obj.fetch_blob(k).unwrap(), &vec![1, 2, 3]);
    let row = s.get_project(id).unwrap();
    assert_eq!(row.assets.len(), 1);
    assert_eq!(row.assets[0], k);
    assert_eq!(row.modified_at, 5);
}

#[test]
fn add_asset_refused_for_non_owner() {
    let mut s = Stores::new();
    let id = s.create_project(Some(PrincipalId(1)), meta("guarded"), 0).unwrap();
    let r = s.add_asset(Some(PrincipalId(2)), id, vec![9], 1);
    assert_eq!(r.unwrap_err(), Error::Denied);
    assert_eq!(s.obj.blobs.len(), 0);
    assert!(s.get_project(id).unwrap().assets.is_empty());
}

#[test]
fn add_asset_to_missing_project_reports_not_found() {
    let mut s = Stores::new();
    let r = s.add_asset(Some(PrincipalId(1)), ProjectId(42), vec![9], 1);
    assert_eq!(r.unwrap_err(), Error::NotFound);
    assert_eq!(s.obj.blobs.len(), 0);
}

#[test]
fn update_replaces_metadata_and_keeps_assets() {
    let mut s = Stores::new();
    let id = s.create_project(Some(PrincipalId(1)), meta("before"), 0).unwrap();
    let k = s.add_asset(Some(PrincipalId(1)), id, vec![7], 1).unwrap();
    let r = s.update_project(Some(PrincipalId(1)), id, meta("after"), 2);
    assert!(r.is_ok());
    let row = s.get_project(id).unwrap();
    assert_eq!(row.meta.name, "after");
    assert_eq!(row.created_at, 0);
    assert_eq!(row.modified_at, 2);
    assert_eq!(row.assets, vec![k]);
}

#[test]
fn update_refused_for_non_owner() {
    let mut s = Stores::new();
    let id = s.create_project(Some(PrincipalId(1)), meta("mine"), 0).unwrap();
    let r = s.update_project(Some(PrincipalId(2)), id, meta("stolen"), 1);
    assert_eq!(r.unwrap_err(), Error::Denied);
    assert_eq!(s.get_project(id).unwrap().meta.name, "mine");
}

#[test]
fn update_missing_project_reports_not_found() {
    let mut s = Stores::new();
    let r = s.update_project(Some(PrincipalId(1)), ProjectId(3), meta("ghost"), 1);
    assert_eq!(r.unwrap_err(), Error::NotFound);
}

#[test]
fn list_keys_returns_exactly_the_projects_keys() {
    let mut s = Stores::new();
    let a = s.create_project(Some(PrincipalId(1)), meta("a"), 0).unwrap();
    s.add_asset(Some(PrincipalId(1)), a, vec![1], 1).unwrap();
    s.add_asset(Some(PrincipalId(1)), a, vec![2], 2).unwrap();
    let b = s.create_project(Some(PrincipalId(2)), meta("b"), 3).unwrap();
    s.add_asset(Some(PrincipalId(2)), b, vec![3], 4).unwrap();
    let keys = s.obj.list_keys(a);
    assert_eq!(
        keys,
        vec![BlobKey { project: a, index: 0 }, BlobKey { project: a, index: 1 }]
    );
    assert_eq!(s.obj.list_keys(b), vec![BlobKey { project: b, index: 0 }]);
}

#[test]
fn delete_removes_row_and_every_owned_blob() {
    let mut s = Stores::new();
    let a = s.create_project(Some(PrincipalId(1)), meta("doomed"), 0).unwrap();
    let ka = s.add_asset(Some(PrincipalId(1)), a, vec![1, 1], 1).unwrap();
    let b = s.create_project(Some(PrincipalId(2)), meta("bystander"), 2).unwrap();
    let kb = s.add_asset(Some(PrincipalId(2)), b, vec![2, 2], 3).unwrap();
    let r = s.delete_project(Some(PrincipalId(1)), a);
    assert!(r.is_ok());
    assert!(s.get_project(a).is_none());
    assert!(s.obj.fetch_blob(ka).is_none());
    // the other project's row and blob are untouched
    assert_eq!(s.get_project(b).unwrap().meta.name, "bystander");
    assert_eq!(s.obj.fetch_blob(kb).unwrap(), &vec![2, 2]);
    assert_eq!(s.db.rows.len(), 1);
    assert_eq!(s.obj.blobs.len(), 1);
}

#[test]
fn delete_refused_for_non_owner() {
    let mut s = Stores::new();
    let a = s.create_project(Some(PrincipalId(1)), meta("kept"), 0).unwrap();
    let r = s.delete_project(Some(PrincipalId(2)), a);
    assert_eq!(r.unwrap_err(), Error::Denied);
    assert!(s.get_project(a).is_some());
}

#[test]
fn delete_missing_project_reports_not_found() {
    let mut s = Stores::new();
    let r = s.delete_project(Some(PrincipalId(1)), ProjectId(5));
    assert_eq!(r.unwrap_err(), Error::NotFound);
}

#[test]
fn audit_accepts_library_built_stores() {
    let mut s = Stores::new();
    assert!(s.audit());
    let a = s.create_project(Some(PrincipalId(1)), meta("audited"), 0).unwrap();
    s.add_asset(Some(PrincipalId(1)), a, vec![1], 1).unwrap();
    assert!(s.audit());
    s.delete_project(Some(PrincipalId(1)), a).unwrap();
    assert!(s.audit());
}

#[test]
fn audit_rejects_an_orphaned_blob() {
    let mut s = Stores::new();
    s.create_project(Some(PrincipalId(1)), meta("fine"), 0).unwrap();
    // a blob no row references, as a crashed attempt without cleanup would
    // leave behind
    s.obj.blobs.push(StoredBlob {
        key: BlobKey { project: ProjectId(9), index: 0 },
        bytes: vec![0],
    });
    assert!(!s.audit());
}

#[test]
fn audit_rejects_duplicate_row_ids() {
    let mut s = Stores::new();
    s.create_project(Some(PrincipalId(1)), meta("one"), 0).unwrap();
    let copy = api::project::ProjectRow {
        id: ProjectId(0),
        owner: PrincipalId(2),
        meta: meta("clash"),
        assets: vec![],
        created_at: 0,
        modified_at: 0,
    };
    s.db.rows.push(copy);
    assert!(!s.audit());
}

#[test]
fn list_returns_every_project() {
    let mut s = Stores::new();
    let a = s.create_project(Some(PrincipalId(1)), meta("a"), 0).unwrap();
    let b = s.create_project(Some(PrincipalId(2)), meta("b"), 0).unwrap();
    assert_eq!(s.list_projects(), vec![a, b]);
}
