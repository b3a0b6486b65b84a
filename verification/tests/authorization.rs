use api::auth::authorize;
use api::auth::deny_to_error;
use api::auth::Decision;
use api::auth::DenyReason;
use api::auth::Operation;
use api::project::PrincipalId;
use api::project::ProjectId;
use api::project::ProjectMeta;
use api::project::ProjectRow;
use api::Error;

fn sample_row(owner: u64) -> ProjectRow {
    ProjectRow {
        id: ProjectId(7),
        owner: PrincipalId(owner),
        meta: ProjectMeta {
            name: "drill site".to_string(),
            description: "boreholes".to_string(),
            content: "{}".to_string(),
        },
        assets: vec![],
        created_at: 0,
        modified_at: 0,
    }
}

#[test]
fn owner_may_duplicate() {
    let row = sample_row(1);
    let d = authorize(Some(PrincipalId(1)), Some(&row), Operation::Duplicate);
    assert!(matches!(d, Decision::Allowed));
}

#[test]
fn owner_may_update_and_delete() {
    let row = sample_row(3);
    assert!(matches!(
        authorize(Some(PrincipalId(3)), Some(&row), Operation::Update),
        Decision::Allowed
    ));
    assert!(matches!(
        authorize(Some(PrincipalId(3)), Some(&row), Operation::Delete),
        Decision::Allowed
    ));
}

#[test]
fn non_owner_is_refused() {
    let row = sample_row(1);
    let d = authorize(Some(PrincipalId(2)), Some(&row), Operation::Duplicate);
    assert!(matches!(d, Decision::Denied(DenyReason::NotOwner)));
}

#[test]
fn unauthenticated_is_refused_even_for_create() {
    let row = sample_row(1);
    assert!(matches!(
        authorize(None, Some(&row), Operation::Duplicate),
        Decision::Denied(DenyReason::Unauthenticated)
    ));
    assert!(matches!(
        authorize(None, None, Operation::Create),
        Decision::Denied(DenyReason::Unauthenticated)
    ));
}

#[test]
fn create_is_allowed_for_any_authenticated_principal() {
    let d = authorize(Some(PrincipalId(9)), None, Operation::Create);
    assert!(matches!(d, Decision::Allowed));
}

#[test]
fn missing_project_reports_not_found() {
    let d = authorize(Some(PrincipalId(1)), None, Operation::Duplicate);
    assert!(matches!(d, Decision::Denied(DenyReason::NotFound)));
}

#[test]
fn refusal_reasons_map_to_distinct_errors() {
    assert_eq!(deny_to_error(DenyReason::Unauthenticated), Error::Unauthenticated);
    assert_eq!(deny_to_error(DenyReason::NotFound), Error::NotFound);
    assert_eq!(deny_to_error(DenyReason::NotOwner), Error::Denied);
}
