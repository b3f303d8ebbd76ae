use project_application::maintenance::{maintenance_shape, MaintenanceOperation};
use project_application::workflow_kind::WorkflowKind;
use project_application::maintenance::{
    check_collection, check_page, check_plan_size, check_recovery, check_workspace_version, hex32, plan_expiry,
    rebalance_positions,
};
use project_application::workflow::Step;

#[test]
fn hex_positions_have_thirty_two_digits() {
    assert_eq!(hex32(0), "00000000000000000000000000000000");
    assert_eq!(hex32(255), "000000000000000000000000000000ff");
    assert_eq!(hex32(u128::MAX), "ffffffffffffffffffffffffffffffff");
}

#[test]
fn rebalancing_spaces_positions_evenly() {
    assert_eq!(rebalance_positions(1), vec!["7fffffffffffffffffffffffffffffff".to_owned()]);
    assert_eq!(
        rebalance_positions(3),
        vec![
            "3fffffffffffffffffffffffffffffff".to_owned(),
            "7ffffffffffffffffffffffffffffffe".to_owned(),
            "bffffffffffffffffffffffffffffffd".to_owned(),
        ]
    );
    assert!(rebalance_positions(0).is_empty());
    let many = rebalance_positions(100);
    assert!(many.windows(2).all(|w| w[0] < w[1]));
}

#[test]
fn plans_retain_at_most_thirty_two_mebibytes() {
    let step = |n: usize, before: Option<usize>| Step {
        root: "/r".into(),
        identity: (0, 0),
        path: vec!["f".into()],
        before: before.map(|b| vec![0u8; b]),
        after: vec![0u8; n],
    };
    assert!(check_plan_size(&vec![step(16 * 1024 * 1024, Some(16 * 1024 * 1024))]).is_ok());
    assert!(check_plan_size(&vec![step(16 * 1024 * 1024, Some(16 * 1024 * 1024)), step(1, None)]).is_err());
}

#[test]
fn maintenance_preconditions() {
    assert!(check_collection("card").is_ok());
    assert!(check_collection("milestone").is_ok());
    assert!(check_collection("update").is_err());
    assert!(check_page("e:1", "e:1").is_ok());
    assert!(check_page("e:2", "e:1").is_err());
    assert!(check_workspace_version("v", "v").is_ok());
    assert!(check_workspace_version("v", "w").is_err());
    assert!(check_recovery(false, false).is_ok());
    assert!(check_recovery(true, false).is_err());
    assert_eq!(plan_expiry(1_000), 301_000);
}

#[test]
fn commits_take_their_own_plan_kinds() {
    let m = project_application::maintenance::check_maintenance_kind;
    let r = project_application::maintenance::check_registration_kind;
    assert!(m(WorkflowKind::Normalize).is_ok());
    assert!(m(WorkflowKind::Registration).is_err());
    assert!(r(WorkflowKind::Registration).is_ok());
    assert!(r(WorkflowKind::Relocate).is_err());
    let needs = project_application::maintenance::commit_needs(WorkflowKind::Unregister);
    assert_eq!((needs.holds_store, needs.rebuilds_index, needs.releases_previous), (false, false, true));
    let needs = project_application::maintenance::commit_needs(WorkflowKind::IndexRebuild);
    assert_eq!((needs.holds_store, needs.rebuilds_index, needs.releases_previous), (true, true, false));
    let needs = project_application::maintenance::commit_needs(WorkflowKind::Relocate);
    assert_eq!((needs.holds_store, needs.rebuilds_index, needs.releases_previous), (true, false, true));
}

#[test]
fn rebalancing_orders_by_status_position_and_id() {
    let member = |status: Option<&str>, position: Option<&str>, id: &str| project_application::maintenance::Member {
        status: status.map(str::to_owned),
        position: position.map(str::to_owned),
        id: id.into(),
    };
    let members = vec![
        member(Some("planned"), Some("80"), "b"),
        member(Some("active"), Some("ff"), "c"),
        member(Some("planned"), None, "d"),
        member(None, Some("10"), "e"),
        member(Some("planned"), Some("80"), "a"),
    ];
    assert_eq!(project_application::maintenance::rebalance_order(&members), vec![3, 1, 2, 4, 0]);
}

#[test]
fn collection_guards_list_markdown_files_in_order() {
    let names: Vec<String> = vec!["b.md".into(), "notes.txt".into(), "a.md".into(), "C.md".into(), ".md".into()];
    let listed = project_application::maintenance::markdown_listing(&names);
    assert_eq!(listed, vec![".md".to_string(), "C.md".into(), "a.md".into(), "b.md".into()]);
    assert!(project_application::maintenance::same_listing(&listed, &listed.clone()));
    assert!(!project_application::maintenance::same_listing(&listed, &vec!["a.md".to_string()]));
}

fn names(v: &[&str]) -> Vec<String> {
    v.iter().map(|s| s.to_string()).collect()
}

#[test]
fn maintenance_requests_have_exactly_their_operations_fields() {
    assert_eq!(maintenance_shape(Some("index_rebuild"), &names(&["project_id"])).ok(), Some(MaintenanceOperation::IndexRebuild));
    assert_eq!(
        maintenance_shape(Some("relocate"), &names(&["expected_workspace_version", "project_id", "new_absolute_path"])).ok(),
        Some(MaintenanceOperation::Relocate)
    );
    for (op, fields) in [
        (Some("index_rebuild"), vec!["project_id", "extra"]),
        (Some("unregister"), vec!["project_id"]),
        (Some("compact"), vec!["project_id"]),
        (None, vec!["project_id"]),
    ] {
        match maintenance_shape(op, &names(&fields)) {
            Err(project_application::reply::AppError::Rejected(r)) => assert_eq!(r.http_status, 422),
            _ => panic!("shape accepted"),
        }
    }
}
