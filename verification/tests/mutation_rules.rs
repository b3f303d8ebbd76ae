use project_application::mutation::check_sources;
use project_application::ids::canonical_uuid;
use project_application::mutation::{
    check_patch_precondition, check_set_clear, definition, placement_slot, reorders, target_id, validates_dependencies,
    DocKind,
};

fn ids(v: &[&str]) -> Vec<String> {
    v.iter().map(|s| s.to_string()).collect()
}

#[test]
fn each_kind_has_its_request_shapes() {
    assert_eq!(definition(DocKind::Card, true).ok(), Some("CardCreate"));
    assert_eq!(definition(DocKind::Milestone, false).ok(), Some("MilestonePatch"));
    assert_eq!(definition(DocKind::Update, true).ok(), Some("UpdateCreate"));
    assert_eq!(definition(DocKind::Project, false).ok(), Some("ProjectPatch"));
    assert!(definition(DocKind::Update, false).is_err());
    assert!(definition(DocKind::Project, true).is_err());
    assert_eq!(DocKind::Card.as_str(), "card");
    assert_eq!(DocKind::Update.directory(), Some("updates"));
    assert_eq!(DocKind::Project.directory(), None);
}

#[test]
fn the_target_id_prefers_the_path_then_payload_then_retry() {
    assert_eq!(target_id(Some("a".into()), Some("b".into()), Some("c".into())).unwrap(), "a");
    assert_eq!(target_id(None, Some("b".into()), Some("c".into())).unwrap(), "b");
    assert_eq!(target_id(None, None, Some("c".into())).unwrap(), "c");
    let fresh = target_id(None, None, None).unwrap();
    assert!(canonical_uuid(&fresh, 4));
    assert_ne!(fresh, target_id(None, None, None).unwrap());
}

#[test]
fn patches_need_versions_and_disjoint_fields() {
    assert!(check_patch_precondition(false, false, "r").is_some());
    assert!(check_patch_precondition(true, false, "r").is_none());
    assert!(check_set_clear(&ids(&["title"]), &ids(&["due"])).is_ok());
    assert!(check_set_clear(&ids(&["title", "due"]), &ids(&["due"])).is_err());
}

#[test]
fn reordering_and_graph_checks_follow_the_change() {
    assert!(reorders(DocKind::Card, true, false, false));
    assert!(reorders(DocKind::Milestone, false, true, false));
    assert!(reorders(DocKind::Card, false, false, true));
    assert!(!reorders(DocKind::Update, true, true, true));
    assert!(validates_dependencies(DocKind::Card, false, true, false));
    assert!(!validates_dependencies(DocKind::Milestone, true, true, true));
}

#[test]
fn placements_name_a_slot_between_current_neighbours() {
    let order = ids(&["a", "b", "c"]);
    assert_eq!(placement_slot(&order, None).ok(), Some(3));
    assert_eq!(placement_slot(&order, Some((None, Some("a")))).ok(), Some(0));
    assert_eq!(placement_slot(&order, Some((Some("a"), Some("b")))).ok(), Some(1));
    assert_eq!(placement_slot(&order, Some((Some("c"), None))).ok(), Some(3));
    assert!(placement_slot(&order, Some((Some("a"), Some("c")))).is_err());
    assert!(placement_slot(&order, Some((Some("x"), None))).is_err());
    assert!(placement_slot(&order, Some((None, None))).is_err());
}

#[test]
fn mutations_check_the_sources_they_read() {
    let code = |r: Result<(), project_application::reply::AppError>| match r {
        Err(project_application::reply::AppError::Rejected(reply)) => match reply.body {
            project_application::reply::ReplyBody::Error { code, .. } => Some((reply.http_status, code)),
            _ => None,
        },
        _ => None,
    };
    assert_eq!(code(check_sources(DocKind::Card, true, true, None, "v1")), Some((409, "PROJECT_ARCHIVED".into())));
    assert!(check_sources(DocKind::Project, true, false, Some("v1"), "v1").is_ok());
    assert_eq!(code(check_sources(DocKind::Card, false, false, Some("v0"), "v1")), Some((412, "VERSION_CONFLICT".into())));
    assert_eq!(code(check_sources(DocKind::Card, false, false, None, "v1")), Some((412, "VERSION_CONFLICT".into())));
    assert!(check_sources(DocKind::Card, false, true, None, "v1").is_ok());
}
