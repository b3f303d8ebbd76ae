use project_application::workspace::preferences_unchanged;
use project_application::reply::{AppError, Reply, ReplyBody};
use project_application::workspace::{
    any_nul, apply_patch, check_change, check_focus_target, check_reference, check_version, definition, recovery_step, Preferences,
    PreferencesPatch,
};
use project_application::writer::Recovery;

fn status_code(reply: Option<Reply>) -> Option<(u16, String)> {
    reply.map(|r| match r.body {
        ReplyBody::Error { code, .. } => (r.http_status, code),
        _ => panic!(),
    })
}

fn rejected(e: AppError) -> (u16, String) {
    match e {
        AppError::Rejected(r) => match r.body {
            ReplyBody::Error { code, .. } => (r.http_status, code),
            _ => panic!(),
        },
        _ => panic!("not a rejection"),
    }
}

fn prefs() -> Preferences {
    Preferences { timezone: "UTC".into(), locale: "en-US".into(), week_start: None, default_view: Some("board".into()) }
}

#[test]
fn workspace_sections_are_known() {
    assert_eq!(definition("focus").ok(), Some("FocusReplace"));
    assert_eq!(definition("preferences").ok(), Some("PreferencesPatch"));
    assert_eq!(definition("tags").ok(), Some("TagsReplace"));
    assert_eq!(rejected(definition("other").unwrap_err()), (404, "NOT_FOUND".into()));
}

#[test]
fn workspace_changes_are_checked_in_order() {
    assert_eq!(status_code(check_change(true, true, false, false, true, "r")), Some((409, "WORKSPACE_RECOVERY_REQUIRED".into())));
    assert_eq!(status_code(check_change(false, true, false, false, true, "r")), Some((409, "REGISTRATION_RECOVERY_REQUIRED".into())));
    assert_eq!(status_code(check_change(false, false, false, false, true, "r")), Some((428, "PRECONDITION_REQUIRED".into())));
    assert_eq!(status_code(check_change(false, false, true, false, true, "r")), Some((422, "VALIDATION_FAILED".into())));
    assert_eq!(status_code(check_change(false, false, true, true, true, "r")), Some((422, "TAG_NAME_INVALID".into())));
    assert!(check_change(false, false, true, true, false, "r").is_none());
}

#[test]
fn tag_names_with_nul_are_found() {
    assert!(!any_nul(&vec!["a".into(), "b c".into()]));
    assert!(any_nul(&vec!["a".into(), "b\0c".into()]));
    assert!(!any_nul(&vec![]));
}

#[test]
fn versions_and_focus_targets_are_checked() {
    assert!(check_version("v1", "v1", "r").is_none());
    assert_eq!(status_code(check_version("v2", "v1", "r")), Some((412, "VERSION_CONFLICT".into())));
    assert_eq!(status_code(check_focus_target(true, "r")), Some((409, "FOCUS_MEMBERSHIP_CHANGED".into())));
    let request = uuid::Uuid::now_v7().to_string();
    match check_focus_target(true, &request).map(|r| r.body) {
        Some(ReplyBody::Error { code, request_id }) => {
            assert_eq!(code, "FOCUS_MEMBERSHIP_CHANGED");
            assert_eq!(request_id, Some(request));
        }
        _ => panic!("not refused"),
    }
    assert!(check_focus_target(false, "r").is_none());
}

#[test]
fn a_preferences_patch_replaces_what_it_names() {
    let patch = PreferencesPatch { timezone: Some("Europe/Berlin".into()), locale: None, week_start: Some("monday".into()), default_view: None };
    let p = apply_patch(&prefs(), &patch).ok().unwrap();
    assert_eq!(p.timezone, "Europe/Berlin");
    assert_eq!(p.locale, "en-US");
    assert_eq!(p.week_start.as_deref(), Some("monday"));
    assert_eq!(p.default_view.as_deref(), Some("board"));
    let again = apply_patch(&p, &patch).ok().unwrap();
    assert_eq!(again.timezone, p.timezone);
    assert_eq!(again.week_start, p.week_start);
}

#[test]
fn an_empty_patch_keeps_the_preferences() {
    let patch = PreferencesPatch { timezone: None, locale: None, week_start: None, default_view: None };
    let p = apply_patch(&prefs(), &patch).ok().unwrap();
    assert_eq!((p.timezone.as_str(), p.locale.as_str()), ("UTC", "en-US"));
    assert_eq!((p.week_start, p.default_view.as_deref()), (None, Some("board")));
}

#[test]
fn unknown_time_zones_are_refused() {
    let patch = PreferencesPatch { timezone: Some("Mars/Olympus".into()), locale: None, week_start: None, default_view: None };
    assert_eq!(rejected(apply_patch(&prefs(), &patch).err().unwrap()), (422, "INVALID_TIMEZONE".into()));
}

#[test]
fn interrupted_workspace_changes_recover() {
    assert_eq!(recovery_step(Some(b"after"), b"before", b"after").ok(), Some(Recovery::Resync));
    assert_eq!(recovery_step(Some(b"before"), b"before", b"after").ok(), Some(Recovery::Replace));
    assert_eq!(rejected(recovery_step(Some(b"other"), b"before", b"after").err().unwrap()), (409, "WORKSPACE_SOURCE_CHANGED".into()));
    assert_eq!(rejected(recovery_step(None, b"before", b"after").err().unwrap()), (409, "WORKSPACE_SOURCE_CHANGED".into()));
}

#[test]
fn focus_references_must_still_hold() {
    assert!(check_reference(Some("/p"), Some("/p"), "v1", "v1").is_ok());
    assert!(check_reference(None, None, "v1", "v1").is_ok());
    assert_eq!(rejected(check_reference(Some("/p"), Some("/q"), "v1", "v1").unwrap_err()), (409, "FOCUS_REFERENCE_CHANGED".into()));
    assert_eq!(rejected(check_reference(Some("/p"), None, "v1", "v1").unwrap_err()), (409, "FOCUS_REFERENCE_CHANGED".into()));
    assert_eq!(rejected(check_reference(None, None, "v1", "v2").unwrap_err()), (409, "FOCUS_REFERENCE_CHANGED".into()));
}

fn prefs_of(zone: &str, week: Option<&str>) -> Preferences {
    Preferences { timezone: zone.into(), locale: "en".into(), week_start: week.map(str::to_owned), default_view: None }
}

#[test]
fn a_preferences_change_that_alters_nothing_is_a_noop() {
    use_noop();
}

fn use_noop() {
    assert!(preferences_unchanged(&prefs_of("Europe/Warsaw", Some("monday")), &prefs_of("Europe/Warsaw", Some("monday"))));
    assert!(!preferences_unchanged(&prefs_of("Europe/Warsaw", Some("monday")), &prefs_of("Europe/Warsaw", None)));
    assert!(!preferences_unchanged(&prefs_of("Europe/Warsaw", None), &prefs_of("UTC", None)));
    let plan = project_application::writer::record_plan(true);
    assert_eq!((plan.status, plan.state, plan.writes), ("noop", project_application::command_state::CommandState::Committed, false));
    let plan = project_application::writer::record_plan(false);
    assert_eq!((plan.status, plan.state, plan.writes), ("committed", project_application::command_state::CommandState::Prepared, true));
    assert_eq!(project_application::journal::receipts_status(0), "noop");
    assert_eq!(project_application::journal::receipts_status(3), "committed");
}
