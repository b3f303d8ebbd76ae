use project_application::focus::{scans, FocusCard, FocusScan, MAX_FOCUS, MAX_SCANNED_CARDS};
use project_application::registry::FocusRef;
use project_application::reply::{AppError, ReplyBody};

fn rejected(e: AppError) -> (u16, String) {
    match e {
        AppError::Rejected(r) => match r.body {
            ReplyBody::Error { code, .. } => (r.http_status, code),
            _ => panic!(),
        },
        _ => panic!("not a rejection"),
    }
}

fn card(id: &str, position: Option<&str>, pinned: bool) -> FocusCard {
    FocusCard { id: id.into(), position: position.map(str::to_owned), pinned }
}

fn entry(project: &str, card: &str) -> FocusRef {
    FocusRef { project_id: project.into(), card_id: card.into() }
}

fn pairs(v: &[FocusRef]) -> Vec<(String, String)> {
    v.iter().map(|f| (f.project_id.clone(), f.card_id.clone())).collect()
}

#[test]
fn pinned_cards_come_in_card_order_project_after_project() {
    let mut scan = FocusScan::new();
    scan.add_project("p1", &vec![card("c", Some("80"), true), card("a", Some("80"), true), card("b", None, true), card("d", Some("10"), false)]).unwrap();
    scan.add_project("p2", &vec![card("x", Some("ff"), true)]).unwrap();
    let ordered = scan.ordered(&vec![]);
    assert_eq!(
        pairs(&ordered),
        vec![("p1".into(), "b".into()), ("p1".into(), "a".into()), ("p1".into(), "c".into()), ("p2".into(), "x".into())]
    );
}

#[test]
fn the_focus_list_only_orders_pinned_cards() {
    let mut scan = FocusScan::new();
    scan.add_project("p1", &vec![card("a", Some("1"), true), card("b", Some("2"), true), card("c", Some("3"), true)]).unwrap();
    let focus = vec![entry("p1", "c"), entry("p9", "gone"), entry("p1", "a"), entry("p1", "c")];
    let ordered = scan.ordered(&focus);
    assert_eq!(pairs(&ordered), vec![("p1".into(), "a".into()), ("p1".into(), "c".into()), ("p1".into(), "b".into())]);
}

#[test]
fn focus_reads_are_bounded() {
    let mut scan = FocusScan::new();
    let many: Vec<FocusCard> = (0..MAX_FOCUS + 1).map(|i| card(&format!("c{i:03}"), None, true)).collect();
    assert_eq!(rejected(scan.add_project("p1", &many).unwrap_err()), (422, "FOCUS_LIMIT".into()));
    let mut scan = FocusScan::new();
    let half: Vec<FocusCard> = (0..MAX_SCANNED_CARDS / 2).map(|i| card(&format!("c{i}"), None, false)).collect();
    scan.add_project("p1", &half).unwrap();
    scan.add_project("p2", &half).unwrap();
    assert_eq!(rejected(scan.add_project("p3", &vec![card("one", None, false)]).unwrap_err()), (422, "FOCUS_SOURCE_LIMIT".into()));
}

#[test]
fn focus_reads_may_be_limited_to_one_project() {
    assert!(scans(None, "p1"));
    assert!(scans(Some("p1"), "p1"));
    assert!(!scans(Some("p2"), "p1"));
}
