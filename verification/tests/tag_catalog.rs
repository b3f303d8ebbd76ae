use project_application::catalog::{TagCatalog, MAX_CATALOG_NAMES};
use project_application::tags::TagPreview;

fn labels(names: &[&str]) -> Vec<String> {
    names.iter().map(|s| s.to_string()).collect()
}

fn summary(catalog: &TagCatalog) -> Vec<(String, bool, usize, Vec<(String, String, usize)>)> {
    catalog
        .tags()
        .iter()
        .map(|t| {
            (
                t.name.clone(),
                t.managed,
                t.usage,
                t.projects.iter().map(|p| (p.project_id.clone(), p.project_name.clone(), p.count)).collect(),
            )
        })
        .collect()
}

#[test]
fn the_catalog_counts_labels_by_tag_and_project() {
    let mut catalog = TagCatalog::new(&labels(&["urgent", "later", "urgent"]));
    catalog.add_card("p2", "Beta", &labels(&["urgent", "docs"]));
    catalog.add_card("p1", "Alpha", &labels(&["urgent"]));
    catalog.add_card("p2", "Beta renamed", &labels(&["urgent"]));
    assert_eq!(
        summary(&catalog),
        vec![
            ("docs".into(), false, 1, vec![("p2".into(), "Beta".into(), 1)]),
            ("later".into(), true, 0, vec![]),
            ("urgent".into(), true, 3, vec![("p1".into(), "Alpha".into(), 1), ("p2".into(), "Beta".into(), 2)]),
        ]
    );
    assert!(!catalog.limited());
    assert_eq!(catalog.total(), 4);
}

#[test]
fn a_full_catalog_still_counts_known_names() {
    let names: Vec<String> = (0..MAX_CATALOG_NAMES).map(|i| format!("t{i:05}")).collect();
    let mut catalog = TagCatalog::new(&names);
    catalog.add_label("p1", "Alpha", "t00007");
    assert!(!catalog.limited());
    catalog.add_label("p1", "Alpha", "zzz");
    assert!(catalog.limited());
    assert_eq!(catalog.tags().len(), MAX_CATALOG_NAMES);
    assert_eq!(catalog.tags()[7].usage, 1);
}

#[test]
fn a_preview_rewrites_cards_with_the_old_name() {
    let mut preview = TagPreview::new(false);
    assert_eq!(preview.visit("old", "new", "p1", false, &labels(&["x", "old"])), Some(labels(&["x", "new"])));
    assert!(!preview.known());
    assert_eq!(preview.visit("old", "new", "p2", true, &labels(&["new", "old", "y"])), Some(labels(&["new", "y"])));
    assert!(preview.known());
    assert_eq!(preview.visit("old", "new", "p0", true, &labels(&["y"])), None);
    assert_eq!(preview.archived_list(), labels(&["p2"]));
}

#[test]
fn a_preview_lists_at_most_five_hundred_changes() {
    let mut preview = TagPreview::new(true);
    for i in 0..500 {
        assert!(preview.visit("old", "new", &format!("p{}", i % 3), i % 2 == 0, &labels(&["old"])).is_some());
    }
    assert!(!preview.limited());
    assert_eq!(preview.visit("old", "new", "p9", true, &labels(&["old"])), None);
    assert!(preview.limited());
    assert_eq!(preview.archived_list(), labels(&["p0", "p1", "p2", "p9"]));
}

#[test]
fn suggestions_merge_vocabulary_and_labels() {
    let (names, more) = project_application::catalog::suggestion_names(&labels(&["urgent", "Later"]), &labels(&["docs", "urgent"]));
    assert_eq!(names, labels(&["Later", "docs", "urgent"]));
    assert!(!more);
    let many: Vec<String> = (0..MAX_CATALOG_NAMES + 1).map(|i| format!("n{i:05}")).collect();
    let (names, more) = project_application::catalog::suggestion_names(&vec![], &many);
    assert!(more);
    assert_eq!(names.len(), MAX_CATALOG_NAMES);
    assert_eq!(names.last().map(String::as_str), Some("n09999"));
    assert!(project_application::catalog::suggestions_complete(false, false, true));
    assert!(!project_application::catalog::suggestions_complete(true, false, true));
    assert!(!project_application::catalog::suggestions_complete(false, true, true));
    assert!(!project_application::catalog::suggestions_complete(false, false, false));
}
