use project_application::tags::{check_new_name, check_rename, decimal_text, markdown_stem, relabel, scan_entry, Issues, ScanEntry};

fn labels(v: &[&str]) -> Vec<String> {
    v.iter().map(|s| s.to_string()).collect()
}

#[test]
fn renaming_rewrites_or_merges_labels() {
    assert_eq!(relabel(&labels(&["a", "old", "b"]), "old", "new"), labels(&["a", "new", "b"]));
    assert_eq!(relabel(&labels(&["new", "old"]), "old", "new"), labels(&["new"]));
    assert_eq!(relabel(&labels(&["old", "new"]), "old", "new"), labels(&["new"]));
    assert_eq!(relabel(&labels(&["a"]), "old", "new"), labels(&["a"]));
    let once = relabel(&labels(&["old", "x", "old"]), "old", "new");
    assert_eq!(relabel(&once, "old", "new"), once);
}

#[test]
fn rename_names_are_checked() {
    assert!(check_rename("a", "a").is_err());
    assert!(check_rename("a", "b\0").is_err());
    assert!(check_rename("a", "b").is_ok());
    assert!(check_new_name(" b", false).is_err());
    assert!(check_new_name("b\u{a0}", false).is_err());
    assert!(check_new_name("", false).is_err());
    assert!(check_new_name(" b", true).is_ok());
    assert!(check_new_name("b c", false).is_ok());
}

#[test]
fn issues_are_listed_up_to_five_hundred() {
    let mut issues = Issues::new();
    for n in 0..503 {
        issues.add(Some("p"), None, &format!("issue {n}"));
    }
    assert_eq!(issues.items.len(), 500);
    assert_eq!(issues.omitted, 3);
    let done = issues.finish();
    assert_eq!(done.len(), 501);
    assert_eq!(done[500].message, "3 additional source issues were omitted from this response.");
    assert_eq!(done[0].project_id.as_deref(), Some("p"));
}

#[test]
fn decimal_text_matches_format() {
    for n in [0usize, 7, 10, 99, 500, 123_456_789] {
        assert_eq!(decimal_text(n), format!("{n}"));
    }
}

#[test]
fn scans_read_markdown_cards_with_v4_names() {
    let id = uuid::Uuid::new_v4().to_string();
    assert!(matches!(scan_entry("README.txt", 0), ScanEntry::Skip));
    assert!(matches!(scan_entry(&format!("{id}.md"), 50_000), ScanEntry::Limit));
    assert!(matches!(scan_entry("bad.md", 0), ScanEntry::InvalidId));
    assert!(matches!(scan_entry(&format!("{id}.md"), 0), ScanEntry::Card(c) if c == id));
    assert_eq!(markdown_stem("a.md"), Some("a"));
    assert_eq!(markdown_stem(".md"), Some(""));
    assert_eq!(markdown_stem("md"), None);
}

#[test]
fn tag_scans_visit_projects_by_id() {
    let ids: Vec<String> = vec!["p3".into(), "p1".into(), "p2".into(), "p1".into()];
    assert_eq!(project_application::tags::scan_order(&ids), vec![1, 3, 2, 0]);
}
