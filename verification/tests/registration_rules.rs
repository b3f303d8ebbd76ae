use project_application::registration::{
    agents_content, change_action, check_agents_case, check_project_folder, gitignore_content, template_bytes, ChangeAction,
};
use project_application::reply::{AppError, ReplyBody};

fn rejected(e: AppError) -> (u16, String) {
    match e {
        AppError::Rejected(r) => match r.body {
            ReplyBody::Error { code, .. } => (r.http_status, code),
            _ => panic!(),
        },
        _ => panic!("not a rejection"),
    }
}

const BLOCK: &[u8] = b"<!-- local-projects:begin -->\nUse the planning data.\n<!-- local-projects:end -->\n";
const RULE: &[u8] = b"\n# Local Projects private planning data\n.project/\n";

#[test]
fn registration_steps_name_their_change() {
    assert_eq!(change_action(&None, &b"x".to_vec()), ChangeAction::Create);
    assert_eq!(change_action(&Some(b"x".to_vec()), &b"x".to_vec()), ChangeAction::NoChange);
    assert_eq!(change_action(&Some(b"x".to_vec()), &b"xy".to_vec()), ChangeAction::AppendManagedBlock);
}

#[test]
fn project_folders_must_hold_their_document() {
    assert!(check_project_folder(true, &vec!["cards".into()]).is_ok());
    assert!(check_project_folder(false, &vec![]).is_ok());
    assert!(check_project_folder(false, &vec![".local".into()]).is_ok());
    assert_eq!(rejected(check_project_folder(false, &vec![".local".into(), "cards".into()]).unwrap_err()), (409, "PROJECT_DOCUMENT_MISSING".into()));
}

#[test]
fn agents_files_are_spelled_one_way() {
    assert!(check_agents_case(&vec!["AGENTS.md".into(), "README.md".into()]).is_ok());
    assert_eq!(rejected(check_agents_case(&vec!["agents.md".into()]).unwrap_err()), (409, "AGENTS_CASE_CONFLICT".into()));
    assert_eq!(rejected(check_agents_case(&vec!["Agents.MD".into()]).unwrap_err()), (409, "AGENTS_CASE_CONFLICT".into()));
    assert!(check_agents_case(&vec!["agents.mdx".into()]).is_ok());
}

#[test]
fn the_managed_block_is_added_once() {
    assert_eq!(agents_content(None, BLOCK).ok(), Some(BLOCK.to_vec()));
    let mut expected = b"# Notes\n".to_vec();
    expected.extend_from_slice(b"\n\n");
    expected.extend_from_slice(BLOCK);
    let appended = agents_content(Some(b"# Notes\n"), BLOCK).ok().unwrap();
    assert_eq!(appended, expected);
    assert_eq!(agents_content(Some(&appended), BLOCK).ok(), Some(appended.clone()));
}

#[test]
fn agents_files_that_cannot_take_the_block_are_refused() {
    assert_eq!(rejected(agents_content(Some(&[0xff, 0xfe]), BLOCK).unwrap_err()), (409, "AGENTS_INVALID_UTF8".into()));
    let edited = b"<!-- local-projects:begin -->\nEdited.\n".to_vec();
    assert_eq!(rejected(agents_content(Some(&edited), BLOCK).unwrap_err()), (409, "MANAGED_BLOCK_CONFLICT".into()));
}

#[test]
fn private_registrations_ignore_the_metadata_folder() {
    assert_eq!(gitignore_content(None).ok(), Some(RULE.to_vec()));
    let mut expected = b"target/\n".to_vec();
    expected.extend_from_slice(RULE);
    assert_eq!(gitignore_content(Some(b"target/\n")).ok(), Some(expected));
    assert_eq!(gitignore_content(Some(b"target/\n  /.project/ \n")).ok(), Some(b"target/\n  /.project/ \n".to_vec()));
    assert_eq!(gitignore_content(Some(b".project/")).ok(), Some(b".project/".to_vec()));
    assert_eq!(rejected(gitignore_content(Some(&[0xc3])).unwrap_err()), (409, "GITIGNORE_INVALID_UTF8".into()));
}

#[test]
fn existing_template_files_keep_their_bytes() {
    use_templates();
}

fn use_templates() {
    let readme = b"# Project\n".as_slice();
    let mine = Some(b"my own notes".to_vec());
    assert_eq!(template_bytes(&mine, readme), b"my own notes".to_vec());
    assert_eq!(change_action(&mine, &template_bytes(&mine, readme)), ChangeAction::NoChange);
    assert_eq!(template_bytes(&None, readme), readme.to_vec());
    assert_eq!(change_action(&None, &template_bytes(&None, readme)), ChangeAction::Create);
    let empty = Some(Vec::new());
    assert!(template_bytes(&empty, readme).is_empty());
}
