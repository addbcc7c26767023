use serendip_whitelister::catalog::{get_sorted_csv_files, CandidateFile, ListedEntry};
use serendip_whitelister::ingest::{ingest_bytes, IngestError, Table};
use serendip_whitelister::orchestrator::{
    subscription, update, Action, Failure, Message, State, TaskState, TICK_MILLIS,
};
use serendip_whitelister::progress::FULL;

fn entry(path: &str, ext: Option<&str>, created: Option<u128>) -> ListedEntry {
    ListedEntry {
        path: path.to_string(),
        extension: ext.map(|e| e.to_string()),
        created,
    }
}

fn file(path: &str, created: u128) -> CandidateFile {
    CandidateFile { path: path.to_string(), created }
}

#[test]
fn catalog_filters_and_sorts_newest_first() {
    let entries = vec![
        entry("a.csv", Some("csv"), Some(10)),
        entry("b.txt", Some("txt"), Some(50)),
        entry("c.csv", Some("csv"), Some(30)),
        entry("d.csv", Some("csv"), None),
        entry("e", None, Some(40)),
        entry("f.CSV", Some("CSV"), Some(60)),
        entry("g.csv", Some("csv"), Some(20)),
    ];
    let r = get_sorted_csv_files(&entries);
    assert_eq!(r, vec![file("c.csv", 30), file("g.csv", 20), file("a.csv", 10)]);
}

#[test]
fn catalog_ties_keep_listing_order() {
    let entries = vec![
        entry("x.csv", Some("csv"), Some(5)),
        entry("y.csv", Some("csv"), Some(7)),
        entry("z.csv", Some("csv"), Some(5)),
    ];
    let r = get_sorted_csv_files(&entries);
    assert_eq!(r, vec![file("y.csv", 7), file("x.csv", 5), file("z.csv", 5)]);
}

#[test]
fn catalog_empty_directory_gives_empty_listing() {
    assert!(get_sorted_csv_files(&Vec::new()).is_empty());
}

fn selecting(files: Vec<CandidateFile>) -> State {
    let mut s = State::new();
    assert!(matches!(update(&mut s, Message::StartPressed), Action::ListFiles));
    assert!(matches!(update(&mut s, Message::FilesListed(files)), Action::Nothing));
    s
}

fn table() -> Table {
    Table { ids: vec!["1".to_string()], dates: vec![0] }
}

#[test]
fn start_lists_then_selects() {
    let s = selecting(vec![file("a.csv", 2), file("b.csv", 1)]);
    assert_eq!(s.task_state, TaskState::SelectingFile);
    assert_eq!(s.selected_csv_index, Some(0));
    assert_eq!(s.csv_files.len(), 2);
}

#[test]
fn no_files_fails_and_dismiss_returns_to_idle() {
    let mut s = selecting(Vec::new());
    assert_eq!(s.task_state, TaskState::Failed);
    assert!(matches!(s.failure, Some(Failure::NoInputFiles)));
    update(&mut s, Message::DismissError);
    assert_eq!(s.task_state, TaskState::Idle);
    assert!(s.failure.is_none());
    assert!(s.csv_files.is_empty());
}

#[test]
fn confirm_spawns_worker_and_success_completes() {
    let mut s = selecting(vec![file("a.csv", 2), file("b.csv", 1)]);
    update(&mut s, Message::FileSelected(1));
    let a = update(&mut s, Message::ConfirmFileSelection);
    let mut worker = match a {
        Action::Ingest { path, progress } => {
            assert_eq!(path, "b.csv");
            progress
        }
        _ => panic!("no worker asked for"),
    };
    assert_eq!(s.task_state, TaskState::Running);
    assert_eq!(s.displayed_progress, 0);
    assert!(s.csv_files.is_empty());
    assert_eq!(subscription(&s), Some(TICK_MILLIS));
    worker.write(100);
    update(&mut s, Message::Tick);
    assert_eq!(s.displayed_progress, 100);
    worker.write(900);
    update(&mut s, Message::Tick);
    assert_eq!(s.displayed_progress, 900);
    update(&mut s, Message::IngestFinished(Ok(table())));
    assert_eq!(s.task_state, TaskState::Completed);
    assert_eq!(s.displayed_progress, FULL);
    assert!(s.show_dialog);
    assert!(s.shared_progress.is_none());
    assert_eq!(subscription(&s), None);
    update(&mut s, Message::DismissDialog);
    assert_eq!(s.task_state, TaskState::Idle);
    assert!(!s.show_dialog);
    assert!(s.csv_files.is_empty());
    assert_eq!(s.selected_csv_index, None);
}

#[test]
fn failed_run_surfaces_error() {
    let mut s = selecting(vec![file("a.csv", 2)]);
    assert!(matches!(update(&mut s, Message::ConfirmFileSelection), Action::Ingest { .. }));
    let e = IngestError::Schema { header: "ENROLMENT DATE".to_string() };
    update(&mut s, Message::IngestFinished(Err(e.clone())));
    assert_eq!(s.task_state, TaskState::Failed);
    assert!(matches!(&s.failure, Some(Failure::Ingest(x)) if *x == e));
    assert!(s.shared_progress.is_none());
    update(&mut s, Message::DismissError);
    assert_eq!(s.task_state, TaskState::Idle);
}

#[test]
fn start_rejected_unless_idle() {
    let mut s = selecting(vec![file("a.csv", 2)]);
    assert!(matches!(update(&mut s, Message::StartPressed), Action::Nothing));
    update(&mut s, Message::FilesListed(vec![file("z.csv", 9)]));
    assert_eq!(s.csv_files, vec![file("a.csv", 2)]);
    update(&mut s, Message::ConfirmFileSelection);
    assert_eq!(s.task_state, TaskState::Running);
    assert!(matches!(update(&mut s, Message::StartPressed), Action::Nothing));
    assert!(matches!(update(&mut s, Message::ConfirmFileSelection), Action::Nothing));
    assert_eq!(s.task_state, TaskState::Running);
}

#[test]
fn confirm_out_of_range_does_nothing() {
    let mut s = selecting(vec![file("a.csv", 2)]);
    update(&mut s, Message::FileSelected(3));
    assert!(matches!(update(&mut s, Message::ConfirmFileSelection), Action::Nothing));
    assert_eq!(s.task_state, TaskState::SelectingFile);
}

#[test]
fn cancel_returns_to_idle() {
    let mut s = selecting(vec![file("a.csv", 2)]);
    update(&mut s, Message::CancelFileSelection);
    assert_eq!(s.task_state, TaskState::Idle);
    assert!(s.csv_files.is_empty());
    assert_eq!(s.selected_csv_index, None);
}

#[test]
fn stale_outcome_is_ignored() {
    let mut s = State::new();
    update(&mut s, Message::IngestFinished(Ok(table())));
    assert_eq!(s.task_state, TaskState::Idle);
    assert!(s.table.is_none());
}

#[test]
fn pass_through_actions() {
    let mut s = State::new();
    match update(&mut s, Message::OpenLink("https://example.com".to_string())) {
        Action::OpenLink(u) => assert_eq!(u, "https://example.com"),
        _ => panic!("expected a link"),
    }
    assert!(matches!(update(&mut s, Message::OpenDirectory), Action::OpenDirectory));
    assert!(matches!(update(&mut s, Message::OpenCurrentLog), Action::OpenCurrentLog));
}

#[test]
fn missing_date_header_run_fails() {
    let bytes: Vec<u8> = "STUDENT NUMBER\tWHEN\n1\t01.06.2023 09.15.00\n"
        .encode_utf16()
        .flat_map(|u| u.to_le_bytes())
        .collect();
    let mut s = selecting(vec![file("a.csv", 2)]);
    update(&mut s, Message::ConfirmFileSelection);
    let outcome = ingest_bytes(&bytes);
    assert!(outcome.is_err());
    update(&mut s, Message::IngestFinished(outcome));
    assert_eq!(s.task_state, TaskState::Failed);
    assert!(s.table.is_none());
    assert!(matches!(
        &s.failure,
        Some(Failure::Ingest(IngestError::Schema { header })) if header == "ENROLMENT DATE"
    ));
}
