use helix_fork::diff_group::DocumentId;
use helix_fork::file_watch::{
    check_document, reload_choices, reload_prompt_title, reload_status, select_reload,
    DocFileState, PromptEvent, ReloadAction, ReloadChoice, ReloadDecision, Watcher,
    WatcherCommand, POLL_INTERVAL,
};

fn changed(modified: bool, mtime: u128) -> DocFileState {
    DocFileState {
        has_path: true,
        changed_on_disk: true,
        disk_mtime: Some(mtime),
        is_modified: modified,
    }
}

#[test]
fn polls_every_quarter_second() {
    assert_eq!(POLL_INTERVAL, 250_000_000);
}

#[test]
fn watch_and_unwatch() {
    let mut w = Watcher::new();
    assert_eq!(w.tick(), None);
    w.apply(WatcherCommand::Watch(DocumentId(1)));
    w.apply(WatcherCommand::Watch(DocumentId(2)));
    w.apply(WatcherCommand::Watch(DocumentId(1)));
    assert_eq!(w.tick(), Some(vec![DocumentId(1), DocumentId(2)]));
    w.ignore(DocumentId(1), 42);
    assert!(w.is_ignored(DocumentId(1), 42));
    w.apply(WatcherCommand::Unwatch(DocumentId(1)));
    assert_eq!(w.tick(), Some(vec![DocumentId(2)]));
    // Unwatching forgets the declined modification time.
    assert!(!w.is_ignored(DocumentId(1), 42));
    w.apply(WatcherCommand::Unwatch(DocumentId(2)));
    assert_eq!(w.tick(), None);
}

#[test]
fn unchanged_or_unwatchable_documents_are_skipped() {
    let w = Watcher::new();
    let d = DocumentId(1);
    assert_eq!(check_document(false, Some(changed(false, 1)), &w, d), ReloadDecision::Skip);
    assert_eq!(check_document(true, None, &w, d), ReloadDecision::Skip);
    let mut no_path = changed(false, 1);
    no_path.has_path = false;
    assert_eq!(check_document(true, Some(no_path), &w, d), ReloadDecision::Skip);
    let mut same = changed(false, 1);
    same.changed_on_disk = false;
    assert_eq!(check_document(true, Some(same), &w, d), ReloadDecision::Skip);
    let mut no_time = changed(false, 1);
    no_time.disk_mtime = None;
    assert_eq!(check_document(true, Some(no_time), &w, d), ReloadDecision::Skip);
}

#[test]
fn clean_buffers_reload_and_modified_ones_ask() {
    let w = Watcher::new();
    let d = DocumentId(1);
    assert_eq!(check_document(true, Some(changed(false, 9)), &w, d), ReloadDecision::Reload);
    assert_eq!(check_document(true, Some(changed(true, 9)), &w, d), ReloadDecision::Prompt(9));
}

#[test]
fn declined_change_is_not_asked_again() {
    let mut w = Watcher::new();
    let d = DocumentId(1);
    w.apply(WatcherCommand::Watch(d));
    let action = select_reload(ReloadChoice::Ignore, PromptEvent::Validate, 9);
    assert_eq!(action, ReloadAction::Ignore(9));
    w.ignore(d, 9);
    assert_eq!(check_document(true, Some(changed(true, 9)), &w, d), ReloadDecision::Skip);
    assert_eq!(check_document(true, Some(changed(false, 9)), &w, d), ReloadDecision::Skip);
    // A newer change is asked about again.
    assert_eq!(check_document(true, Some(changed(true, 10)), &w, d), ReloadDecision::Prompt(10));
    // Another document is not affected.
    assert_eq!(
        check_document(true, Some(changed(true, 9)), &w, DocumentId(2)),
        ReloadDecision::Prompt(9)
    );
    // After a reload the ignored time is forgotten.
    w.forget(d);
    assert_eq!(check_document(true, Some(changed(true, 9)), &w, d), ReloadDecision::Prompt(9));
}

#[test]
fn only_a_confirmed_choice_acts() {
    assert_eq!(select_reload(ReloadChoice::Reload, PromptEvent::Validate, 3), ReloadAction::Reload);
    assert_eq!(select_reload(ReloadChoice::Reload, PromptEvent::Update, 3), ReloadAction::Nothing);
    assert_eq!(select_reload(ReloadChoice::Ignore, PromptEvent::Abort, 3), ReloadAction::Nothing);
    assert_eq!(ReloadChoice::Reload.format(), "Reload");
    assert_eq!(ReloadChoice::Ignore.format(), "Ignore");
}

#[test]
fn reload_messages() {
    assert_eq!(reload_status("notes.txt"), "Reloaded notes.txt");
    assert_eq!(reload_prompt_title(), "File changed on disk");
    assert_eq!(reload_choices(), vec![ReloadChoice::Reload, ReloadChoice::Ignore]);
}
