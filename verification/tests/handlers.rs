use helix_fork::debounce::{
    parse_debounce, DocumentSymbolsHandler, ScrollSyncHandler, SyntaxEvent, SyntaxHandler,
    DEFAULT_DEBOUNCE, DOCUMENT_CHANGE_DEBOUNCE, MAX_DEBOUNCE, MIN_DEBOUNCE, SCROLL_SYNC_DEBOUNCE,
};
use helix_fork::diff_group::{DocumentId, ViewId};
use helix_fork::file_watch::WatcherCommand;
use helix_fork::hooks::{
    diff_hook_action, syntax_hook_event, watch_hook_command, DiffHookAction, DiffHookEvent,
    SyntaxHookEvent, WatchHookEvent,
};

const MS: u128 = 1_000_000;

#[test]
fn reparse_delay_follows_the_last_parse() {
    assert_eq!(parse_debounce(None), 50 * MS);
    assert_eq!(parse_debounce(Some(0)), 20 * MS);
    assert_eq!(parse_debounce(Some(30 * MS)), 50 * MS);
    assert_eq!(parse_debounce(Some(280 * MS)), 300 * MS);
    assert_eq!(parse_debounce(Some(2_000 * MS)), MAX_DEBOUNCE);
    assert_eq!(parse_debounce(Some(u128::MAX)), MAX_DEBOUNCE);
    assert_eq!(MIN_DEBOUNCE, 15 * MS);
    assert_eq!(DEFAULT_DEBOUNCE, 50 * MS);
}

#[test]
fn syntax_handler_tracks_pending_documents_and_timings() {
    let mut h = SyntaxHandler::new();
    let a = DocumentId(1);
    let b = DocumentId(2);
    assert_eq!(h.handle_event(SyntaxEvent::Change(a)), Some(DEFAULT_DEBOUNCE));
    assert_eq!(h.handle_event(SyntaxEvent::Change(b)), Some(DEFAULT_DEBOUNCE));
    assert_eq!(h.handle_event(SyntaxEvent::Change(a)), Some(DEFAULT_DEBOUNCE));
    assert_eq!(h.finish_debounce(), vec![a, b]);
    assert!(h.finish_debounce().is_empty());

    h.record_parse(a, 100 * MS);
    assert_eq!(h.debounce_for(a), 120 * MS);
    assert_eq!(h.handle_event(SyntaxEvent::Change(a)), Some(120 * MS));
    h.record_parse(a, 1 * MS);
    assert_eq!(h.debounce_for(a), 21 * MS);

    // Closing forgets the pending reparse and the timing.
    assert_eq!(h.handle_event(SyntaxEvent::Close(a)), None);
    assert!(h.finish_debounce().is_empty());
    assert_eq!(h.debounce_for(a), DEFAULT_DEBOUNCE);
}

#[test]
fn scroll_sync_keeps_the_latest_view() {
    let mut h = ScrollSyncHandler::new();
    assert_eq!(h.finish_debounce(), None);
    assert_eq!(h.handle_event(ViewId(1)), SCROLL_SYNC_DEBOUNCE);
    assert_eq!(h.handle_event(ViewId(2)), 16 * MS);
    assert_eq!(h.finish_debounce(), Some(ViewId(2)));
    assert_eq!(h.finish_debounce(), None);
}

#[test]
fn symbol_refreshes_are_queued_once() {
    let mut h = DocumentSymbolsHandler::new();
    assert_eq!(h.handle_event(DocumentId(3)), DOCUMENT_CHANGE_DEBOUNCE);
    assert_eq!(h.handle_event(DocumentId(1)), 250 * MS);
    h.handle_event(DocumentId(3));
    assert_eq!(h.finish_debounce(), vec![DocumentId(3), DocumentId(1)]);
    assert!(h.finish_debounce().is_empty());
}

#[test]
fn diff_hooks_only_react_to_group_members() {
    let view = ViewId(4);
    let doc = DocumentId(7);
    assert_eq!(
        diff_hook_action(DiffHookEvent::SelectionChanged { view, in_diff_group: true }),
        DiffHookAction::QueueScrollSync(view)
    );
    assert_eq!(
        diff_hook_action(DiffHookEvent::SelectionChanged { view, in_diff_group: false }),
        DiffHookAction::Nothing
    );
    assert_eq!(
        diff_hook_action(DiffHookEvent::DocumentChanged {
            doc,
            ghost_transaction: false,
            in_diff_group: true
        }),
        DiffHookAction::SyncGroup(doc)
    );
    assert_eq!(
        diff_hook_action(DiffHookEvent::DocumentChanged {
            doc,
            ghost_transaction: true,
            in_diff_group: true
        }),
        DiffHookAction::Nothing
    );
    assert_eq!(
        diff_hook_action(DiffHookEvent::DocumentClosed { doc, in_diff_group: true }),
        DiffHookAction::Unlink(doc)
    );
    assert_eq!(
        diff_hook_action(DiffHookEvent::DocumentClosed { doc, in_diff_group: false }),
        DiffHookAction::Nothing
    );
}

#[test]
fn syntax_hooks() {
    let doc = DocumentId(2);
    assert_eq!(
        syntax_hook_event(SyntaxHookEvent::DocumentChanged {
            doc,
            ghost_transaction: false,
            has_syntax: true
        }),
        Some(SyntaxEvent::Change(doc))
    );
    assert_eq!(
        syntax_hook_event(SyntaxHookEvent::DocumentChanged {
            doc,
            ghost_transaction: false,
            has_syntax: false
        }),
        None
    );
    assert_eq!(
        syntax_hook_event(SyntaxHookEvent::DocumentChanged {
            doc,
            ghost_transaction: true,
            has_syntax: true
        }),
        None
    );
    assert_eq!(
        syntax_hook_event(SyntaxHookEvent::DocumentClosed { doc }),
        Some(SyntaxEvent::Close(doc))
    );
}

#[test]
fn file_watcher_hooks() {
    let doc = DocumentId(5);
    assert_eq!(
        watch_hook_command(WatchHookEvent::DocumentOpened {
            doc,
            auto_reload: true,
            backed_by_file: true
        }),
        Some(WatcherCommand::Watch(doc))
    );
    assert_eq!(
        watch_hook_command(WatchHookEvent::DocumentOpened {
            doc,
            auto_reload: false,
            backed_by_file: true
        }),
        None
    );
    assert_eq!(
        watch_hook_command(WatchHookEvent::DocumentOpened {
            doc,
            auto_reload: true,
            backed_by_file: false
        }),
        None
    );
    assert_eq!(
        watch_hook_command(WatchHookEvent::DocumentClosed { doc }),
        Some(WatcherCommand::Unwatch(doc))
    );
}
