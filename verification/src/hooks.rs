//! What the editor's event hooks do with an event, for linked diff buffers,
//! debounced syntax parsing and the file watcher: each hook is a decision
//! from the event (and the facts about the document it needs) to an action
//! that the editor then carries out.

use vstd::prelude::*;

use crate::debounce::SyntaxEvent;
use crate::diff_group::{DocumentId, ViewId};
use crate::file_watch::WatcherCommand;

verus! {

/// Events seen by the hooks of linked diff buffers.
#[derive(Debug, Clone, Copy, PartialEq, Eq, Structural)]
pub enum DiffHookEvent {
    SelectionChanged { view: ViewId, in_diff_group: bool },
    DocumentChanged { doc: DocumentId, ghost_transaction: bool, in_diff_group: bool },
    DocumentClosed { doc: DocumentId, in_diff_group: bool },
}

#[derive(Debug, Clone, Copy, PartialEq, Eq, Structural)]
pub enum DiffHookAction {
    Nothing,
    /// Queue a debounced alignment of the linked views from this view.
    QueueScrollSync(ViewId),
    /// Rebase the other members of the document's group on its new text.
    SyncGroup(DocumentId),
    /// Dissolve the document's group.
    Unlink(DocumentId),
}

pub open spec fn spec_diff_hook_action(event: DiffHookEvent) -> DiffHookAction {
    match event {
        DiffHookEvent::SelectionChanged { view, in_diff_group } => {
            if in_diff_group {
                DiffHookAction::QueueScrollSync(view)
            } else {
                DiffHookAction::Nothing
            }
        },
        DiffHookEvent::DocumentChanged { doc, ghost_transaction, in_diff_group } => {
            if ghost_transaction || !in_diff_group {
                DiffHookAction::Nothing
            } else {
                DiffHookAction::SyncGroup(doc)
            }
        },
        DiffHookEvent::DocumentClosed { doc, in_diff_group } => {
            if in_diff_group {
                DiffHookAction::Unlink(doc)
            } else {
                DiffHookAction::Nothing
            }
        },
    }
}

/// Only members of a diff group react: a cursor move queues scroll sync, a
/// real edit rebases the group, closing a member dissolves its group.
pub fn diff_hook_action(event: DiffHookEvent) -> (a: DiffHookAction)
    ensures
        a == spec_diff_hook_action(event),
{
    match event {
        DiffHookEvent::SelectionChanged { view, in_diff_group } => {
            if in_diff_group {
                DiffHookAction::QueueScrollSync(view)
            } else {
                DiffHookAction::Nothing
            }
        },
        DiffHookEvent::DocumentChanged { doc, ghost_transaction, in_diff_group } => {
            if ghost_transaction || !in_diff_group {
                DiffHookAction::Nothing
            } else {
                DiffHookAction::SyncGroup(doc)
            }
        },
        DiffHookEvent::DocumentClosed { doc, in_diff_group } => {
            if in_diff_group {
                DiffHookAction::Unlink(doc)
            } else {
                DiffHookAction::Nothing
            }
        },
    }
}

/// Events seen by the syntax hooks.
#[derive(Debug, Clone, Copy, PartialEq, Eq, Structural)]
pub enum SyntaxHookEvent {
    DocumentChanged { doc: DocumentId, ghost_transaction: bool, has_syntax: bool },
    DocumentClosed { doc: DocumentId },
}

/// A real edit of a document with a syntax tree schedules a reparse; a close
/// drops the document's state; ghost edits and plain-text documents send
/// nothing.
pub fn syntax_hook_event(event: SyntaxHookEvent) -> (e: Option<SyntaxEvent>)
    ensures
        e == match event {
            SyntaxHookEvent::DocumentChanged { doc, ghost_transaction, has_syntax } => {
                if ghost_transaction || !has_syntax {
                    None
                } else {
                    Some(SyntaxEvent::Change(doc))
                }
            },
            SyntaxHookEvent::DocumentClosed { doc } => Some(SyntaxEvent::Close(doc)),
        },
{
    match event {
        SyntaxHookEvent::DocumentChanged { doc, ghost_transaction, has_syntax } => {
            if ghost_transaction || !has_syntax {
                None
            } else {
                Some(SyntaxEvent::Change(doc))
            }
        },
        SyntaxHookEvent::DocumentClosed { doc } => Some(SyntaxEvent::Close(doc)),
    }
}

/// Events seen by the file watcher's hooks.
#[derive(Debug, Clone, Copy, PartialEq, Eq, Structural)]
pub enum WatchHookEvent {
    /// `backed_by_file`: the document has a path naming a regular file.
    DocumentOpened { doc: DocumentId, auto_reload: bool, backed_by_file: bool },
    DocumentClosed { doc: DocumentId },
}

/// Opening a file-backed document with auto-reload on watches it; closing
/// any document unwatches it.
pub fn watch_hook_command(event: WatchHookEvent) -> (c: Option<WatcherCommand>)
    ensures
        c == match event {
            WatchHookEvent::DocumentOpened { doc, auto_reload, backed_by_file } => {
                if auto_reload && backed_by_file {
                    Some(WatcherCommand::Watch(doc))
                } else {
                    None
                }
            },
            WatchHookEvent::DocumentClosed { doc } => Some(WatcherCommand::Unwatch(doc)),
        },
{
    match event {
        WatchHookEvent::DocumentOpened { doc, auto_reload, backed_by_file } => {
            if auto_reload && backed_by_file {
                Some(WatcherCommand::Watch(doc))
            } else {
                None
            }
        },
        WatchHookEvent::DocumentClosed { doc } => Some(WatcherCommand::Unwatch(doc)),
    }
}

} // verus!
