//! Reloading documents whose file changed on disk: the set of watched
//! documents, modification times the user chose to ignore, and the
//! decision taken for a document at each poll.

use vstd::prelude::*;

use crate::debounce::{insert_id, lookup, remove_id, remove_key, spec_lookup};
use crate::diff_group::DocumentId;
use crate::text::push_str;

verus! {

/// Poll interval: 250 ms, in nanoseconds.
pub const POLL_INTERVAL: u128 = 250_000_000;

/// A request to the watcher task.
#[derive(Debug, Clone, Copy, PartialEq, Eq, Structural)]
pub enum WatcherCommand {
    Watch(DocumentId),
    Unwatch(DocumentId),
}

/// Watched documents, and for each document the on-disk modification time
/// (encoded by the caller; equal times give equal stamps) the user chose
/// not to reload.
pub struct Watcher {
    pub watched: Vec<DocumentId>,
    pub ignored: Vec<(DocumentId, u128)>,
}

impl Watcher {
    pub open spec fn wf(&self) -> bool {
        self.watched@.no_duplicates()
    }

    pub fn new() -> (w: Watcher)
        ensures
            w.wf(),
            w.watched@.len() == 0,
            forall|d: DocumentId| #[trigger] spec_lookup(w.ignored@, d) is None,
    {
        Watcher { watched: Vec::new(), ignored: Vec::new() }
    }

    /// Starts or stops watching a document; unwatching also forgets an
    /// ignored modification time.
    pub fn apply(&mut self, cmd: WatcherCommand)
        requires
            old(self).wf(),
        ensures
            final(self).wf(),
            match cmd {
                WatcherCommand::Watch(doc) => {
                    &&& forall|y: DocumentId| #[trigger] final(self).watched@.contains(y) <==> old(
                        self,
                    ).watched@.contains(y) || y == doc
                    &&& final(self).ignored@ == old(self).ignored@
                },
                WatcherCommand::Unwatch(doc) => {
                    &&& forall|y: DocumentId| #[trigger] final(self).watched@.contains(y) <==> old(
                        self,
                    ).watched@.contains(y) && y != doc
                    &&& forall|k: DocumentId| #[trigger] spec_lookup(final(self).ignored@, k) == if k == doc {
                        None
                    } else {
                        spec_lookup(old(self).ignored@, k)
                    }
                },
            },
    {
        match cmd {
            WatcherCommand::Watch(doc) => {
                insert_id(&mut self.watched, doc);
            },
            WatcherCommand::Unwatch(doc) => {
                self.watched = remove_id(&self.watched, doc);
                self.ignored = remove_key(&self.ignored, doc);
            },
        }
    }

    /// At each poll: the documents to check, or `None` when nothing is
    /// watched.
    pub fn tick(&self) -> (docs: Option<Vec<DocumentId>>)
        ensures
            self.watched@.len() == 0 ==> docs is None,
            self.watched@.len() > 0 ==> (docs matches Some(d) && d@ == self.watched@),
    {
        if self.watched.len() == 0 {
            None
        } else {
            Some(self.watched.clone())
        }
    }

    /// Whether reloading `doc` at modification time `mtime` was declined.
    pub fn is_ignored(&self, doc: DocumentId, mtime: u128) -> (b: bool)
        ensures
            b == (spec_lookup(self.ignored@, doc) == Some(mtime)),
    {
        match lookup(&self.ignored, doc) {
            Some(t) => t == mtime,
            None => false,
        }
    }

    /// Remembers that reloading `doc` at `mtime` was declined.
    pub fn ignore(&mut self, doc: DocumentId, mtime: u128)
        requires
            old(self).wf(),
        ensures
            final(self).wf(),
            final(self).watched@ == old(self).watched@,
            forall|k: DocumentId| #[trigger] spec_lookup(final(self).ignored@, k) == if k == doc {
                Some(mtime)
            } else {
                spec_lookup(old(self).ignored@, k)
            },
    {
        let mut entries = remove_key(&self.ignored, doc);
        let ghost before = entries@;
        entries.push((doc, mtime));
        proof {
            assert(entries@.drop_last() =~= before);
            assert forall|k: DocumentId| #[trigger] spec_lookup(entries@, k) == if k == doc {
                Some(mtime)
            } else {
                spec_lookup(before, k)
            } by {
                assert(entries@.last() == (doc, mtime));
            }
        }
        self.ignored = entries;
    }

    /// Forgets a declined modification time (after a reload).
    pub fn forget(&mut self, doc: DocumentId)
        requires
            old(self).wf(),
        ensures
            final(self).wf(),
            final(self).watched@ == old(self).watched@,
            forall|k: DocumentId| #[trigger] spec_lookup(final(self).ignored@, k) == if k == doc {
                None
            } else {
                spec_lookup(old(self).ignored@, k)
            },
    {
        self.ignored = remove_key(&self.ignored, doc);
    }
}

/// What the watcher knows of a document's file at a poll.
#[derive(Debug, Clone, Copy, PartialEq, Eq, Structural)]
pub struct DocFileState {
    pub has_path: bool,
    pub changed_on_disk: bool,
    pub disk_mtime: Option<u128>,
    pub is_modified: bool,
}

/// What to do with a watched document at a poll.
#[derive(Debug, Clone, Copy, PartialEq, Eq, Structural)]
pub enum ReloadDecision {
    /// Nothing changed, nothing to do, or the change was declined.
    Skip,
    /// The buffer has unsaved edits: ask whether to reload (the file's
    /// modification time is remembered with the question).
    Prompt(u128),
    /// Reload silently.
    Reload,
}

pub open spec fn spec_check_document(
    auto_reload: bool,
    doc: Option<DocFileState>,
    ignored: Seq<(DocumentId, u128)>,
    doc_id: DocumentId,
) -> ReloadDecision {
    if !auto_reload {
        ReloadDecision::Skip
    } else {
        match doc {
            None => ReloadDecision::Skip,
            Some(d) => {
                if !d.has_path || !d.changed_on_disk {
                    ReloadDecision::Skip
                } else {
                    match d.disk_mtime {
                        None => ReloadDecision::Skip,
                        Some(mtime) => {
                            if spec_lookup(ignored, doc_id) == Some(mtime) {
                                ReloadDecision::Skip
                            } else if d.is_modified {
                                ReloadDecision::Prompt(mtime)
                            } else {
                                ReloadDecision::Reload
                            }
                        },
                    }
                }
            },
        }
    }
}

/// Decides what a poll does with document `doc_id` (`doc` is `None` when
/// it was closed).
pub fn check_document(auto_reload: bool, doc: Option<DocFileState>, watcher: &Watcher, doc_id: DocumentId) -> (d:
    ReloadDecision)
    ensures
        d == spec_check_document(auto_reload, doc, watcher.ignored@, doc_id),
{
    if !auto_reload {
        return ReloadDecision::Skip;
    }
    let doc = match doc {
        Some(d) => d,
        None => {
            return ReloadDecision::Skip;
        },
    };
    if !doc.has_path || !doc.changed_on_disk {
        return ReloadDecision::Skip;
    }
    let mtime = match doc.disk_mtime {
        Some(t) => t,
        None => {
            return ReloadDecision::Skip;
        },
    };
    if watcher.is_ignored(doc_id, mtime) {
        return ReloadDecision::Skip;
    }
    if doc.is_modified {
        return ReloadDecision::Prompt(mtime);
    }
    ReloadDecision::Reload
}

/// A declined modification time is not asked about again: while the
/// watcher remembers `mtime` for `doc_id` (as `ignore(doc_id, mtime)`
/// leaves it, until the document is reloaded or unwatched), a poll that
/// finds the file at that modification time does nothing; a newer
/// modification time is decided as if nothing had been declined.
pub proof fn lemma_ignored_change_is_skipped(
    ignored: Seq<(DocumentId, u128)>,
    doc_id: DocumentId,
    auto_reload: bool,
    state: DocFileState,
    mtime: u128,
)
    requires
        spec_lookup(ignored, doc_id) == Some(mtime),
    ensures
        state.disk_mtime == Some(mtime) ==> spec_check_document(
            auto_reload,
            Some(state),
            ignored,
            doc_id,
        ) == ReloadDecision::Skip,
        state.disk_mtime != Some(mtime) ==> spec_check_document(
            auto_reload,
            Some(state),
            ignored,
            doc_id,
        ) == spec_check_document(auto_reload, Some(state), Seq::empty(), doc_id),
{
}

/// Status shown after a document was reloaded silently.
pub fn reload_status(display_name: &str) -> (m: String)
    ensures
        m@ == "Reloaded "@ + display_name@,
{
    let mut m = String::from_str("Reloaded ");
    push_str(&mut m, display_name);
    m
}

/// Title of the question asked when a modified buffer's file changed.
pub fn reload_prompt_title() -> (t: &'static str)
    ensures
        t@ == "File changed on disk"@,
{
    "File changed on disk"
}

/// Choices offered when a modified buffer's file changed on disk.
#[derive(Debug, Clone, Copy, PartialEq, Eq, Structural)]
pub enum ReloadChoice {
    Reload,
    Ignore,
}

impl ReloadChoice {
    pub fn format(&self) -> (label: &'static str)
        ensures
            *self == ReloadChoice::Reload ==> label@ == "Reload"@,
            *self == ReloadChoice::Ignore ==> label@ == "Ignore"@,
    {
        match self {
            ReloadChoice::Reload => "Reload",
            ReloadChoice::Ignore => "Ignore",
        }
    }
}

/// The choices of the reload question, in the order they are offered.
pub fn reload_choices() -> (c: Vec<ReloadChoice>)
    ensures
        c@ == seq![ReloadChoice::Reload, ReloadChoice::Ignore],
{
    vec![ReloadChoice::Reload, ReloadChoice::Ignore]
}

/// How a prompt callback was invoked.
#[derive(Debug, Clone, Copy, PartialEq, Eq, Structural)]
pub enum PromptEvent {
    Update,
    Validate,
    Abort,
}

/// Outcome of answering the reload prompt.
#[derive(Debug, Clone, Copy, PartialEq, Eq, Structural)]
pub enum ReloadAction {
    Nothing,
    Reload,
    Ignore(u128),
}

/// Only a confirmed choice acts: `Reload` reloads, `Ignore` declines the
/// modification time the prompt was raised for.
pub fn select_reload(choice: ReloadChoice, event: PromptEvent, mtime: u128) -> (a: ReloadAction)
    ensures
        event != PromptEvent::Validate ==> a == ReloadAction::Nothing,
        event == PromptEvent::Validate && choice == ReloadChoice::Reload ==> a == ReloadAction::Reload,
        event == PromptEvent::Validate && choice == ReloadChoice::Ignore ==> a == ReloadAction::Ignore(
            mtime,
        ),
{
    if event != PromptEvent::Validate {
        return ReloadAction::Nothing;
    }
    match choice {
        ReloadChoice::Reload => ReloadAction::Reload,
        ReloadChoice::Ignore => ReloadAction::Ignore(mtime),
    }
}

} // verus!
