//! Debounced background work: reparsing syntax after edits (with a delay
//! adapted to how long the last parse took), realigning diff panes after
//! cursor moves, and refreshing document symbols. Durations are in
//! nanoseconds.

use vstd::prelude::*;

use crate::diff_group::{DocumentId, ViewId};

verus! {

/// Delay before reparsing a document that has never been parsed: 50 ms.
pub const DEFAULT_DEBOUNCE: u128 = 50_000_000;

/// Shortest reparse delay: 15 ms.
pub const MIN_DEBOUNCE: u128 = 15_000_000;

/// Longest reparse delay: 300 ms.
pub const MAX_DEBOUNCE: u128 = 300_000_000;

/// Added to the last parse time: 20 ms.
pub const DEBOUNCE_PAD: u128 = 20_000_000;

/// Delay for cursor-driven scroll alignment: 16 ms.
pub const SCROLL_SYNC_DEBOUNCE: u128 = 16_000_000;

/// Delay for refreshing document symbols after an edit: 250 ms.
pub const DOCUMENT_CHANGE_DEBOUNCE: u128 = 250_000_000;

/// Reparse delay: the last parse time plus a pad, kept between 15 ms and
/// 300 ms; 50 ms when the document has not been parsed yet.
pub open spec fn spec_parse_debounce(last_parse: Option<u128>) -> u128 {
    match last_parse {
        None => 50_000_000,
        Some(p) => {
            let d = p + 20_000_000;
            if d < 15_000_000 {
                15_000_000
            } else if d > 300_000_000 {
                300_000_000
            } else {
                d as u128
            }
        },
    }
}

pub fn parse_debounce(last_parse: Option<u128>) -> (d: u128)
    ensures
        d == spec_parse_debounce(last_parse),
        last_parse is Some ==> MIN_DEBOUNCE <= d,
        d <= MAX_DEBOUNCE,
{
    match last_parse {
        None => DEFAULT_DEBOUNCE,
        Some(parse) => {
            let padded = parse.saturating_add(DEBOUNCE_PAD);
            if padded < MIN_DEBOUNCE {
                MIN_DEBOUNCE
            } else if padded > MAX_DEBOUNCE {
                MAX_DEBOUNCE
            } else {
                padded
            }
        },
    }
}

/// The value stored for `key` (the latest entry wins).
pub open spec fn spec_lookup(entries: Seq<(DocumentId, u128)>, key: DocumentId) -> Option<u128>
    decreases entries.len(),
{
    if entries.len() == 0 {
        None
    } else if entries.last().0 == key {
        Some(entries.last().1)
    } else {
        spec_lookup(entries.drop_last(), key)
    }
}

pub(crate) fn lookup(entries: &Vec<(DocumentId, u128)>, key: DocumentId) -> (v: Option<u128>)
    ensures
        v == spec_lookup(entries@, key),
{
    let mut i: usize = entries.len();
    assert(entries@.take(i as int) =~= entries@);
    while i > 0
        invariant
            i <= entries@.len(),
            spec_lookup(entries@, key) == spec_lookup(entries@.take(i as int), key),
        decreases i,
    {
        let ghost t = entries@.take(i as int);
        assert(t.drop_last() =~= entries@.take(i - 1));
        if entries[i - 1].0 == key {
            return Some(entries[i - 1].1);
        }
        i -= 1;
    }
    None
}

/// Entries without `key`.
pub(crate) fn remove_key(entries: &Vec<(DocumentId, u128)>, key: DocumentId) -> (r: Vec<(DocumentId, u128)>)
    ensures
        forall|k: DocumentId|
            #[trigger] spec_lookup(r@, k) == if k == key {
                None
            } else {
                spec_lookup(entries@, k)
            },
{
    let mut r: Vec<(DocumentId, u128)> = Vec::new();
    let mut i: usize = 0;
    while i < entries.len()
        invariant
            i <= entries@.len(),
            forall|k: DocumentId|
                #[trigger] spec_lookup(r@, k) == if k == key {
                    None
                } else {
                    spec_lookup(entries@.take(i as int), k)
                },
        decreases entries.len() - i,
    {
        let e = entries[i];
        let ghost old_r = r@;
        proof {
            assert(entries@.take(i + 1).drop_last() =~= entries@.take(i as int));
        }
        if e.0 != key {
            r.push(e);
            proof {
                assert(r@.drop_last() =~= old_r);
            }
        }
        proof {
            let t = entries@.take(i + 1);
            assert(t.last() == e);
            assert forall|k: DocumentId| #[trigger] spec_lookup(r@, k) == if k == key {
                None
            } else {
                spec_lookup(t, k)
            } by {
                assert(spec_lookup(t, k) == if e.0 == k {
                    Some(e.1)
                } else {
                    spec_lookup(entries@.take(i as int), k)
                });
                if e.0 != key {
                    assert(r@.last() == e);
                    assert(spec_lookup(r@, k) == if e.0 == k {
                        Some(e.1)
                    } else {
                        spec_lookup(old_r, k)
                    });
                }
            }
        }
        i += 1;
    }
    assert(entries@.take(i as int) =~= entries@);
    r
}

pub(crate) fn contains_id(s: &Vec<DocumentId>, x: DocumentId) -> (b: bool)
    ensures
        b == s@.contains(x),
{
    let mut i: usize = 0;
    while i < s.len()
        invariant
            i <= s@.len(),
            forall|j: int| 0 <= j < i ==> s@[j] != x,
        decreases s.len() - i,
    {
        if s[i] == x {
            assert(s@[i as int] == x);
            return true;
        }
        i += 1;
    }
    false
}

/// `s` with `x` added unless it is already there.
pub(crate) fn insert_id(s: &mut Vec<DocumentId>, x: DocumentId)
    requires
        old(s)@.no_duplicates(),
    ensures
        final(s)@.no_duplicates(),
        forall|y: DocumentId| #[trigger] final(s)@.contains(y) <==> old(s)@.contains(y) || y == x,
{
    if !contains_id(s, x) {
        let ghost before = s@;
        s.push(x);
        proof {
            assert forall|y: DocumentId| #[trigger] s@.contains(y) <==> before.contains(y) || y == x by {
                if s@.contains(y) {
                    let k = choose|k: int| 0 <= k < s@.len() && s@[k] == y;
                    if k < before.len() {
                        assert(before[k] == y);
                    }
                }
                if before.contains(y) {
                    let k = choose|k: int| 0 <= k < before.len() && before[k] == y;
                    assert(s@[k] == y);
                }
                if y == x {
                    assert(s@[before.len() as int] == y);
                }
            }
            assert forall|i: int, j: int| 0 <= i < s@.len() && 0 <= j < s@.len() && i != j implies s@[i]
                != s@[j] by {
                if i == before.len() {
                    assert(before.contains(s@[j]));
                } else if j == before.len() {
                    assert(before.contains(s@[i]));
                } else {
                    assert(s@[i] == before[i] && s@[j] == before[j]);
                }
            }
        }
    }
}

/// `s` without `x`.
pub(crate) fn remove_id(s: &Vec<DocumentId>, x: DocumentId) -> (r: Vec<DocumentId>)
    requires
        s@.no_duplicates(),
    ensures
        r@.no_duplicates(),
        forall|y: DocumentId| #[trigger] r@.contains(y) <==> s@.contains(y) && y != x,
{
    let mut r: Vec<DocumentId> = Vec::new();
    let mut i: usize = 0;
    while i < s.len()
        invariant
            i <= s@.len(),
            s@.no_duplicates(),
            r@.no_duplicates(),
            forall|y: DocumentId|
                #[trigger] r@.contains(y) <==> s@.take(i as int).contains(y) && y != x,
        decreases s.len() - i,
    {
        let y = s[i];
        let ghost before = r@;
        proof {
            assert forall|z: DocumentId| #[trigger] s@.take(i + 1).contains(z) <==> s@.take(
                i as int,
            ).contains(z) || z == y by {
                if s@.take(i + 1).contains(z) {
                    let k = choose|k: int| 0 <= k < i + 1 && #[trigger] s@.take(i + 1)[k] == z;
                    if k < i {
                        assert(s@.take(i as int)[k] == z);
                    }
                }
                if s@.take(i as int).contains(z) {
                    let k = choose|k: int| 0 <= k < i && #[trigger] s@.take(i as int)[k] == z;
                    assert(s@.take(i + 1)[k] == z);
                }
                if z == y {
                    assert(s@.take(i + 1)[i as int] == z);
                }
            }
            assert(!before.contains(y)) by {
                if before.contains(y) {
                    let k = choose|k: int| 0 <= k < i && #[trigger] s@.take(i as int)[k] == y;
                    assert(s@[k] == s@[i as int]);
                }
            }
        }
        if y != x {
            r.push(y);
            proof {
                assert forall|z: DocumentId| #[trigger] r@.contains(z) <==> before.contains(z) || z == y by {
                    if r@.contains(z) {
                        let k = choose|k: int| 0 <= k < r@.len() && r@[k] == z;
                        if k < before.len() {
                            assert(before[k] == z);
                        }
                    }
                    if before.contains(z) {
                        let k = choose|k: int| 0 <= k < before.len() && before[k] == z;
                        assert(r@[k] == z);
                    }
                    if z == y {
                        assert(r@[before.len() as int] == z);
                    }
                }
                assert forall|a: int, b: int| 0 <= a < r@.len() && 0 <= b < r@.len() && a != b implies r@[a]
                    != r@[b] by {
                    if a == before.len() {
                        assert(before.contains(r@[b]));
                    } else if b == before.len() {
                        assert(before.contains(r@[a]));
                    } else {
                        assert(r@[a] == before[a] && r@[b] == before[b]);
                    }
                }
            }
        }
        i += 1;
    }
    assert(s@.take(i as int) =~= s@);
    r
}

/// An event for the syntax reparse handler.
#[derive(Debug, Clone, Copy, PartialEq, Eq, Structural)]
pub enum SyntaxEvent {
    Change(DocumentId),
    Close(DocumentId),
}

/// Documents waiting for a reparse, and how long each one's last parse took.
pub struct SyntaxHandler {
    pub pending: Vec<DocumentId>,
    pub last_parse: Vec<(DocumentId, u128)>,
}

impl SyntaxHandler {
    pub open spec fn wf(&self) -> bool {
        self.pending@.no_duplicates()
    }

    pub fn new() -> (h: SyntaxHandler)
        ensures
            h.wf(),
            h.pending@.len() == 0,
            forall|d: DocumentId| #[trigger] spec_lookup(h.last_parse@, d) is None,
    {
        SyntaxHandler { pending: Vec::new(), last_parse: Vec::new() }
    }

    /// Reparse delay for `doc`, from how long its last parse took.
    pub fn debounce_for(&self, doc: DocumentId) -> (d: u128)
        ensures
            d == spec_parse_debounce(spec_lookup(self.last_parse@, doc)),
    {
        parse_debounce(lookup(&self.last_parse, doc))
    }

    /// An edit schedules a reparse after the document's delay; closing a
    /// document forgets it (no reparse, no timing).
    pub fn handle_event(&mut self, event: SyntaxEvent) -> (delay: Option<u128>)
        requires
            old(self).wf(),
        ensures
            final(self).wf(),
            match event {
                SyntaxEvent::Change(doc) => {
                    &&& delay == Some(spec_parse_debounce(spec_lookup(old(self).last_parse@, doc)))
                    &&& forall|y: DocumentId| #[trigger] final(self).pending@.contains(y) <==> old(
                        self,
                    ).pending@.contains(y) || y == doc
                    &&& final(self).last_parse@ == old(self).last_parse@
                },
                SyntaxEvent::Close(doc) => {
                    &&& delay is None
                    &&& forall|y: DocumentId| #[trigger] final(self).pending@.contains(y) <==> old(
                        self,
                    ).pending@.contains(y) && y != doc
                    &&& forall|k: DocumentId| #[trigger] spec_lookup(final(self).last_parse@, k) == if k == doc {
                        None
                    } else {
                        spec_lookup(old(self).last_parse@, k)
                    }
                },
            },
    {
        match event {
            SyntaxEvent::Change(doc) => {
                insert_id(&mut self.pending, doc);
                Some(self.debounce_for(doc))
            },
            SyntaxEvent::Close(doc) => {
                self.pending = remove_id(&self.pending, doc);
                self.last_parse = remove_key(&self.last_parse, doc);
                None
            },
        }
    }

    /// Hands out the pending documents for reparsing.
    pub fn finish_debounce(&mut self) -> (pending: Vec<DocumentId>)
        requires
            old(self).wf(),
        ensures
            final(self).wf(),
            pending@ == old(self).pending@,
            final(self).pending@.len() == 0,
            final(self).last_parse@ == old(self).last_parse@,
    {
        let mut taken: Vec<DocumentId> = Vec::new();
        std::mem::swap(&mut taken, &mut self.pending);
        taken
    }

    /// Records how long parsing `doc` took.
    pub fn record_parse(&mut self, doc: DocumentId, elapsed: u128)
        requires
            old(self).wf(),
        ensures
            final(self).wf(),
            final(self).pending@ == old(self).pending@,
            forall|k: DocumentId| #[trigger] spec_lookup(final(self).last_parse@, k) == if k == doc {
                Some(elapsed)
            } else {
                spec_lookup(old(self).last_parse@, k)
            },
    {
        let mut entries = remove_key(&self.last_parse, doc);
        let ghost before = entries@;
        entries.push((doc, elapsed));
        proof {
            assert(entries@.drop_last() =~= before);
            assert forall|k: DocumentId| #[trigger] spec_lookup(entries@, k) == if k == doc {
                Some(elapsed)
            } else {
                spec_lookup(before, k)
            } by {
                assert(entries@.last() == (doc, elapsed));
            }
        }
        self.last_parse = entries;
    }
}

/// The reparse delay follows the last recorded parse: when the handler's
/// timings give `elapsed` for `doc` (as after `record_parse(doc, elapsed)`),
/// the delay is `elapsed` plus the pad, kept between 15 ms and 300 ms; when
/// they give nothing (never parsed, or closed), it is the default 50 ms. No
/// delay exceeds 300 ms.
pub proof fn lemma_debounce_follows_last_parse(
    last_parse: Seq<(DocumentId, u128)>,
    doc: DocumentId,
    elapsed: u128,
)
    ensures
        spec_lookup(last_parse, doc) == Some(elapsed) ==> spec_parse_debounce(
            spec_lookup(last_parse, doc),
        ) == (if elapsed + DEBOUNCE_PAD < MIN_DEBOUNCE {
            MIN_DEBOUNCE as int
        } else if elapsed + DEBOUNCE_PAD > MAX_DEBOUNCE {
            MAX_DEBOUNCE as int
        } else {
            elapsed + DEBOUNCE_PAD
        }),
        spec_lookup(last_parse, doc) is None ==> spec_parse_debounce(spec_lookup(last_parse, doc))
            == DEFAULT_DEBOUNCE,
        spec_parse_debounce(spec_lookup(last_parse, doc)) <= MAX_DEBOUNCE,
{
}

/// Cursor-driven scroll alignment waiting to run: only the latest source
/// view matters.
pub struct ScrollSyncHandler {
    pub pending: Option<ViewId>,
}

impl ScrollSyncHandler {
    pub fn new() -> (h: ScrollSyncHandler)
        ensures
            h.pending is None,
    {
        ScrollSyncHandler { pending: None }
    }

    /// Remembers the view whose selection changed; returns the delay.
    pub fn handle_event(&mut self, view: ViewId) -> (delay: u128)
        ensures
            final(self).pending == Some(view),
            delay == SCROLL_SYNC_DEBOUNCE,
    {
        self.pending = Some(view);
        SCROLL_SYNC_DEBOUNCE
    }

    /// The view to align from, if any, clearing it.
    pub fn finish_debounce(&mut self) -> (view: Option<ViewId>)
        ensures
            view == old(self).pending,
            final(self).pending is None,
    {
        let view = self.pending;
        self.pending = None;
        view
    }
}

/// Documents whose symbols are to be refreshed, each once, in request order.
pub struct DocumentSymbolsHandler {
    pub docs: Vec<DocumentId>,
}

impl DocumentSymbolsHandler {
    pub fn new() -> (h: DocumentSymbolsHandler)
        ensures
            h.docs@.len() == 0,
    {
        DocumentSymbolsHandler { docs: Vec::new() }
    }

    /// Queues `doc` (once) and returns the delay before refreshing.
    pub fn handle_event(&mut self, doc: DocumentId) -> (delay: u128)
        ensures
            delay == DOCUMENT_CHANGE_DEBOUNCE,
            old(self).docs@.contains(doc) ==> final(self).docs@ == old(self).docs@,
            !old(self).docs@.contains(doc) ==> final(self).docs@ == old(self).docs@.push(doc),
    {
        if !contains_id(&self.docs, doc) {
            self.docs.push(doc);
        }
        DOCUMENT_CHANGE_DEBOUNCE
    }

    /// Hands out the queued documents, emptying the queue.
    pub fn finish_debounce(&mut self) -> (docs: Vec<DocumentId>)
        ensures
            docs@ == old(self).docs@,
            final(self).docs@.len() == 0,
    {
        let mut taken: Vec<DocumentId> = Vec::new();
        std::mem::swap(&mut taken, &mut self.docs);
        taken
    }
}

} // verus!
