//! Linked diff buffers: a group of open documents diffed against each
//! other, whose diff bases follow the texts of the other members.

use vstd::prelude::*;

use crate::hex_motion::ViewPosition;
use crate::line_map::{
    diff_wf, hunks_ordered, map_base_line_to_doc, map_doc_line_to_base, spec_map_base_line_to_doc,
    spec_map_doc_line_to_base, Hunk,
};
use crate::text_lines::{char_at_line_col, min_int, spec_char_at_line_col, TextLines};

verus! {

#[derive(Debug, Clone, Copy, PartialEq, Eq, Structural)]
pub struct DocumentId(pub usize);

#[derive(Debug, Clone, Copy, PartialEq, Eq, Structural)]
pub struct ViewId(pub usize);

/// What the diff logic knows of an open document.
pub struct DocState {
    pub id: DocumentId,
    /// The document's text.
    pub text: String,
    /// Anchor document of the diff group the document belongs to.
    pub diff_group: Option<DocumentId>,
    /// For an anchor: the member its diff base is taken from.
    pub diff_compare: Option<DocumentId>,
    /// The text the document is diffed against (`None`: no diff).
    pub diff_base: Option<String>,
    /// Hunks of the current diff against the base (`None`: no diff).
    pub diff_hunks: Option<Vec<Hunk>>,
}

/// The mathematical value of a document's diff state.
pub struct DocView {
    pub id: DocumentId,
    pub text: Seq<char>,
    pub diff_group: Option<DocumentId>,
    pub diff_compare: Option<DocumentId>,
    pub diff_base: Option<Seq<char>>,
    pub diff_hunks: Option<Seq<Hunk>>,
}

impl View for DocState {
    type V = DocView;

    open spec fn view(&self) -> DocView {
        DocView {
            id: self.id,
            text: self.text@,
            diff_group: self.diff_group,
            diff_compare: self.diff_compare,
            diff_base: match self.diff_base {
                Some(b) => Some(b@),
                None => None,
            },
            diff_hunks: match self.diff_hunks {
                Some(h) => Some(h@),
                None => None,
            },
        }
    }
}

/// A view (pane) and the document it shows.
#[derive(Debug, Clone, Copy, PartialEq, Eq, Structural)]
pub struct ViewState {
    pub id: ViewId,
    pub doc: DocumentId,
}

/// Documents (ordered by id) and views (in layout order) of the editor.
pub struct Editor {
    pub docs: Vec<DocState>,
    pub views: Vec<ViewState>,
}

/// Documents are kept in strictly increasing id order.
pub open spec fn docs_wf(docs: Seq<DocView>) -> bool {
    forall|i: int, j: int| 0 <= i < j < docs.len() ==> (#[trigger] docs[i]).id.0 < (#[trigger] docs[j]).id.0
}

impl Editor {
    /// The documents' values, in document order.
    pub open spec fn docs_view(&self) -> Seq<DocView> {
        self.docs@.map_values(|d: DocState| d@)
    }

    pub open spec fn wf(&self) -> bool {
        docs_wf(self.docs_view())
    }
}

pub open spec fn spec_has(docs: Seq<DocView>, id: DocumentId) -> bool {
    exists|i: int| 0 <= i < docs.len() && (#[trigger] docs[i]).id == id
}

pub open spec fn spec_index_of(docs: Seq<DocView>, id: DocumentId) -> int {
    if spec_has(docs, id) {
        choose|i: int| 0 <= i < docs.len() && (#[trigger] docs[i]).id == id
    } else {
        -1
    }
}

/// Diff group of the document `id` (`None` also when there is no such
/// document).
pub open spec fn spec_group_of(docs: Seq<DocView>, id: DocumentId) -> Option<DocumentId> {
    if spec_has(docs, id) {
        docs[spec_index_of(docs, id)].diff_group
    } else {
        None
    }
}

pub open spec fn spec_text_of(docs: Seq<DocView>, id: DocumentId) -> Option<Seq<char>> {
    if spec_has(docs, id) {
        Some(docs[spec_index_of(docs, id)].text)
    } else {
        None
    }
}

/// Ids of the members of the group anchored at `anchor`, in document order.
pub open spec fn spec_group_members(docs: Seq<DocView>, anchor: DocumentId) -> Seq<DocumentId>
    decreases docs.len(),
{
    if docs.len() == 0 {
        Seq::empty()
    } else {
        spec_group_members(docs.drop_last(), anchor) + if docs.last().diff_group == Some(anchor) {
            seq![docs.last().id]
        } else {
            Seq::<DocumentId>::empty()
        }
    }
}

/// A document taken out of its group, with its diff cleared.
pub open spec fn spec_unlinked(d: DocView) -> DocView {
    DocView {
        id: d.id,
        text: d.text,
        diff_group: None,
        diff_compare: None,
        diff_base: None,
        diff_hunks: None,
    }
}

/// Documents after dissolving the group anchored at `anchor`.
pub open spec fn spec_group_unlinked(docs: Seq<DocView>, anchor: DocumentId) -> Seq<DocView> {
    docs.map_values(
        |d: DocView|
            if d.diff_group == Some(anchor) {
                spec_unlinked(d)
            } else {
                d
            },
    )
}

proof fn lemma_index_of(docs: Seq<DocView>, i: int)
    requires
        docs_wf(docs),
        0 <= i < docs.len(),
    ensures
        spec_has(docs, docs[i].id),
        spec_index_of(docs, docs[i].id) == i,
{
    let id = docs[i].id;
    assert(spec_has(docs, id));
    let j = spec_index_of(docs, id);
    if j < i {
        assert(docs[j].id.0 < docs[i].id.0);
    } else if j > i {
        assert(docs[i].id.0 < docs[j].id.0);
    }
}

/// Index of the document with id `id`.
pub fn document_index(editor: &Editor, id: DocumentId) -> (r: Option<usize>)
    requires
        editor.wf(),
    ensures
        r is None <==> !spec_has(editor.docs_view(), id),
        r matches Some(i) ==> i == spec_index_of(editor.docs_view(), id) && i < editor.docs_view().len()
            && editor.docs_view()[i as int].id == id,
{
    let mut i: usize = 0;
    while i < editor.docs.len()
        invariant
            editor.wf(),
            i <= editor.docs_view().len(),
            forall|j: int| 0 <= j < i ==> (#[trigger] editor.docs_view()[j]).id != id,
        decreases editor.docs.len() - i,
    {
        if editor.docs[i].id == id {
            proof {
                lemma_index_of(editor.docs_view(), i as int);
            }
            return Some(i);
        }
        i += 1;
    }
    None
}

/// The members of the diff group anchored at `anchor`, in document order.
pub fn group_members(editor: &Editor, anchor: DocumentId) -> (members: Vec<DocumentId>)
    ensures
        members@ == spec_group_members(editor.docs_view(), anchor),
{
    let mut members: Vec<DocumentId> = Vec::new();
    let mut i: usize = 0;
    while i < editor.docs.len()
        invariant
            i <= editor.docs_view().len(),
            members@ == spec_group_members(editor.docs_view().subrange(0, i as int), anchor),
        decreases editor.docs.len() - i,
    {
        let ghost prefix = editor.docs_view().subrange(0, i as int + 1);
        assert(prefix.drop_last() =~= editor.docs_view().subrange(0, i as int));
        if editor.docs[i].diff_group == Some(anchor) {
            members.push(editor.docs[i].id);
        }
        i += 1;
        assert(members@ =~= spec_group_members(editor.docs_view().subrange(0, i as int), anchor));
    }
    assert(editor.docs_view().subrange(0, i as int) =~= editor.docs_view());
    members
}

/// Clears group membership and diff of the document at index `i`.
fn unlink_doc_at(editor: &mut Editor, i: usize)
    requires
        i < old(editor).docs_view().len(),
    ensures
        final(editor).views == old(editor).views,
        final(editor).docs@.len() == old(editor).docs@.len(),
        final(editor).docs_view() == old(editor).docs_view().update(i as int, spec_unlinked(old(editor).docs_view()[i as int])),
{
    editor.docs[i].diff_group = None;
    editor.docs[i].diff_compare = None;
    editor.docs[i].diff_base = None;
    editor.docs[i].diff_hunks = None;
}

/// Dissolves the group anchored at `anchor`: every member leaves the group
/// and loses its diff. Returns the members, whose diff against version
/// control the caller restores.
fn dissolve_group(editor: &mut Editor, anchor: DocumentId) -> (members: Vec<DocumentId>)
    requires
        old(editor).wf(),
    ensures
        final(editor).wf(),
        final(editor).views == old(editor).views,
        final(editor).docs_view() == spec_group_unlinked(old(editor).docs_view(), anchor),
        members@ == spec_group_members(old(editor).docs_view(), anchor),
{
    let members = group_members(editor, anchor);
    let ghost start = editor.docs_view();
    let mut i: usize = 0;
    while i < editor.docs.len()
        invariant
            i <= editor.docs_view().len(),
            editor.docs@.len() == start.len(),
            editor.docs_view().len() == start.len(),
            editor.views == old(editor).views,
            start == old(editor).docs_view(),
            forall|j: int| 0 <= j < i ==> #[trigger] editor.docs_view()[j] == spec_group_unlinked(start, anchor)[j],
            forall|j: int| i <= j < start.len() ==> #[trigger] editor.docs_view()[j] == start[j],
        decreases editor.docs.len() - i,
    {
        if editor.docs[i].diff_group == Some(anchor) {
            unlink_doc_at(editor, i);
        }
        i += 1;
    }
    assert(editor.docs_view() =~= spec_group_unlinked(start, anchor));
    members
}

/// Documents after `unlink_diff_group(doc_id)`.
pub open spec fn spec_unlink_diff_group(docs: Seq<DocView>, doc_id: DocumentId) -> Seq<DocView> {
    match spec_group_of(docs, doc_id) {
        Some(anchor) => spec_group_unlinked(docs, anchor),
        None => docs,
    }
}

/// Takes the whole group of `doc_id` apart (nothing happens when the
/// document is not in a group). Returns the former members, whose diff
/// against version control is then restored by the caller.
pub fn unlink_diff_group(editor: &mut Editor, doc_id: DocumentId) -> (restore: Vec<DocumentId>)
    requires
        old(editor).wf(),
    ensures
        final(editor).wf(),
        final(editor).views == old(editor).views,
        final(editor).docs_view() == spec_unlink_diff_group(old(editor).docs_view(), doc_id),
        restore@ == match spec_group_of(old(editor).docs_view(), doc_id) {
            Some(anchor) => spec_group_members(old(editor).docs_view(), anchor),
            None => Seq::<DocumentId>::empty(),
        },
{
    let anchor = match document_index(editor, doc_id) {
        Some(i) => editor.docs[i].diff_group,
        None => None,
    };
    match anchor {
        Some(anchor) => dissolve_group(editor, anchor),
        None => Vec::new(),
    }
}

/// Group `g` is dissolved by linking `ids`: one of the documents to link
/// already belonged to it.
pub open spec fn spec_dissolved_by_link(docs: Seq<DocView>, ids: Seq<DocumentId>, g: DocumentId) -> bool {
    exists|k: int| 0 <= k < ids.len() && spec_group_of(docs, #[trigger] ids[k]) == Some(g)
}

pub open spec fn spec_cleared_by_link(docs: Seq<DocView>, ids: Seq<DocumentId>, d: DocView) -> bool {
    match d.diff_group {
        Some(g) => spec_dissolved_by_link(docs, ids, g),
        None => false,
    }
}

/// A document after its old group was dissolved, before it is linked.
pub open spec fn spec_after_dissolve(docs: Seq<DocView>, ids: Seq<DocumentId>, d: DocView) -> DocView {
    if spec_cleared_by_link(docs, ids, d) {
        spec_unlinked(d)
    } else {
        d
    }
}

/// The text a linked document is diffed against: the anchor (`ids[0]`)
/// against the compared document (`ids[1]`), every other member against
/// the anchor.
pub open spec fn spec_link_base_source(ids: Seq<DocumentId>, id: DocumentId) -> DocumentId {
    if id == ids[0] {
        ids[1]
    } else {
        ids[0]
    }
}

/// A document after linking `ids` (with at least two ids).
pub open spec fn spec_linked_doc(docs: Seq<DocView>, ids: Seq<DocumentId>, d: DocView) -> DocView {
    let m = spec_after_dissolve(docs, ids, d);
    if ids.contains(d.id) {
        let source = spec_link_base_source(ids, d.id);
        DocView {
            id: d.id,
            text: d.text,
            diff_group: Some(ids[0]),
            diff_compare: if d.id == ids[0] {
                Some(ids[1])
            } else {
                None
            },
            diff_base: match spec_text_of(docs, source) {
                Some(t) => Some(t),
                None => m.diff_base,
            },
            diff_hunks: match spec_text_of(docs, source) {
                Some(t) => Some(Seq::<Hunk>::empty()),
                None => m.diff_hunks,
            },
        }
    } else {
        m
    }
}

pub open spec fn spec_link_diff_group(docs: Seq<DocView>, ids: Seq<DocumentId>) -> Seq<DocView> {
    if ids.len() < 2 {
        docs
    } else {
        docs.map_values(|d: DocView| spec_linked_doc(docs, ids, d))
    }
}

/// A document whose old group linking dissolved and whose diff base linking
/// does not replace: its diff against version control must be restored.
pub open spec fn spec_needs_restore(docs: Seq<DocView>, ids: Seq<DocumentId>, d: DocView) -> bool {
    spec_cleared_by_link(docs, ids, d) && !(ids.contains(d.id) && spec_has(
        docs,
        spec_link_base_source(ids, d.id),
    ))
}

/// Two document lists with the same ids at every position.
pub open spec fn same_ids(a: Seq<DocView>, b: Seq<DocView>) -> bool {
    a.len() == b.len() && forall|j: int| 0 <= j < a.len() ==> (#[trigger] a[j]).id == b[j].id
}

proof fn lemma_same_ids_has(a: Seq<DocView>, b: Seq<DocView>, id: DocumentId)
    requires
        same_ids(a, b),
    ensures
        spec_has(a, id) == spec_has(b, id),
{
    if spec_has(a, id) {
        let i = choose|i: int| 0 <= i < a.len() && (#[trigger] a[i]).id == id;
        assert(b[i].id == id);
    }
    if spec_has(b, id) {
        let i = choose|i: int| 0 <= i < b.len() && (#[trigger] b[i]).id == id;
        assert(a[i].id == id);
    }
}

proof fn lemma_same_ids_wf(a: Seq<DocView>, b: Seq<DocView>)
    requires
        same_ids(a, b),
        docs_wf(a),
    ensures
        docs_wf(b),
{
    assert forall|i: int, j: int| 0 <= i < j < b.len() implies (#[trigger] b[i]).id.0 < (
    #[trigger] b[j]).id.0 by {
        assert(a[i].id.0 < a[j].id.0);
    }
}

/// Members of a group are exactly the documents in it, each listed once.
pub proof fn lemma_group_members_contains(docs: Seq<DocView>, anchor: DocumentId)
    requires
        docs_wf(docs),
    ensures
        forall|x: DocumentId|
            spec_group_members(docs, anchor).contains(x) <==> exists|j: int|
                0 <= j < docs.len() && (#[trigger] docs[j]).id == x && docs[j].diff_group == Some(
                    anchor,
                ),
        spec_group_members(docs, anchor).no_duplicates(),
        forall|x: DocumentId|
            #[trigger] spec_group_members(docs, anchor).contains(x) ==> docs.len() > 0 && x.0
                <= docs.last().id.0,
    decreases docs.len(),
{
    if docs.len() > 0 {
        let prefix = docs.drop_last();
        assert(docs_wf(prefix));
        lemma_group_members_contains(prefix, anchor);
        let pm = spec_group_members(prefix, anchor);
        let m = spec_group_members(docs, anchor);
        let last = docs.last();
        assert forall|x: DocumentId| m.contains(x) <==> exists|j: int|
            0 <= j < docs.len() && (#[trigger] docs[j]).id == x && docs[j].diff_group == Some(
                anchor,
            ) by {
            if m.contains(x) {
                let k = choose|k: int| 0 <= k < m.len() && m[k] == x;
                if k < pm.len() {
                    assert(pm.contains(x));
                    let j = choose|j: int|
                        0 <= j < prefix.len() && (#[trigger] prefix[j]).id == x
                            && prefix[j].diff_group == Some(anchor);
                    assert(docs[j] == prefix[j]);
                } else {
                    assert(docs[docs.len() - 1].id == x);
                }
            }
            if exists|j: int|
                0 <= j < docs.len() && (#[trigger] docs[j]).id == x && docs[j].diff_group == Some(
                    anchor,
                ) {
                let j = choose|j: int|
                    0 <= j < docs.len() && (#[trigger] docs[j]).id == x && docs[j].diff_group
                        == Some(anchor);
                if j < docs.len() - 1 {
                    assert(prefix[j] == docs[j]);
                    assert(pm.contains(x));
                    let k = choose|k: int| 0 <= k < pm.len() && pm[k] == x;
                    assert(m[k] == x);
                } else {
                    assert(m[m.len() - 1] == x);
                }
            }
        }
        assert forall|x: DocumentId| #[trigger] m.contains(x) implies docs.len() > 0 && x.0
            <= docs.last().id.0 by {
            let k = choose|k: int| 0 <= k < m.len() && m[k] == x;
            if k < pm.len() {
                assert(pm.contains(x));
                assert(prefix.last().id.0 < last.id.0);
            }
        }
        if last.diff_group == Some(anchor) {
            assert(!pm.contains(last.id)) by {
                if pm.contains(last.id) {
                    assert(prefix.last().id.0 < last.id.0);
                }
            }
            assert forall|i: int, j: int| 0 <= i < m.len() && 0 <= j < m.len() && i != j implies m[i]
                != m[j] by {
                if i < pm.len() && j < pm.len() {
                } else if i < pm.len() {
                    assert(pm.contains(m[i]));
                } else if j < pm.len() {
                    assert(pm.contains(m[j]));
                }
            }
        } else {
            assert(m =~= pm);
        }
    }
}

/// Whether `ids` lists `x`.
fn ids_contain(ids: &[DocumentId], x: DocumentId) -> (b: bool)
    ensures
        b == ids@.contains(x),
{
    let mut i: usize = 0;
    while i < ids.len()
        invariant
            i <= ids@.len(),
            forall|j: int| 0 <= j < i ==> ids@[j] != x,
        decreases ids.len() - i,
    {
        if ids[i] == x {
            assert(ids@[i as int] == x);
            return true;
        }
        i += 1;
    }
    false
}

proof fn lemma_dissolved_step(docs: Seq<DocView>, ids: Seq<DocumentId>, k: int, g: DocumentId)
    requires
        0 <= k < ids.len(),
    ensures
        spec_dissolved_by_link(docs, ids.take(k + 1), g) == (spec_dissolved_by_link(
            docs,
            ids.take(k),
            g,
        ) || spec_group_of(docs, ids[k]) == Some(g)),
{
    let a = ids.take(k + 1);
    let b = ids.take(k);
    if spec_dissolved_by_link(docs, a, g) {
        let k2 = choose|k2: int| 0 <= k2 < a.len() && spec_group_of(docs, #[trigger] a[k2]) == Some(g);
        if k2 < k {
            assert(b[k2] == a[k2]);
        }
    }
    if spec_dissolved_by_link(docs, b, g) {
        let k2 = choose|k2: int| 0 <= k2 < b.len() && spec_group_of(docs, #[trigger] b[k2]) == Some(g);
        assert(a[k2] == b[k2]);
    }
    if spec_group_of(docs, ids[k]) == Some(g) {
        assert(a[k] == ids[k]);
    }
}

proof fn lemma_concat_no_duplicates<T>(a: Seq<T>, b: Seq<T>)
    requires
        a.no_duplicates(),
        b.no_duplicates(),
        forall|x: T| b.contains(x) ==> !a.contains(x),
    ensures
        (a + b).no_duplicates(),
{
    let c = a + b;
    assert forall|i: int, j: int| 0 <= i < c.len() && 0 <= j < c.len() && i != j implies c[i] != c[j] by {
        if i < a.len() && j >= a.len() {
            assert(b.contains(c[j]));
            assert(a.contains(c[i]));
        } else if j < a.len() && i >= a.len() {
            assert(b.contains(c[i]));
            assert(a.contains(c[j]));
        }
    }
}

/// Documents of group `g` are exactly the documents that were in `g`
/// before linking started, when `g` was not dissolved yet.
proof fn lemma_members_fresh(
    docs0: Seq<DocView>,
    cur: Seq<DocView>,
    ids: Seq<DocumentId>,
    k: int,
    g: DocumentId,
    before: Seq<DocumentId>,
)
    requires
        docs_wf(docs0),
        0 <= k < ids.len(),
        cur.len() == docs0.len(),
        forall|j: int|
            0 <= j < docs0.len() ==> #[trigger] cur[j] == spec_after_dissolve(docs0, ids.take(k), docs0[j]),
        forall|x: DocumentId|
            before.contains(x) <==> exists|i: int|
                0 <= i < docs0.len() && (#[trigger] docs0[i]).id == x && spec_cleared_by_link(
                    docs0,
                    ids.take(k),
                    docs0[i],
                ),
        !spec_dissolved_by_link(docs0, ids.take(k), g),
    ensures
        forall|j: int| 0 <= j < docs0.len() ==> (#[trigger] cur[j].diff_group == Some(g) <==> docs0[j].diff_group == Some(g)),
        forall|x: DocumentId|
            spec_group_members(cur, g).contains(x) ==> !before.contains(x),
        forall|x: DocumentId|
            #[trigger] spec_group_members(cur, g).contains(x) <==> exists|j: int|
                0 <= j < docs0.len() && (#[trigger] docs0[j]).id == x && docs0[j].diff_group == Some(g),
{
    assert(same_ids(docs0, cur));
    lemma_same_ids_wf(docs0, cur);
    lemma_group_members_contains(cur, g);
    assert forall|j: int| 0 <= j < docs0.len() implies (#[trigger] cur[j].diff_group == Some(g) <==> docs0[j].diff_group == Some(g)) by {
        assert(cur[j] == spec_after_dissolve(docs0, ids.take(k), docs0[j]));
    }
    assert forall|x: DocumentId|
        #[trigger] spec_group_members(cur, g).contains(x) <==> exists|j: int|
            0 <= j < docs0.len() && (#[trigger] docs0[j]).id == x && docs0[j].diff_group == Some(g) by {
        if spec_group_members(cur, g).contains(x) {
            let j = choose|j: int| 0 <= j < cur.len() && (#[trigger] cur[j]).id == x && cur[j].diff_group == Some(g);
            assert(cur[j].diff_group == Some(g));
            assert(docs0[j].id == x);
        }
        if exists|j: int| 0 <= j < docs0.len() && (#[trigger] docs0[j]).id == x && docs0[j].diff_group == Some(g) {
            let j = choose|j: int| 0 <= j < docs0.len() && (#[trigger] docs0[j]).id == x && docs0[j].diff_group == Some(g);
            assert(cur[j].diff_group == Some(g));
            assert(cur[j].id == x);
        }
    }
    assert forall|x: DocumentId| spec_group_members(cur, g).contains(x) implies !before.contains(x) by {
        let j = choose|j: int| 0 <= j < docs0.len() && (#[trigger] docs0[j]).id == x && docs0[j].diff_group == Some(g);
        if before.contains(x) {
            let i = choose|i: int|
                0 <= i < docs0.len() && (#[trigger] docs0[i]).id == x && spec_cleared_by_link(docs0, ids.take(k), docs0[i]);
            if i < j {
                assert(docs0[i].id.0 < docs0[j].id.0);
            } else if j < i {
                assert(docs0[j].id.0 < docs0[i].id.0);
            }
        }
    }
}

/// Bookkeeping of the dissolved documents after dissolving group `g`.
proof fn lemma_dissolve_step_sets(
    docs0: Seq<DocView>,
    cur: Seq<DocView>,
    ids: Seq<DocumentId>,
    k: int,
    g: DocumentId,
    members: Seq<DocumentId>,
    before: Seq<DocumentId>,
)
    requires
        docs_wf(docs0),
        0 <= k < ids.len(),
        cur.len() == docs0.len(),
        forall|j: int|
            0 <= j < docs0.len() ==> #[trigger] cur[j] == spec_after_dissolve(docs0, ids.take(k), docs0[j]),
        forall|x: DocumentId|
            before.contains(x) <==> exists|i: int|
                0 <= i < docs0.len() && (#[trigger] docs0[i]).id == x && spec_cleared_by_link(
                    docs0,
                    ids.take(k),
                    docs0[i],
                ),
        !spec_dissolved_by_link(docs0, ids.take(k), g),
        spec_group_of(docs0, ids[k]) == Some(g),
        members == spec_group_members(cur, g),
    ensures
        forall|j: int|
            0 <= j < docs0.len() ==> #[trigger] spec_group_unlinked(cur, g)[j] == spec_after_dissolve(
                docs0,
                ids.take(k + 1),
                docs0[j],
            ),
        forall|x: DocumentId|
            (before + members).contains(x) <==> exists|i: int|
                0 <= i < docs0.len() && (#[trigger] docs0[i]).id == x && spec_cleared_by_link(
                    docs0,
                    ids.take(k + 1),
                    docs0[i],
                ),
{
    lemma_members_fresh(docs0, cur, ids, k, g, before);
    assert forall|gg: DocumentId| spec_dissolved_by_link(docs0, ids.take(k + 1), gg)
        == (spec_dissolved_by_link(docs0, ids.take(k), gg) || gg == g) by {
        lemma_dissolved_step(docs0, ids, k, gg);
    }
    assert forall|j: int|
        0 <= j < docs0.len() implies #[trigger] spec_group_unlinked(cur, g)[j] == spec_after_dissolve(
        docs0,
        ids.take(k + 1),
        docs0[j],
    ) by {
        assert(cur[j] == spec_after_dissolve(docs0, ids.take(k), docs0[j]));
        match docs0[j].diff_group {
            Some(gg) => {
                assert(spec_dissolved_by_link(docs0, ids.take(k + 1), gg)
                    == (spec_dissolved_by_link(docs0, ids.take(k), gg) || gg == g));
            },
            None => {},
        }
    }
    assert forall|x: DocumentId|
        (before + members).contains(x) <==> exists|i: int|
            0 <= i < docs0.len() && (#[trigger] docs0[i]).id == x && spec_cleared_by_link(
                docs0,
                ids.take(k + 1),
                docs0[i],
            ) by {
        if (before + members).contains(x) {
            let p = choose|p: int| 0 <= p < (before + members).len() && (before + members)[p] == x;
            if p < before.len() {
                assert(before.contains(x));
                let i = choose|i: int|
                    0 <= i < docs0.len() && (#[trigger] docs0[i]).id == x && spec_cleared_by_link(docs0, ids.take(k), docs0[i]);
                let gg = docs0[i].diff_group.unwrap();
                assert(spec_dissolved_by_link(docs0, ids.take(k + 1), gg));
            } else {
                assert(members.contains(x));
                let j = choose|j: int| 0 <= j < docs0.len() && (#[trigger] docs0[j]).id == x && docs0[j].diff_group == Some(g);
                assert(spec_dissolved_by_link(docs0, ids.take(k + 1), g));
            }
        }
        if exists|i: int|
            0 <= i < docs0.len() && (#[trigger] docs0[i]).id == x && spec_cleared_by_link(docs0, ids.take(k + 1), docs0[i]) {
            let i = choose|i: int|
                0 <= i < docs0.len() && (#[trigger] docs0[i]).id == x && spec_cleared_by_link(docs0, ids.take(k + 1), docs0[i]);
            let gg = docs0[i].diff_group.unwrap();
            if gg == g {
                assert(members.contains(x));
                let p = choose|p: int| 0 <= p < members.len() && members[p] == x;
                assert((before + members)[before.len() + p] == x);
            } else {
                assert(spec_dissolved_by_link(docs0, ids.take(k), gg));
                assert(before.contains(x));
                let p = choose|p: int| 0 <= p < before.len() && before[p] == x;
                assert((before + members)[p] == x);
            }
        }
    }
}

/// Nothing is dissolved when the next id has no group (left now).
proof fn lemma_dissolve_none_step(docs0: Seq<DocView>, cur: Seq<DocView>, ids: Seq<DocumentId>, k: int)
    requires
        docs_wf(docs0),
        0 <= k < ids.len(),
        cur.len() == docs0.len(),
        forall|j: int|
            0 <= j < docs0.len() ==> #[trigger] cur[j] == spec_after_dissolve(docs0, ids.take(k), docs0[j]),
        spec_has(docs0, ids[k]) ==> cur[spec_index_of(docs0, ids[k])].diff_group is None,
    ensures
        forall|gg: DocumentId| spec_dissolved_by_link(docs0, ids.take(k + 1), gg)
            == spec_dissolved_by_link(docs0, ids.take(k), gg),
{
    assert forall|gg: DocumentId| spec_dissolved_by_link(docs0, ids.take(k + 1), gg)
        == spec_dissolved_by_link(docs0, ids.take(k), gg) by {
        lemma_dissolved_step(docs0, ids, k, gg);
        if spec_group_of(docs0, ids[k]) == Some(gg) {
            let i = spec_index_of(docs0, ids[k]);
            assert(0 <= i < docs0.len() && docs0[i].id == ids[k]);
            assert(cur[i] == spec_after_dissolve(docs0, ids.take(k), docs0[i]));
        }
    }
}

/// Links the documents `doc_ids` into one diff group anchored at the first
/// one: groups they belonged to are dissolved first; the anchor is diffed
/// against the second document, every other member against the anchor.
/// Returns the documents whose diff against version control the caller
/// restores (members of dissolved groups that linking does not give a new
/// diff base). Fewer than two ids change nothing.
pub fn link_diff_group(editor: &mut Editor, doc_ids: &[DocumentId]) -> (restore: Vec<DocumentId>)
    requires
        old(editor).wf(),
    ensures
        final(editor).wf(),
        final(editor).views == old(editor).views,
        final(editor).docs_view() == spec_link_diff_group(old(editor).docs_view(), doc_ids@),
        doc_ids@.len() < 2 ==> restore@.len() == 0,
        doc_ids@.len() >= 2 ==> forall|x: DocumentId|
            restore@.contains(x) <==> exists|i: int|
                0 <= i < old(editor).docs_view().len() && (#[trigger] old(editor).docs_view()[i]).id
                    == x && spec_needs_restore(
                    old(editor).docs_view(),
                    doc_ids@,
                    old(editor).docs_view()[i],
                ),
        restore@.no_duplicates(),
{
    if doc_ids.len() < 2 {
        return Vec::new();
    }
    let ghost docs0 = editor.docs_view();
    let ghost ids = doc_ids@;
    let mut dissolved: Vec<DocumentId> = Vec::new();
    let mut k: usize = 0;
    while k < doc_ids.len()
        invariant
            k <= ids.len(),
            ids == doc_ids@,
            editor.wf(),
            editor.views == old(editor).views,
            docs0 == old(editor).docs_view(),
            docs_wf(docs0),
            same_ids(docs0, editor.docs_view()),
            forall|j: int|
                0 <= j < docs0.len() ==> #[trigger] editor.docs_view()[j] == spec_after_dissolve(
                    docs0,
                    ids.take(k as int),
                    docs0[j],
                ),
            forall|x: DocumentId|
                dissolved@.contains(x) <==> exists|i: int|
                    0 <= i < docs0.len() && (#[trigger] docs0[i]).id == x && spec_cleared_by_link(
                        docs0,
                        ids.take(k as int),
                        docs0[i],
                    ),
            dissolved@.no_duplicates(),
        decreases ids.len() - k,
    {
        let ghost cur = editor.docs_view();
        let ghost before_dissolved = dissolved@;
        let idx = document_index(editor, doc_ids[k]);
        proof {
            lemma_same_ids_has(docs0, cur, ids[k as int]);
            match idx {
                Some(i) => {
                    lemma_index_of(docs0, i as int);
                },
                None => {},
            }
        }
        let group = match idx {
            Some(i) => editor.docs[i].diff_group,
            None => None,
        };
        match group {
            Some(g) => {
                let ghost i = idx.unwrap() as int;
                assert(spec_group_of(docs0, ids[k as int]) == Some(g));
                assert(!spec_dissolved_by_link(docs0, ids.take(k as int), g));
                let members = dissolve_group(editor, g);
                proof {
                    lemma_group_members_contains(cur, g);
                    lemma_members_fresh(docs0, cur, ids, k as int, g, before_dissolved);
                }
                let mut m: usize = 0;
                while m < members.len()
                    invariant
                        m <= members@.len(),
                        members@.no_duplicates(),
                        forall|x: DocumentId|
                            members@.contains(x) ==> !before_dissolved.contains(x),
                        dissolved@ == before_dissolved + members@.take(m as int),
                        before_dissolved.no_duplicates(),
                    decreases members.len() - m,
                {
                    proof {
                        assert(members@.contains(members@[m as int]));
                        assert forall|a: int| 0 <= a < m implies members@.take(m as int)[a]
                            != members@[m as int] by {}
                    }
                    dissolved.push(members[m]);
                    m += 1;
                    assert(dissolved@ =~= before_dissolved + members@.take(m as int));
                }
                assert(members@.take(m as int) =~= members@);
                proof {
                    lemma_concat_no_duplicates(before_dissolved, members@);
                    lemma_dissolve_step_sets(docs0, cur, ids, k as int, g, members@, before_dissolved);
                }
            },
            None => {
                proof {
                    lemma_dissolve_none_step(docs0, cur, ids, k as int);
                }
            },
        }
        k += 1;
        assert forall|j: int|
            0 <= j < docs0.len() implies #[trigger] editor.docs_view()[j] == spec_after_dissolve(
            docs0,
            ids.take(k as int),
            docs0[j],
        ) by {}
    }
    assert(ids.take(k as int) =~= ids);
    let anchor = doc_ids[0];
    let compare = doc_ids[1];
    let anchor_text = text_of(editor, anchor, Ghost(docs0));
    let compare_text = text_of(editor, compare, Ghost(docs0));
    let mut k: usize = 0;
    while k < doc_ids.len()
        invariant
            k <= ids.len(),
            ids == doc_ids@,
            ids.len() >= 2,
            anchor == ids[0],
            compare == ids[1],
            editor.wf(),
            editor.views == old(editor).views,
            docs0 == old(editor).docs_view(),
            docs_wf(docs0),
            same_ids(docs0, editor.docs_view()),
            text_matches(anchor_text, spec_text_of(docs0, anchor)),
            text_matches(compare_text, spec_text_of(docs0, compare)),
            forall|j: int|
                0 <= j < docs0.len() ==> #[trigger] editor.docs_view()[j] == if ids.take(
                    k as int,
                ).contains(docs0[j].id) {
                    spec_linked_doc(docs0, ids, docs0[j])
                } else {
                    spec_after_dissolve(docs0, ids, docs0[j])
                },
        decreases ids.len() - k,
    {
        let ghost cur = editor.docs_view();
        let idx = document_index(editor, doc_ids[k]);
        match idx {
            Some(i) => {
                proof {
                    lemma_index_of(docs0, i as int);
                    assert(docs0[i as int].id == ids[k as int]);
                }
                link_doc_at(editor, i, anchor, compare, &anchor_text, &compare_text);
                proof {
                    lemma_same_ids_wf(docs0, editor.docs_view());
                }
            },
            None => {
                proof {
                    lemma_same_ids_has(docs0, cur, ids[k as int]);
                }
            },
        }
        proof {
            assert forall|j: int|
                0 <= j < docs0.len() implies #[trigger] editor.docs_view()[j] == if ids.take(
                k + 1,
            ).contains(docs0[j].id) {
                spec_linked_doc(docs0, ids, docs0[j])
            } else {
                spec_after_dissolve(docs0, ids, docs0[j])
            } by {
                let x = docs0[j].id;
                assert(ids.take(k + 1).contains(x) == (ids.take(k as int).contains(x) || ids[k as int]
                    == x)) by {
                    if ids.take(k + 1).contains(x) {
                        let p = choose|p: int| 0 <= p < k + 1 && #[trigger] ids.take(k + 1)[p] == x;
                        if p < k {
                            assert(ids.take(k as int)[p] == x);
                        }
                    }
                    if ids.take(k as int).contains(x) {
                        let p = choose|p: int| 0 <= p < k && #[trigger] ids.take(k as int)[p] == x;
                        assert(ids.take(k + 1)[p] == x);
                    }
                    if ids[k as int] == x {
                        assert(ids.take(k + 1)[k as int] == x);
                    }
                }
                if ids[k as int] == x {
                    assert(spec_has(docs0, x));
                    lemma_same_ids_has(docs0, cur, x);
                    lemma_index_of(docs0, j);
                }
            }
        }
        k += 1;
    }
    assert(ids.take(k as int) =~= ids);
    assert(editor.docs_view() =~= spec_link_diff_group(docs0, ids));
    let mut restore: Vec<DocumentId> = Vec::new();
    let mut r: usize = 0;
    while r < dissolved.len()
        invariant
            r <= dissolved@.len(),
            ids == doc_ids@,
            ids.len() >= 2,
            editor.wf(),
            docs_wf(docs0),
            same_ids(docs0, editor.docs_view()),
            dissolved@.no_duplicates(),
            forall|x: DocumentId|
                restore@.contains(x) <==> exists|p: int|
                    0 <= p < r && dissolved@[p] == x && !(ids.contains(x) && spec_has(
                        docs0,
                        spec_link_base_source(ids, x),
                    )),
            restore@.no_duplicates(),
        decreases dissolved.len() - r,
    {
        let x = dissolved[r];
        let source = if x == doc_ids[0] {
            doc_ids[1]
        } else {
            doc_ids[0]
        };
        let replaced = ids_contain(doc_ids, x) && document_index(editor, source).is_some();
        proof {
            lemma_same_ids_has(docs0, editor.docs_view(), source);
        }
        let ghost before = restore@;
        if !replaced {
            proof {
                assert(!before.contains(x)) by {
                    if before.contains(x) {
                        let p = choose|p: int|
                            0 <= p < r && dissolved@[p] == x && !(ids.contains(x) && spec_has(
                                docs0,
                                spec_link_base_source(ids, x),
                            ));
                        assert(dissolved@[p] == dissolved@[r as int]);
                    }
                }
            }
            restore.push(x);
            proof {
                assert forall|i: int, j: int|
                    0 <= i < restore@.len() && 0 <= j < restore@.len() && i != j implies restore@[i]
                    != restore@[j] by {
                    if i == before.len() {
                        assert(before.contains(restore@[j]));
                    } else if j == before.len() {
                        assert(before.contains(restore@[i]));
                    } else {
                        assert(restore@[i] == before[i] && restore@[j] == before[j]);
                    }
                }
            }
        }
        proof {
            assert forall|y: DocumentId|
                restore@.contains(y) <==> exists|p: int|
                    0 <= p < r + 1 && dissolved@[p] == y && !(ids.contains(y) && spec_has(
                        docs0,
                        spec_link_base_source(ids, y),
                    )) by {
                if restore@.contains(y) {
                    let q = choose|q: int| 0 <= q < restore@.len() && restore@[q] == y;
                    if q < before.len() {
                        assert(before.contains(y));
                    }
                }
                if exists|p: int|
                    0 <= p < r + 1 && dissolved@[p] == y && !(ids.contains(y) && spec_has(
                        docs0,
                        spec_link_base_source(ids, y),
                    )) {
                    let p = choose|p: int|
                        0 <= p < r + 1 && dissolved@[p] == y && !(ids.contains(y) && spec_has(
                            docs0,
                            spec_link_base_source(ids, y),
                        ));
                    if p < r {
                        assert(before.contains(y));
                        let q = choose|q: int| 0 <= q < before.len() && before[q] == y;
                        assert(restore@[q] == y);
                    } else {
                        assert(restore@[restore@.len() - 1] == y);
                    }
                }
            }
        }
        r += 1;
    }
    proof {
        assert forall|x: DocumentId|
            restore@.contains(x) <==> exists|i: int|
                0 <= i < docs0.len() && (#[trigger] docs0[i]).id == x && spec_needs_restore(
                    docs0,
                    ids,
                    docs0[i],
                ) by {
            if restore@.contains(x) {
                let p = choose|p: int|
                    0 <= p < r && dissolved@[p] == x && !(ids.contains(x) && spec_has(
                        docs0,
                        spec_link_base_source(ids, x),
                    ));
                assert(dissolved@.contains(x));
            }
            if exists|i: int|
                0 <= i < docs0.len() && (#[trigger] docs0[i]).id == x && spec_needs_restore(
                    docs0,
                    ids,
                    docs0[i],
                ) {
                let i = choose|i: int|
                    0 <= i < docs0.len() && (#[trigger] docs0[i]).id == x && spec_needs_restore(
                        docs0,
                        ids,
                        docs0[i],
                    );
                assert(dissolved@.contains(x));
                let p = choose|p: int| 0 <= p < dissolved@.len() && dissolved@[p] == x;
            }
        }
    }
    restore
}

pub open spec fn text_matches(t: Option<String>, s: Option<Seq<char>>) -> bool {
    match t {
        Some(t) => s == Some(t@),
        None => s is None,
    }
}

/// A copy of the text of document `id`, as it was before linking started.
fn text_of(editor: &Editor, id: DocumentId, Ghost(docs0): Ghost<Seq<DocView>>) -> (t: Option<String>)
    requires
        editor.wf(),
        docs_wf(docs0),
        same_ids(docs0, editor.docs_view()),
        forall|j: int| 0 <= j < docs0.len() ==> (#[trigger] editor.docs_view()[j]).text == docs0[j].text,
    ensures
        text_matches(t, spec_text_of(docs0, id)),
{
    proof {
        lemma_same_ids_has(docs0, editor.docs_view(), id);
    }
    match document_index(editor, id) {
        Some(i) => {
            proof {
                lemma_index_of(docs0, i as int);
            }
            Some(editor.docs[i].text.clone())
        },
        None => None,
    }
}

/// Puts the document at index `i` into the group anchored at `anchor`,
/// with the diff base it gets from linking.
fn link_doc_at(
    editor: &mut Editor,
    i: usize,
    anchor: DocumentId,
    compare: DocumentId,
    anchor_text: &Option<String>,
    compare_text: &Option<String>,
)
    requires
        i < old(editor).docs@.len(),
    ensures
        final(editor).views == old(editor).views,
        final(editor).docs@.len() == old(editor).docs@.len(),
        ({
            let d = old(editor).docs_view()[i as int];
            let source_text = if d.id == anchor {
                compare_text
            } else {
                anchor_text
            };
            final(editor).docs_view() == old(editor).docs_view().update(
                i as int,
                DocView {
                    id: d.id,
                    text: d.text,
                    diff_group: Some(anchor),
                    diff_compare: if d.id == anchor {
                        Some(compare)
                    } else {
                        None
                    },
                    diff_base: match source_text {
                        Some(t) => Some(t@),
                        None => d.diff_base,
                    },
                    diff_hunks: match source_text {
                        Some(t) => Some(Seq::<Hunk>::empty()),
                        None => d.diff_hunks,
                    },
                },
            )
        }),
{
    editor.docs[i].diff_group = Some(anchor);
    let source_text = if editor.docs[i].id == anchor {
        editor.docs[i].diff_compare = Some(compare);
        compare_text
    } else {
        editor.docs[i].diff_compare = None;
        anchor_text
    };
    match source_text {
        Some(t) => {
            editor.docs[i].diff_base = Some(t.clone());
            editor.docs[i].diff_hunks = Some(Vec::new());
        },
        None => {},
    }
}

/// A document diffed against `text` from now on (fresh diff, no hunks yet).
pub open spec fn spec_with_base(d: DocView, text: Seq<char>) -> DocView {
    DocView {
        id: d.id,
        text: d.text,
        diff_group: d.diff_group,
        diff_compare: d.diff_compare,
        diff_base: Some(text),
        diff_hunks: Some(Seq::empty()),
    }
}

/// Documents after document `changed` got the new text `text`: a changed
/// anchor becomes the diff base of every other member; a changed compared
/// document becomes the diff base of its anchor.
pub open spec fn spec_sync_group_on_change(docs: Seq<DocView>, changed: DocumentId, text: Seq<char>) -> Seq<DocView> {
    match spec_group_of(docs, changed) {
        None => docs,
        Some(anchor) => if changed == anchor {
            docs.map_values(
                |d: DocView|
                    if d.diff_group == Some(anchor) && d.id != anchor {
                        spec_with_base(d, text)
                    } else {
                        d
                    },
            )
        } else if spec_has(docs, anchor) && docs[spec_index_of(docs, anchor)].diff_compare == Some(
            changed,
        ) {
            docs.update(
                spec_index_of(docs, anchor),
                spec_with_base(docs[spec_index_of(docs, anchor)], text),
            )
        } else {
            docs
        },
    }
}

fn set_base_at(editor: &mut Editor, i: usize, text: &String)
    requires
        i < old(editor).docs@.len(),
    ensures
        final(editor).views == old(editor).views,
        final(editor).docs@.len() == old(editor).docs@.len(),
        final(editor).docs_view() == old(editor).docs_view().update(
            i as int,
            spec_with_base(old(editor).docs_view()[i as int], text@),
        ),
{
    editor.docs[i].diff_base = Some(text.clone());
    editor.docs[i].diff_hunks = Some(Vec::new());
}

/// Keeps the diff bases of a group in step with an edit of document
/// `changed`, whose new text is `text`.
pub fn sync_group_on_change(editor: &mut Editor, changed: DocumentId, text: String)
    requires
        old(editor).wf(),
    ensures
        final(editor).wf(),
        final(editor).views == old(editor).views,
        final(editor).docs_view() == spec_sync_group_on_change(old(editor).docs_view(), changed, text@),
{
    let ghost docs0 = editor.docs_view();
    let anchor = match document_index(editor, changed) {
        Some(i) => editor.docs[i].diff_group,
        None => None,
    };
    let anchor = match anchor {
        Some(a) => a,
        None => {
            return;
        },
    };
    if changed == anchor {
        let mut i: usize = 0;
        while i < editor.docs.len()
            invariant
                i <= editor.docs@.len(),
                editor.docs@.len() == docs0.len(),
                editor.views == old(editor).views,
                docs0 == old(editor).docs_view(),
                spec_group_of(docs0, changed) == Some(anchor),
                changed == anchor,
                forall|j: int|
                    0 <= j < i ==> #[trigger] editor.docs_view()[j] == spec_sync_group_on_change(
                        docs0,
                        changed,
                        text@,
                    )[j],
                forall|j: int| i <= j < docs0.len() ==> #[trigger] editor.docs_view()[j] == docs0[j],
            decreases editor.docs.len() - i,
        {
            if editor.docs[i].diff_group == Some(anchor) && editor.docs[i].id != anchor {
                set_base_at(editor, i, &text);
            }
            i += 1;
        }
        assert(editor.docs_view() =~= spec_sync_group_on_change(docs0, changed, text@));
        proof {
            assert(same_ids(docs0, editor.docs_view()));
            lemma_same_ids_wf(docs0, editor.docs_view());
        }
        return;
    }
    match document_index(editor, anchor) {
        Some(a) => {
            if editor.docs[a].diff_compare == Some(changed) {
                set_base_at(editor, a, &text);
                proof {
                    assert(same_ids(docs0, editor.docs_view()));
                    lemma_same_ids_wf(docs0, editor.docs_view());
                }
            }
        },
        None => {},
    }
}

/// Ids in first-occurrence order, without repetitions.
pub open spec fn spec_dedup(s: Seq<DocumentId>) -> Seq<DocumentId>
    decreases s.len(),
{
    if s.len() == 0 {
        Seq::empty()
    } else {
        let p = spec_dedup(s.drop_last());
        if p.contains(s.last()) {
            p
        } else {
            p.push(s.last())
        }
    }
}

pub open spec fn spec_view_docs(views: Seq<ViewState>) -> Seq<DocumentId> {
    views.map_values(|v: ViewState| v.doc)
}

/// Documents shown in some view, each once, in layout order.
pub fn visible_buffer_ids(editor: &Editor) -> (ids: Vec<DocumentId>)
    ensures
        ids@ == spec_dedup(spec_view_docs(editor.views@)),
{
    let mut ids: Vec<DocumentId> = Vec::new();
    let mut i: usize = 0;
    while i < editor.views.len()
        invariant
            i <= editor.views@.len(),
            ids@ == spec_dedup(spec_view_docs(editor.views@.take(i as int))),
        decreases editor.views.len() - i,
    {
        let doc = editor.views[i].doc;
        let seen = ids_contain(&ids, doc);
        proof {
            let s = spec_view_docs(editor.views@.take(i + 1));
            assert(s.drop_last() =~= spec_view_docs(editor.views@.take(i as int)));
            assert(s.last() == doc);
        }
        if !seen {
            ids.push(doc);
        }
        i += 1;
    }
    assert(editor.views@.take(i as int) =~= editor.views@);
    ids
}

/// Deduplication keeps exactly the distinct ids, each once.
pub proof fn lemma_dedup(s: Seq<DocumentId>)
    ensures
        spec_dedup(s).no_duplicates(),
        forall|x: DocumentId| spec_dedup(s).contains(x) <==> s.contains(x),
    decreases s.len(),
{
    if s.len() > 0 {
        let q = s.drop_last();
        lemma_dedup(q);
        let p = spec_dedup(q);
        assert forall|x: DocumentId| spec_dedup(s).contains(x) <==> s.contains(x) by {
            if q.contains(x) {
                let k = choose|k: int| 0 <= k < q.len() && q[k] == x;
                assert(s[k] == x);
            }
            if s.contains(x) {
                let k = choose|k: int| 0 <= k < s.len() && s[k] == x;
                if k < s.len() - 1 {
                    assert(q[k] == x);
                }
            }
            if !p.contains(s.last()) {
                if p.push(s.last()).contains(x) {
                    let k = choose|k: int| 0 <= k < p.len() + 1 && p.push(s.last())[k] == x;
                    if k < p.len() {
                        assert(p.contains(x));
                    }
                }
                if p.contains(x) {
                    let k = choose|k: int| 0 <= k < p.len() && p[k] == x;
                    assert(p.push(s.last())[k] == x);
                }
                if x == s.last() {
                    assert(p.push(s.last())[p.len() as int] == x);
                }
            }
        }
        if !p.contains(s.last()) {
            let r = p.push(s.last());
            assert forall|i: int, j: int| 0 <= i < r.len() && 0 <= j < r.len() && i != j implies r[i]
                != r[j] by {
                if i == p.len() {
                    assert(p.contains(r[j]));
                } else if j == p.len() {
                    assert(p.contains(r[i]));
                }
            }
        }
    }
}

/// The fewest documents a diff can link.
#[derive(Debug, Clone, Copy, PartialEq, Eq, Structural)]
pub enum LinkLabel {
    Buffers,
    Files,
}

/// Linking was asked for fewer than two documents.
#[derive(Debug, Clone, Copy, PartialEq, Eq, Structural)]
pub struct LinkError {
    pub label: LinkLabel,
}

impl LinkError {
    /// `need at least 2 buffers to diff` or `need at least 2 files to diff`.
    pub fn message(&self) -> (m: String)
        ensures
            self.label == LinkLabel::Buffers ==> m@ == "need at least 2 buffers to diff"@,
            self.label == LinkLabel::Files ==> m@ == "need at least 2 files to diff"@,
    {
        match self.label {
            LinkLabel::Buffers => String::from_str("need at least 2 buffers to diff"),
            LinkLabel::Files => String::from_str("need at least 2 files to diff"),
        }
    }
}

/// What a successful link did: the documents whose diff against version
/// control the caller restores, and the panes to realign (with their
/// lines) from the focused pane, as the scroll sync run right after linking
/// gives them.
#[derive(Debug)]
pub struct LinkOutcome {
    pub restore: Vec<DocumentId>,
    pub targets: Vec<ScrollTarget>,
}

/// Linking keeps every diff's hunk ranges ordered (new diffs start with no
/// hunks).
proof fn lemma_link_keeps_hunks_ordered(docs: Seq<DocView>, ids: Seq<DocumentId>)
    requires
        all_hunks_ordered(docs),
    ensures
        all_hunks_ordered(spec_link_diff_group(docs, ids)),
{
    if ids.len() >= 2 {
        let new = spec_link_diff_group(docs, ids);
        assert forall|j: int| 0 <= j < new.len() implies match (#[trigger] new[j]).diff_hunks {
            Some(h) => hunks_ordered(h),
            None => true,
        } by {
            assert(new[j] == spec_linked_doc(docs, ids, docs[j]));
            match docs[j].diff_hunks {
                Some(h) => assert(hunks_ordered(h)),
                None => {},
            }
        }
    }
}

/// The link's outcome, as the contracts of the link commands state it.
pub open spec fn spec_link_outcome(
    old_docs: Seq<DocView>,
    new_docs: Seq<DocView>,
    views: Seq<ViewState>,
    ids: Seq<DocumentId>,
    focus: ViewId,
    focus_line: int,
    r: Result<LinkOutcome, LinkError>,
    label: LinkLabel,
) -> bool {
    &&& ids.len() < 2 ==> r == Err::<LinkOutcome, LinkError>(LinkError { label }) && new_docs
        == old_docs
    &&& ids.len() >= 2 ==> r is Ok && new_docs == spec_link_diff_group(old_docs, ids) && (forall|
        x: DocumentId,
    |
        r->Ok_0.restore@.contains(x) <==> exists|i: int|
            0 <= i < old_docs.len() && (#[trigger] old_docs[i]).id == x && spec_needs_restore(
                old_docs,
                ids,
                old_docs[i],
            )) && r->Ok_0.targets@ == spec_sync_diff_scroll(new_docs, views, focus, focus_line, false)
}

/// What the link commands ask of the editor: ordered hunks, distinct view
/// ids, a focused view, and lines that fit in `u32` when the panes are
/// aligned after linking `ids` (the cursor of the focused pane being on
/// line `focus_line`).
pub open spec fn link_ready(editor: Editor, ids: Seq<DocumentId>, focus: ViewId, focus_line: int) -> bool {
    &&& editor.wf()
    &&& all_hunks_ordered(editor.docs_view())
    &&& views_wf(editor.views@)
    &&& spec_has_view(editor.views@, focus)
    &&& ids.len() >= 2 ==> sync_lines_fit(
        spec_link_diff_group(editor.docs_view(), ids),
        editor.views@,
        focus,
        focus_line,
    )
}

fn link_buffers(
    editor: &mut Editor,
    doc_ids: &[DocumentId],
    label: LinkLabel,
    focus: ViewId,
    focus_line: u32,
) -> (r: Result<LinkOutcome, LinkError>)
    requires
        link_ready(*old(editor), doc_ids@, focus, focus_line as int),
    ensures
        final(editor).wf(),
        final(editor).views == old(editor).views,
        spec_link_outcome(
            old(editor).docs_view(),
            final(editor).docs_view(),
            old(editor).views@,
            doc_ids@,
            focus,
            focus_line as int,
            r,
            label,
        ),
{
    if doc_ids.len() < 2 {
        return Err(LinkError { label });
    }
    proof {
        lemma_link_keeps_hunks_ordered(editor.docs_view(), doc_ids@);
    }
    let restore = link_diff_group(editor, doc_ids);
    let targets = sync_diff_scroll(editor, focus, focus_line, false);
    Ok(LinkOutcome { restore, targets })
}

/// Links the documents of the visible views (each once, in layout order),
/// then aligns the linked panes from the focused pane `focus`, whose cursor
/// is on line `focus_line`. The caller restores version-control diffs of
/// the documents in `restore` and scrolls the panes in `targets`.
pub fn link_visible_buffers(editor: &mut Editor, focus: ViewId, focus_line: u32) -> (r: Result<
    LinkOutcome,
    LinkError,
>)
    requires
        link_ready(
            *old(editor),
            spec_dedup(spec_view_docs(old(editor).views@)),
            focus,
            focus_line as int,
        ),
    ensures
        final(editor).wf(),
        final(editor).views == old(editor).views,
        spec_link_outcome(
            old(editor).docs_view(),
            final(editor).docs_view(),
            old(editor).views@,
            spec_dedup(spec_view_docs(old(editor).views@)),
            focus,
            focus_line as int,
            r,
            LinkLabel::Buffers,
        ),
{
    let doc_ids = visible_buffer_ids(editor);
    link_buffers(editor, &doc_ids, LinkLabel::Buffers, focus, focus_line)
}

/// Links the documents just opened for diffing, then aligns the linked
/// panes from the focused pane (see `link_visible_buffers`).
pub fn link_opened_buffers(
    editor: &mut Editor,
    doc_ids: &[DocumentId],
    focus: ViewId,
    focus_line: u32,
) -> (r: Result<LinkOutcome, LinkError>)
    requires
        link_ready(*old(editor), doc_ids@, focus, focus_line as int),
    ensures
        final(editor).wf(),
        final(editor).views == old(editor).views,
        spec_link_outcome(
            old(editor).docs_view(),
            final(editor).docs_view(),
            old(editor).views@,
            doc_ids@,
            focus,
            focus_line as int,
            r,
            LinkLabel::Files,
        ),
{
    link_buffers(editor, doc_ids, LinkLabel::Files, focus, focus_line)
}

/// Hunks of the diff of document `id`, if it has one.
pub open spec fn spec_hunks_of(docs: Seq<DocView>, id: DocumentId) -> Option<Seq<Hunk>> {
    if spec_has(docs, id) {
        docs[spec_index_of(docs, id)].diff_hunks
    } else {
        None
    }
}

/// Every diff in the editor has ordered hunk ranges.
pub open spec fn all_hunks_ordered(docs: Seq<DocView>) -> bool {
    forall|j: int|
        0 <= j < docs.len() ==> match (#[trigger] docs[j]).diff_hunks {
            Some(h) => hunks_ordered(h),
            None => true,
        }
}

/// Line of the group's anchor corresponding to `line` of member `doc_id`:
/// the anchor's own lines are unchanged; a member is diffed against the
/// anchor, so its lines map to its diff base.
pub open spec fn spec_map_line_to_anchor(docs: Seq<DocView>, anchor: DocumentId, doc_id: DocumentId, line: int) -> int {
    if doc_id == anchor {
        line
    } else {
        match spec_hunks_of(docs, doc_id) {
            Some(h) => spec_map_doc_line_to_base(h, line),
            None => line,
        }
    }
}

/// Line of member `doc_id` corresponding to `line` of the group's anchor.
pub open spec fn spec_map_line_from_anchor(docs: Seq<DocView>, anchor: DocumentId, doc_id: DocumentId, line: int) -> int {
    if doc_id == anchor {
        line
    } else {
        match spec_hunks_of(docs, doc_id) {
            Some(h) => spec_map_base_line_to_doc(h, line),
            None => line,
        }
    }
}

/// Scroll sync snaps to the same content: a line of a group member mapped
/// to the anchor and back is the same line, unless it lies in the unpaired
/// tail of one of the member's diff hunks; the anchor's lines, and those of
/// a member without a diff, map to themselves.
pub proof fn lemma_anchor_line_roundtrip(
    docs: Seq<DocView>,
    anchor: DocumentId,
    doc_id: DocumentId,
    line: int,
)
    requires
        0 <= line,
        spec_hunks_of(docs, doc_id) matches Some(h) ==> diff_wf(h) && forall|j: int|
            0 <= j < h.len() ==> !((#[trigger] h[j]).after.start + crate::line_map::min_int(
                h[j].before.end - h[j].before.start,
                h[j].after.end - h[j].after.start,
            ) <= line < h[j].after.end),
    ensures
        spec_map_line_from_anchor(
            docs,
            anchor,
            doc_id,
            spec_map_line_to_anchor(docs, anchor, doc_id, line),
        ) == line,
{
    if doc_id != anchor {
        match spec_hunks_of(docs, doc_id) {
            Some(h) => crate::line_map::lemma_doc_line_roundtrip(h, line),
            None => {},
        }
    }
}

pub fn map_line_to_anchor(editor: &Editor, anchor: DocumentId, doc_id: DocumentId, line: u32) -> (l: u32)
    requires
        editor.wf(),
        all_hunks_ordered(editor.docs_view()),
        spec_map_line_to_anchor(editor.docs_view(), anchor, doc_id, line as int) <= u32::MAX,
    ensures
        l == spec_map_line_to_anchor(editor.docs_view(), anchor, doc_id, line as int),
{
    if doc_id == anchor {
        return line;
    }
    match document_index(editor, doc_id) {
        Some(i) => match &editor.docs[i].diff_hunks {
            Some(hunks) => {
                assert(editor.docs_view()[i as int].diff_hunks == Some(hunks@));
                map_doc_line_to_base(hunks.as_slice(), line)
            },
            None => line,
        },
        None => line,
    }
}

pub fn map_line_from_anchor(editor: &Editor, anchor: DocumentId, doc_id: DocumentId, line: u32) -> (l: u32)
    requires
        editor.wf(),
        all_hunks_ordered(editor.docs_view()),
        spec_map_line_from_anchor(editor.docs_view(), anchor, doc_id, line as int) <= u32::MAX,
    ensures
        l == spec_map_line_from_anchor(editor.docs_view(), anchor, doc_id, line as int),
{
    if doc_id == anchor {
        return line;
    }
    match document_index(editor, doc_id) {
        Some(i) => match &editor.docs[i].diff_hunks {
            Some(hunks) => {
                assert(editor.docs_view()[i as int].diff_hunks == Some(hunks@));
                map_base_line_to_doc(hunks.as_slice(), line)
            },
            None => line,
        },
        None => line,
    }
}

/// A pane to scroll so that it shows `line` of its document.
#[derive(Debug, Clone, Copy, PartialEq, Eq, Structural)]
pub struct ScrollTarget {
    pub view: ViewId,
    pub doc: DocumentId,
    pub line: u32,
}

/// Targets among `views` (other than `source`) that show a member of the
/// group anchored at `anchor`, each with the line matching `anchor_line`.
pub open spec fn spec_scroll_targets(
    docs: Seq<DocView>,
    views: Seq<ViewState>,
    source: ViewId,
    anchor: DocumentId,
    anchor_line: int,
) -> Seq<ScrollTarget>
    decreases views.len(),
{
    if views.len() == 0 {
        Seq::empty()
    } else {
        let v = views.last();
        spec_scroll_targets(docs, views.drop_last(), source, anchor, anchor_line) + if v.id != source
            && spec_group_of(docs, v.doc) == Some(anchor) {
            seq![
                ScrollTarget {
                    view: v.id,
                    doc: v.doc,
                    line: spec_map_line_from_anchor(docs, anchor, v.doc, anchor_line) as u32,
                },
            ]
        } else {
            Seq::<ScrollTarget>::empty()
        }
    }
}

/// The document shown by view `view`.
pub open spec fn spec_view_doc(views: Seq<ViewState>, view: ViewId) -> DocumentId {
    views[choose|i: int| 0 <= i < views.len() && (#[trigger] views[i]).id == view].doc
}

pub open spec fn spec_has_view(views: Seq<ViewState>, view: ViewId) -> bool {
    exists|i: int| 0 <= i < views.len() && (#[trigger] views[i]).id == view
}

/// Views have distinct ids.
pub open spec fn views_wf(views: Seq<ViewState>) -> bool {
    forall|i: int, j: int| 0 <= i < j < views.len() ==> (#[trigger] views[i]).id != (#[trigger] views[j]).id
}

/// Scroll alignment of linked panes: when `source_view` shows line
/// `source_line` of a group member, every other pane showing a member of
/// that group should show the corresponding line, found by mapping through
/// the anchor's diffs. Nothing is aligned while an alignment is being
/// applied (`syncing`) or when the source is in no group.
pub open spec fn spec_sync_diff_scroll(
    docs: Seq<DocView>,
    views: Seq<ViewState>,
    source_view: ViewId,
    source_line: int,
    syncing: bool,
) -> Seq<ScrollTarget> {
    let source_doc = spec_view_doc(views, source_view);
    if syncing {
        Seq::empty()
    } else {
        match spec_group_of(docs, source_doc) {
            None => Seq::empty(),
            Some(anchor) => spec_scroll_targets(
                docs,
                views,
                source_view,
                anchor,
                spec_map_line_to_anchor(docs, anchor, source_doc, source_line),
            ),
        }
    }
}

/// All lines involved in aligning from `source_view` fit in `u32`.
pub open spec fn sync_lines_fit(
    docs: Seq<DocView>,
    views: Seq<ViewState>,
    source_view: ViewId,
    source_line: int,
) -> bool {
    let source_doc = spec_view_doc(views, source_view);
    match spec_group_of(docs, source_doc) {
        None => true,
        Some(anchor) => {
            let anchor_line = spec_map_line_to_anchor(docs, anchor, source_doc, source_line);
            &&& anchor_line <= u32::MAX
            &&& forall|i: int|
                0 <= i < views.len() ==> spec_map_line_from_anchor(
                    docs,
                    anchor,
                    (#[trigger] views[i]).doc,
                    anchor_line,
                ) <= u32::MAX
        },
    }
}

/// The panes to realign after the cursor of `source_view` moved to line
/// `source_line`, with the line each should show.
pub fn sync_diff_scroll(editor: &Editor, source_view: ViewId, source_line: u32, syncing: bool) -> (targets:
    Vec<ScrollTarget>)
    requires
        editor.wf(),
        all_hunks_ordered(editor.docs_view()),
        views_wf(editor.views@),
        spec_has_view(editor.views@, source_view),
        sync_lines_fit(editor.docs_view(), editor.views@, source_view, source_line as int),
    ensures
        targets@ == spec_sync_diff_scroll(
            editor.docs_view(),
            editor.views@,
            source_view,
            source_line as int,
            syncing,
        ),
{
    if syncing {
        return Vec::new();
    }
    let mut s: usize = 0;
    while s < editor.views.len() && editor.views[s].id != source_view
        invariant
            s <= editor.views@.len(),
            forall|j: int| 0 <= j < s ==> (#[trigger] editor.views@[j]).id != source_view,
        decreases editor.views.len() - s,
    {
        s += 1;
    }
    if s >= editor.views.len() {
        proof {
            let i = choose|i: int| 0 <= i < editor.views@.len() && (#[trigger] editor.views@[i]).id == source_view;
        }
        return Vec::new();
    }
    let source_doc = editor.views[s].doc;
    proof {
        let c = choose|i: int| 0 <= i < editor.views@.len() && (#[trigger] editor.views@[i]).id == source_view;
        if c != s {
            if c < s {
                assert(editor.views@[c].id != source_view);
            } else {
                assert(editor.views@[s as int].id != editor.views@[c].id);
            }
        }
        assert(source_doc == spec_view_doc(editor.views@, source_view));
    }
    let anchor = match document_index(editor, source_doc) {
        Some(i) => editor.docs[i].diff_group,
        None => None,
    };
    let anchor = match anchor {
        Some(a) => a,
        None => {
            return Vec::new();
        },
    };
    let anchor_line = map_line_to_anchor(editor, anchor, source_doc, source_line);
    let mut targets: Vec<ScrollTarget> = Vec::new();
    let mut i: usize = 0;
    while i < editor.views.len()
        invariant
            i <= editor.views@.len(),
            editor.wf(),
            all_hunks_ordered(editor.docs_view()),
            forall|k: int|
                0 <= k < editor.views@.len() ==> spec_map_line_from_anchor(
                    editor.docs_view(),
                    anchor,
                    (#[trigger] editor.views@[k]).doc,
                    anchor_line as int,
                ) <= u32::MAX,
            targets@ == spec_scroll_targets(
                editor.docs_view(),
                editor.views@.take(i as int),
                source_view,
                anchor,
                anchor_line as int,
            ),
        decreases editor.views.len() - i,
    {
        let view = editor.views[i];
        proof {
            let t = editor.views@.take(i + 1);
            assert(t.drop_last() =~= editor.views@.take(i as int));
            assert(t.last() == view);
        }
        if view.id != source_view {
            let in_group = match document_index(editor, view.doc) {
                Some(d) => editor.docs[d].diff_group == Some(anchor),
                None => false,
            };
            if in_group {
                let line = map_line_from_anchor(editor, anchor, view.doc, anchor_line);
                targets.push(ScrollTarget { view: view.id, doc: view.doc, line });
            }
        }
        i += 1;
    }
    assert(editor.views@.take(i as int) =~= editor.views@);
    targets
}

/// A document whose diff against version control was restored (`Some`
/// base) or could not be (`None`: no diff).
pub open spec fn spec_restored(d: DocView, base: Option<Seq<char>>) -> DocView {
    match base {
        Some(b) => spec_with_base(d, b),
        None => DocView {
            id: d.id,
            text: d.text,
            diff_group: d.diff_group,
            diff_compare: d.diff_compare,
            diff_base: None,
            diff_hunks: None,
        },
    }
}

/// How a linked pane is scrolled to its target line: an empty text puts
/// the view back at its start; otherwise the character at the source
/// cursor's column of the target line is shown on the source cursor's
/// viewport row, with the source's horizontal offset (placing it on that
/// row is the editor's text layout).
#[derive(Debug, Clone, Copy, PartialEq, Eq, Structural)]
pub enum PanePlacement {
    Reset(ViewPosition),
    Show { char_idx: usize, viewport_row: usize, horizontal_offset: usize },
}

/// Placement of a pane showing `text` whose target line is `line`, for a
/// source cursor at column `col_in_line` of its line, on viewport row
/// `viewport_row`, with horizontal offset `horizontal_offset`.
pub fn pane_placement(
    text: &TextLines,
    line: u32,
    col_in_line: usize,
    viewport_row: usize,
    horizontal_offset: usize,
) -> (p: PanePlacement)
    requires
        text.wf(),
    ensures
        text.len_chars == 0 ==> p == PanePlacement::Reset(
            ViewPosition { anchor: 0, vertical_offset: 0, horizontal_offset: 0 },
        ),
        text.len_chars > 0 ==> p == (PanePlacement::Show {
            char_idx: min_int(
                spec_char_at_line_col(*text, line as int, col_in_line as int),
                text.len_chars - 1,
            ) as usize,
            viewport_row,
            horizontal_offset,
        }),
{
    if text.len_chars == 0 {
        return PanePlacement::Reset(ViewPosition { anchor: 0, vertical_offset: 0, horizontal_offset: 0 });
    }
    let c = char_at_line_col(text, line, col_in_line);
    let char_idx = if c < text.len_chars - 1 {
        c
    } else {
        text.len_chars - 1
    };
    PanePlacement::Show { char_idx, viewport_row, horizontal_offset }
}

/// Gives document `doc_id` back its diff against version control: `base`
/// is the file's content at the last commit, as read by the caller (`None`
/// when the document has no path or the file is not tracked, which clears
/// the diff).
pub fn restore_git_diff(editor: &mut Editor, doc_id: DocumentId, base: Option<String>)
    requires
        old(editor).wf(),
    ensures
        final(editor).wf(),
        final(editor).views == old(editor).views,
        final(editor).docs_view() == if spec_has(old(editor).docs_view(), doc_id) {
            old(editor).docs_view().update(
                spec_index_of(old(editor).docs_view(), doc_id),
                spec_restored(
                    old(editor).docs_view()[spec_index_of(old(editor).docs_view(), doc_id)],
                    match base {
                        Some(b) => Some(b@),
                        None => None,
                    },
                ),
            )
        } else {
            old(editor).docs_view()
        },
{
    let ghost docs0 = editor.docs_view();
    match document_index(editor, doc_id) {
        Some(i) => {
            match base {
                Some(b) => {
                    editor.docs[i].diff_base = Some(b);
                    editor.docs[i].diff_hunks = Some(Vec::new());
                },
                None => {
                    editor.docs[i].diff_base = None;
                    editor.docs[i].diff_hunks = None;
                },
            }
            proof {
                assert(same_ids(docs0, editor.docs_view()));
                lemma_same_ids_wf(docs0, editor.docs_view());
            }
        },
        None => {},
    }
}

/// Every document in a group belongs to a group whose anchor is itself a
/// member.
pub open spec fn groups_wf(docs: Seq<DocView>) -> bool {
    forall|j: int|
        0 <= j < docs.len() ==> match (#[trigger] docs[j]).diff_group {
            Some(a) => spec_group_of(docs, a) == Some(a),
            None => true,
        }
}

proof fn lemma_map_same_ids(docs: Seq<DocView>, new: Seq<DocView>)
    requires
        docs_wf(docs),
        new.len() == docs.len(),
        forall|j: int| 0 <= j < docs.len() ==> (#[trigger] new[j]).id == docs[j].id,
    ensures
        same_ids(docs, new),
        docs_wf(new),
        forall|id: DocumentId| spec_has(docs, id) == spec_has(new, id),
        forall|id: DocumentId|
            spec_has(docs, id) ==> spec_index_of(new, id) == spec_index_of(docs, id),
{
    lemma_same_ids_wf(docs, new);
    assert forall|id: DocumentId| spec_has(docs, id) == spec_has(new, id) by {
        lemma_same_ids_has(docs, new, id);
    }
    assert forall|id: DocumentId| spec_has(docs, id) implies spec_index_of(new, id) == spec_index_of(
        docs,
        id,
    ) by {
        let i = spec_index_of(docs, id);
        lemma_index_of(docs, i);
        lemma_index_of(new, i);
    }
}

/// After linking documents that all exist, exactly the listed documents
/// form the group anchored at the first one, the anchor is diffed against
/// the second one's text and every other member against the anchor's text;
/// and every group still contains its anchor.
pub proof fn lemma_link_forms_group(docs: Seq<DocView>, ids: Seq<DocumentId>)
    requires
        docs_wf(docs),
        groups_wf(docs),
        ids.len() >= 2,
        forall|k: int| 0 <= k < ids.len() ==> spec_has(docs, #[trigger] ids[k]),
    ensures
        ({
            let new = spec_link_diff_group(docs, ids);
            &&& docs_wf(new)
            &&& groups_wf(new)
            &&& forall|j: int|
                0 <= j < new.len() ==> ((#[trigger] new[j]).diff_group == Some(ids[0])
                    <==> ids.contains(new[j].id))
            &&& forall|j: int|
                0 <= j < new.len() && #[trigger] new[j].id == ids[0] ==> new[j].diff_compare == Some(
                    ids[1],
                ) && new[j].diff_base == spec_text_of(docs, ids[1])
            &&& forall|j: int|
                0 <= j < new.len() && ids.contains(#[trigger] new[j].id) && new[j].id != ids[0]
                    ==> new[j].diff_base == spec_text_of(docs, ids[0])
            &&& forall|j: int| 0 <= j < new.len() ==> (#[trigger] new[j]).text == docs[j].text
        }),
{
    let new = spec_link_diff_group(docs, ids);
    lemma_map_same_ids(docs, new);
    assert(spec_has(docs, ids[0]) && spec_has(docs, ids[1]));
    let ia = spec_index_of(docs, ids[0]);
    lemma_index_of(docs, ia);
    assert(spec_group_of(new, ids[0]) == Some(ids[0])) by {
        assert(ids.contains(ids[0]));
        assert(new[ia] == spec_linked_doc(docs, ids, docs[ia]));
    }
    assert forall|j: int|
        0 <= j < new.len() implies ((#[trigger] new[j]).diff_group == Some(ids[0]) <==> ids.contains(
        new[j].id,
    )) by {
        let d = docs[j];
        assert(new[j] == spec_linked_doc(docs, ids, d));
        if !ids.contains(d.id) && d.diff_group == Some(ids[0]) {
            assert(spec_group_of(docs, ids[0]) == Some(ids[0]));
            assert(spec_dissolved_by_link(docs, ids, ids[0])) by {
                assert(spec_group_of(docs, ids[0]) == Some(ids[0]));
                assert(ids[0] == ids[0]);
            }
        }
    }
    assert forall|j: int|
        0 <= j < new.len() implies match (#[trigger] new[j]).diff_group {
        Some(a) => spec_group_of(new, a) == Some(a),
        None => true,
    } by {
        let d = docs[j];
        assert(new[j] == spec_linked_doc(docs, ids, d));
        match new[j].diff_group {
            Some(a) => {
                if a != ids[0] {
                    assert(!ids.contains(d.id));
                    assert(d.diff_group == Some(a));
                    assert(!spec_dissolved_by_link(docs, ids, a));
                    assert(spec_group_of(docs, a) == Some(a));
                    let i = spec_index_of(docs, a);
                    lemma_index_of(docs, i);
                    if ids.contains(a) {
                        let k = choose|k: int| 0 <= k < ids.len() && ids[k] == a;
                        assert(spec_group_of(docs, ids[k]) == Some(a));
                    }
                    assert(new[i] == spec_linked_doc(docs, ids, docs[i]));
                }
            },
            None => {},
        }
    }
}

/// The alignment targets are exactly the other panes showing a member of
/// the group, each with the document it shows.
pub proof fn lemma_scroll_targets_cover(
    docs: Seq<DocView>,
    views: Seq<ViewState>,
    source: ViewId,
    anchor: DocumentId,
    anchor_line: int,
)
    ensures
        ({
            let r = spec_scroll_targets(docs, views, source, anchor, anchor_line);
            &&& forall|k: int|
                0 <= k < r.len() ==> (#[trigger] r[k]).view != source && spec_group_of(docs, r[k].doc)
                    == Some(anchor) && exists|i: int|
                    0 <= i < views.len() && (#[trigger] views[i]).id == r[k].view && views[i].doc
                        == r[k].doc
            &&& forall|i: int|
                0 <= i < views.len() && (#[trigger] views[i]).id != source && spec_group_of(
                    docs,
                    views[i].doc,
                ) == Some(anchor) ==> exists|k: int|
                    0 <= k < r.len() && (#[trigger] r[k]).view == views[i].id && r[k].doc
                        == views[i].doc
        }),
    decreases views.len(),
{
    if views.len() > 0 {
        let prev_views = views.drop_last();
        lemma_scroll_targets_cover(docs, prev_views, source, anchor, anchor_line);
        let p = spec_scroll_targets(docs, prev_views, source, anchor, anchor_line);
        let r = spec_scroll_targets(docs, views, source, anchor, anchor_line);
        let v = views.last();
        assert forall|k: int| 0 <= k < r.len() implies (#[trigger] r[k]).view != source && spec_group_of(
            docs,
            r[k].doc,
        ) == Some(anchor) && exists|i: int|
            0 <= i < views.len() && (#[trigger] views[i]).id == r[k].view && views[i].doc
                == r[k].doc by {
            if k < p.len() {
                assert(r[k] == p[k]);
                let i = choose|i: int|
                    0 <= i < prev_views.len() && (#[trigger] prev_views[i]).id == p[k].view
                        && prev_views[i].doc == p[k].doc;
                assert(views[i] == prev_views[i]);
            } else {
                assert(views[views.len() - 1] == v);
            }
        }
        assert forall|i: int|
            0 <= i < views.len() && (#[trigger] views[i]).id != source && spec_group_of(
                docs,
                views[i].doc,
            ) == Some(anchor) implies exists|k: int|
            0 <= k < r.len() && (#[trigger] r[k]).view == views[i].id && r[k].doc == views[i].doc by {
            if i < prev_views.len() {
                assert(prev_views[i] == views[i]);
                let k = choose|k: int|
                    0 <= k < p.len() && (#[trigger] p[k]).view == prev_views[i].id && p[k].doc
                        == prev_views[i].doc;
                assert(r[k] == p[k]);
            } else {
                assert(r[p.len() as int].view == v.id);
            }
        }
    }
}

/// Linking is followed by aligning the panes from the focused one: when the
/// focused pane shows one of the linked documents, the alignment right
/// after linking maps its line through the new anchor (the first linked
/// document) and reaches exactly the other panes showing a linked document.
pub proof fn lemma_link_aligns_panes(
    docs: Seq<DocView>,
    views: Seq<ViewState>,
    ids: Seq<DocumentId>,
    focus: ViewId,
    line: int,
)
    requires
        docs_wf(docs),
        groups_wf(docs),
        ids.len() >= 2,
        forall|k: int| 0 <= k < ids.len() ==> spec_has(docs, #[trigger] ids[k]),
        spec_has_view(views, focus),
        ids.contains(spec_view_doc(views, focus)),
    ensures
        ({
            let linked = spec_link_diff_group(docs, ids);
            let source_doc = spec_view_doc(views, focus);
            let targets = spec_sync_diff_scroll(linked, views, focus, line, false);
            &&& targets == spec_scroll_targets(
                linked,
                views,
                focus,
                ids[0],
                spec_map_line_to_anchor(linked, ids[0], source_doc, line),
            )
            &&& forall|k: int|
                0 <= k < targets.len() ==> (#[trigger] targets[k]).view != focus && ids.contains(
                    targets[k].doc,
                )
            &&& forall|i: int|
                0 <= i < views.len() && (#[trigger] views[i]).id != focus && ids.contains(views[i].doc)
                    ==> exists|k: int|
                    0 <= k < targets.len() && (#[trigger] targets[k]).view == views[i].id
                        && targets[k].doc == views[i].doc
        }),
{
    let linked = spec_link_diff_group(docs, ids);
    lemma_link_forms_group(docs, ids);
    lemma_map_same_ids(docs, linked);
    assert forall|d: DocumentId| #[trigger] spec_group_of(linked, d) == Some(ids[0]) <==> ids.contains(d) by {
        if spec_has(linked, d) {
            let j = spec_index_of(linked, d);
            lemma_index_of(linked, choose|i: int| 0 <= i < linked.len() && (#[trigger] linked[i]).id == d);
            assert(linked[j].id == d);
        } else {
            if ids.contains(d) {
                let k = choose|k: int| 0 <= k < ids.len() && ids[k] == d;
                assert(spec_has(docs, ids[k]));
            }
        }
    }
    let source_doc = spec_view_doc(views, focus);
    assert(spec_group_of(linked, source_doc) == Some(ids[0]));
    lemma_scroll_targets_cover(
        linked,
        views,
        focus,
        ids[0],
        spec_map_line_to_anchor(linked, ids[0], source_doc, line),
    );
}

/// Dissolving a group leaves no document in it, keeps every group
/// anchored at a member, and changes no document outside the group.
pub proof fn lemma_unlink_dissolves(docs: Seq<DocView>, doc_id: DocumentId)
    requires
        docs_wf(docs),
        groups_wf(docs),
    ensures
        ({
            let new = spec_unlink_diff_group(docs, doc_id);
            &&& docs_wf(new)
            &&& groups_wf(new)
            &&& spec_group_of(new, doc_id) is None
            &&& forall|j: int|
                0 <= j < docs.len() && (docs[j].diff_group != spec_group_of(docs, doc_id)
                    || docs[j].diff_group is None) ==> #[trigger] new[j] == docs[j]
        }),
{
    let new = spec_unlink_diff_group(docs, doc_id);
    lemma_map_same_ids(docs, new);
    match spec_group_of(docs, doc_id) {
        Some(a) => {
            let i = spec_index_of(docs, doc_id);
            lemma_index_of(docs, i);
            assert forall|j: int|
                0 <= j < new.len() implies match (#[trigger] new[j]).diff_group {
                Some(b) => spec_group_of(new, b) == Some(b),
                None => true,
            } by {
                match new[j].diff_group {
                    Some(b) => {
                        assert(docs[j].diff_group == Some(b) && b != a);
                        let k = spec_index_of(docs, b);
                        lemma_index_of(docs, k);
                    },
                    None => {},
                }
            }
        },
        None => {},
    }
}

/// Edits flow through a freshly linked group: when the compared document
/// (the second one linked) changes, the anchor is diffed against its new
/// text; when the anchor changes, every other member is diffed against the
/// anchor's new text.
pub proof fn lemma_change_reaches_linked_bases(
    docs: Seq<DocView>,
    ids: Seq<DocumentId>,
    text: Seq<char>,
)
    requires
        docs_wf(docs),
        groups_wf(docs),
        ids.len() >= 2,
        ids[0] != ids[1],
        forall|k: int| 0 <= k < ids.len() ==> spec_has(docs, #[trigger] ids[k]),
    ensures
        ({
            let linked = spec_link_diff_group(docs, ids);
            let a = spec_index_of(linked, ids[0]);
            &&& spec_has(linked, ids[0])
            &&& spec_sync_group_on_change(linked, ids[1], text)[a].diff_base == Some(text)
            &&& forall|j: int|
                0 <= j < linked.len() && ids.contains(#[trigger] linked[j].id) && linked[j].id
                    != ids[0] ==> spec_sync_group_on_change(linked, ids[0], text)[j].diff_base
                    == Some(text)
        }),
{
    let linked = spec_link_diff_group(docs, ids);
    lemma_link_forms_group(docs, ids);
    lemma_map_same_ids(docs, linked);
    let ia = spec_index_of(docs, ids[0]);
    let ib = spec_index_of(docs, ids[1]);
    lemma_index_of(docs, ia);
    lemma_index_of(docs, ib);
    assert(ids.contains(ids[1])) by {
        assert(ids[1] == ids[1]);
    }
    assert(ids.contains(ids[0])) by {
        assert(ids[0] == ids[0]);
    }
    assert(linked[ib].diff_group == Some(ids[0]));
    assert(linked[ia].diff_group == Some(ids[0]));
    assert(linked[ia].id == ids[0]);
    assert(linked[ia].diff_compare == Some(ids[1]));
    assert forall|j: int|
        0 <= j < linked.len() && ids.contains(#[trigger] linked[j].id) && linked[j].id != ids[0]
            implies spec_sync_group_on_change(linked, ids[0], text)[j].diff_base == Some(text) by {
        assert(linked[j].diff_group == Some(ids[0]));
    }
}

} // verus!
