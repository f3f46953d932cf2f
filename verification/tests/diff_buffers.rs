use helix_fork::diff_group::{
    group_members, link_diff_group, link_opened_buffers, link_visible_buffers,
    map_line_from_anchor, map_line_to_anchor, restore_git_diff, sync_diff_scroll,
    sync_group_on_change, unlink_diff_group, visible_buffer_ids, DocState, DocumentId, Editor,
    LinkError, LinkLabel, ScrollTarget, ViewId, ViewState, pane_placement, PanePlacement,
};
use helix_fork::hex_motion::ViewPosition;
use helix_fork::text_lines::TextLines;
use helix_fork::line_map::{Hunk, LineRange};

fn doc(id: usize, text: &str) -> DocState {
    DocState {
        id: DocumentId(id),
        text: text.to_string(),
        diff_group: None,
        diff_compare: None,
        diff_base: None,
        diff_hunks: None,
    }
}

fn view(id: usize, doc: usize) -> ViewState {
    ViewState { id: ViewId(id), doc: DocumentId(doc) }
}

fn editor(texts: &[&str], views: &[(usize, usize)]) -> Editor {
    Editor {
        docs: texts.iter().enumerate().map(|(i, t)| doc(i + 1, t)).collect(),
        views: views.iter().map(|&(v, d)| view(v, d)).collect(),
    }
}

fn find(ed: &Editor, id: usize) -> &DocState {
    ed.docs.iter().find(|d| d.id == DocumentId(id)).unwrap()
}

fn hunk(before: (u32, u32), after: (u32, u32)) -> Hunk {
    Hunk {
        before: LineRange { start: before.0, end: before.1 },
        after: LineRange { start: after.0, end: after.1 },
    }
}

#[test]
fn link_makes_first_document_the_anchor() {
    let mut ed = editor(&["anchor text", "other text", "third"], &[(1, 1), (2, 2)]);
    let restore = link_diff_group(&mut ed, &[DocumentId(1), DocumentId(2), DocumentId(3)]);
    assert!(restore.is_empty());
    let anchor = find(&ed, 1);
    assert_eq!(anchor.diff_group, Some(DocumentId(1)));
    assert_eq!(anchor.diff_compare, Some(DocumentId(2)));
    assert_eq!(anchor.diff_base.as_deref(), Some("other text"));
    for id in [2, 3] {
        let d = find(&ed, id);
        assert_eq!(d.diff_group, Some(DocumentId(1)));
        assert_eq!(d.diff_compare, None);
        assert_eq!(d.diff_base.as_deref(), Some("anchor text"));
    }
    assert_eq!(
        group_members(&ed, DocumentId(1)),
        vec![DocumentId(1), DocumentId(2), DocumentId(3)]
    );
}

#[test]
fn link_with_fewer_than_two_ids_changes_nothing() {
    let mut ed = editor(&["a", "b"], &[]);
    let restore = link_diff_group(&mut ed, &[DocumentId(1)]);
    assert!(restore.is_empty());
    assert!(ed.docs.iter().all(|d| d.diff_group.is_none() && d.diff_base.is_none()));
}

#[test]
fn unlink_dissolves_the_whole_group() {
    let mut ed = editor(&["a", "b", "c"], &[]);
    link_diff_group(&mut ed, &[DocumentId(1), DocumentId(2)]);
    let restore = unlink_diff_group(&mut ed, DocumentId(2));
    assert_eq!(restore, vec![DocumentId(1), DocumentId(2)]);
    for d in &ed.docs {
        assert_eq!(d.diff_group, None);
        assert_eq!(d.diff_compare, None);
        assert_eq!(d.diff_base, None);
        assert_eq!(d.diff_hunks, None);
    }
    assert!(group_members(&ed, DocumentId(1)).is_empty());
}

#[test]
fn unlink_outside_a_group_does_nothing() {
    let mut ed = editor(&["a", "b"], &[]);
    ed.docs[1].diff_base = Some("vcs".to_string());
    let restore = unlink_diff_group(&mut ed, DocumentId(2));
    assert!(restore.is_empty());
    assert_eq!(ed.docs[1].diff_base.as_deref(), Some("vcs"));
}

#[test]
fn relinking_dissolves_old_groups_and_restores_left_members() {
    let mut ed = editor(&["a", "b", "c"], &[]);
    link_diff_group(&mut ed, &[DocumentId(1), DocumentId(2)]);
    let restore = link_diff_group(&mut ed, &[DocumentId(2), DocumentId(3)]);
    assert_eq!(restore, vec![DocumentId(1)]);
    let left = find(&ed, 1);
    assert_eq!(left.diff_group, None);
    assert_eq!(left.diff_base, None);
    assert_eq!(find(&ed, 2).diff_group, Some(DocumentId(2)));
    assert_eq!(find(&ed, 2).diff_base.as_deref(), Some("c"));
    assert_eq!(find(&ed, 3).diff_base.as_deref(), Some("b"));
}

#[test]
fn edits_flow_to_linked_bases() {
    let mut ed = editor(&["a", "b", "c"], &[]);
    link_diff_group(&mut ed, &[DocumentId(1), DocumentId(2), DocumentId(3)]);
    // The compared document changed: the anchor follows it.
    sync_group_on_change(&mut ed, DocumentId(2), "b2".to_string());
    assert_eq!(find(&ed, 1).diff_base.as_deref(), Some("b2"));
    assert_eq!(find(&ed, 3).diff_base.as_deref(), Some("a"));
    // The anchor changed: every other member follows it.
    sync_group_on_change(&mut ed, DocumentId(1), "a2".to_string());
    assert_eq!(find(&ed, 2).diff_base.as_deref(), Some("a2"));
    assert_eq!(find(&ed, 3).diff_base.as_deref(), Some("a2"));
    assert_eq!(find(&ed, 1).diff_base.as_deref(), Some("b2"));
    // Another member changed: nobody follows it.
    sync_group_on_change(&mut ed, DocumentId(3), "c2".to_string());
    assert_eq!(find(&ed, 1).diff_base.as_deref(), Some("b2"));
    assert_eq!(find(&ed, 2).diff_base.as_deref(), Some("a2"));
}

#[test]
fn change_outside_a_group_is_ignored() {
    let mut ed = editor(&["a", "b"], &[]);
    sync_group_on_change(&mut ed, DocumentId(1), "x".to_string());
    assert!(ed.docs.iter().all(|d| d.diff_base.is_none()));
}

#[test]
fn visible_buffers_are_listed_once_in_layout_order() {
    let ed = editor(&["a", "b", "c"], &[(1, 2), (2, 1), (3, 2), (4, 3)]);
    assert_eq!(
        visible_buffer_ids(&ed),
        vec![DocumentId(2), DocumentId(1), DocumentId(3)]
    );
}

#[test]
fn linking_needs_two_buffers() {
    let mut ed = editor(&["a", "b"], &[(1, 1), (2, 1)]);
    let err = link_visible_buffers(&mut ed, ViewId(1), 0).unwrap_err();
    assert_eq!(err, LinkError { label: LinkLabel::Buffers });
    assert_eq!(err.message(), "need at least 2 buffers to diff");
    let err = link_opened_buffers(&mut ed, &[DocumentId(2)], ViewId(1), 0).unwrap_err();
    assert_eq!(err.message(), "need at least 2 files to diff");
    assert!(ed.docs.iter().all(|d| d.diff_group.is_none()));
}

#[test]
fn linking_visible_buffers_links_them() {
    let mut ed = editor(&["a", "b"], &[(1, 2), (2, 1)]);
    let outcome = link_visible_buffers(&mut ed, ViewId(1), 3).unwrap();
    assert!(outcome.restore.is_empty());
    assert_eq!(find(&ed, 2).diff_compare, Some(DocumentId(1)));
    assert_eq!(find(&ed, 1).diff_group, Some(DocumentId(2)));
    // The panes are aligned from the focused one right after linking.
    assert_eq!(
        outcome.targets,
        vec![ScrollTarget { view: ViewId(2), doc: DocumentId(1), line: 3 }]
    );
    let outcome = link_opened_buffers(&mut ed, &[DocumentId(1), DocumentId(2)], ViewId(2), 5).unwrap();
    assert!(outcome.restore.is_empty());
    assert_eq!(find(&ed, 1).diff_compare, Some(DocumentId(2)));
    assert_eq!(
        outcome.targets,
        vec![ScrollTarget { view: ViewId(1), doc: DocumentId(2), line: 5 }]
    );
}

/// Documents 1 (the anchor, in view 10) and 2 (in view 20) linked;
/// document 2's diff against the anchor replaces the anchor's line 2 by its
/// lines 2..5.
fn linked_with_hunks() -> Editor {
    let mut ed = editor(&["a", "b"], &[(10, 1), (20, 2)]);
    link_diff_group(&mut ed, &[DocumentId(1), DocumentId(2)]);
    ed.docs[1].diff_hunks = Some(vec![hunk((2, 3), (2, 5))]);
    ed
}

#[test]
fn lines_map_through_the_anchor() {
    let ed = linked_with_hunks();
    // The anchor maps to itself.
    assert_eq!(map_line_to_anchor(&ed, DocumentId(1), DocumentId(1), 7), 7);
    assert_eq!(map_line_from_anchor(&ed, DocumentId(1), DocumentId(1), 7), 7);
    // Before the hunk, lines match.
    assert_eq!(map_line_to_anchor(&ed, DocumentId(1), DocumentId(2), 1), 1);
    // Inside the hunk: the paired line, then the hunk's last base line.
    assert_eq!(map_line_to_anchor(&ed, DocumentId(1), DocumentId(2), 2), 2);
    assert_eq!(map_line_to_anchor(&ed, DocumentId(1), DocumentId(2), 4), 2);
    // After the hunk, shifted by its size difference.
    assert_eq!(map_line_to_anchor(&ed, DocumentId(1), DocumentId(2), 7), 5);
    assert_eq!(map_line_from_anchor(&ed, DocumentId(1), DocumentId(2), 5), 7);
    assert_eq!(map_line_from_anchor(&ed, DocumentId(1), DocumentId(2), 2), 2);
}

#[test]
fn scroll_sync_targets_the_other_linked_panes() {
    let ed = linked_with_hunks();
    let targets = sync_diff_scroll(&ed, ViewId(20), 7, false);
    assert_eq!(
        targets,
        vec![ScrollTarget { view: ViewId(10), doc: DocumentId(1), line: 5 }]
    );
    let targets = sync_diff_scroll(&ed, ViewId(10), 5, false);
    assert_eq!(
        targets,
        vec![ScrollTarget { view: ViewId(20), doc: DocumentId(2), line: 7 }]
    );
    // No realignment while one is being applied.
    assert!(sync_diff_scroll(&ed, ViewId(20), 7, true).is_empty());
}

#[test]
fn scroll_sync_ignores_unlinked_panes() {
    let ed = editor(&["a", "b"], &[(1, 1), (2, 2)]);
    assert!(sync_diff_scroll(&ed, ViewId(1), 3, false).is_empty());
}

#[test]
fn restoring_a_diff_base() {
    let mut ed = editor(&["a", "b"], &[]);
    restore_git_diff(&mut ed, DocumentId(1), Some("head".to_string()));
    assert_eq!(ed.docs[0].diff_base.as_deref(), Some("head"));
    assert_eq!(ed.docs[0].diff_hunks, Some(vec![]));
    restore_git_diff(&mut ed, DocumentId(1), None);
    assert_eq!(ed.docs[0].diff_base, None);
    assert_eq!(ed.docs[0].diff_hunks, None);
}

#[test]
fn panes_keep_the_cursor_column_row_and_horizontal_offset() {
    // "ab\ncdef\ng"
    let text = TextLines { line_starts: vec![0, 3, 8], len_chars: 9 };
    assert_eq!(
        pane_placement(&text, 1, 2, 4, 7),
        PanePlacement::Show { char_idx: 5, viewport_row: 4, horizontal_offset: 7 }
    );
    // The column is clamped into the line, the line into the text.
    assert_eq!(
        pane_placement(&text, 0, 10, 0, 0),
        PanePlacement::Show { char_idx: 2, viewport_row: 0, horizontal_offset: 0 }
    );
    assert_eq!(
        pane_placement(&text, 9, 3, 1, 0),
        PanePlacement::Show { char_idx: 8, viewport_row: 1, horizontal_offset: 0 }
    );
    let empty = TextLines { line_starts: vec![0], len_chars: 0 };
    assert_eq!(
        pane_placement(&empty, 3, 2, 5, 9),
        PanePlacement::Reset(ViewPosition { anchor: 0, vertical_offset: 0, horizontal_offset: 0 })
    );
}

#[test]
fn after_linking_the_focused_pane_aligns_the_linked_ones() {
    let mut ed = editor(&["a", "b", "c"], &[(1, 1), (2, 2), (3, 3)]);
    link_diff_group(&mut ed, &[DocumentId(1), DocumentId(2)]);
    assert_eq!(
        sync_diff_scroll(&ed, ViewId(2), 4, false),
        vec![ScrollTarget { view: ViewId(1), doc: DocumentId(1), line: 4 }]
    );
}
