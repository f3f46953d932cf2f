use helix_fork::line_map::{
    map_base_line_to_doc, map_doc_line_to_base, map_line_within_hunk_to_base,
    map_line_within_hunk_to_doc, previous_hunk_ends, Hunk, LineRange,
};

fn hunk(before: (u32, u32), after: (u32, u32)) -> Hunk {
    Hunk {
        before: LineRange { start: before.0, end: before.1 },
        after: LineRange { start: after.0, end: after.1 },
    }
}

/// Base lines 2..4 replaced by document lines 2..3; base line 6 removed
/// (document position 5); document lines 8..10 inserted (base position 10).
fn hunks() -> Vec<Hunk> {
    vec![hunk((2, 4), (2, 3)), hunk((6, 7), (5, 5)), hunk((10, 10), (8, 10))]
}

#[test]
fn no_hunks_keeps_lines() {
    assert_eq!(map_doc_line_to_base(&[], 42), 42);
    assert_eq!(map_base_line_to_doc(&[], 42), 42);
}

#[test]
fn previous_ends() {
    let h = hunks();
    assert_eq!(previous_hunk_ends(&h, 0), (0, 0));
    assert_eq!(previous_hunk_ends(&h, 2), (7, 5));
}

#[test]
fn lines_inside_hunks() {
    let replace = hunk((2, 4), (2, 3));
    assert_eq!(map_line_within_hunk_to_base(&replace, 2), 2);
    assert_eq!(map_line_within_hunk_to_doc(&replace, 2), 2);
    // The extra base line maps to the last document line of the hunk.
    assert_eq!(map_line_within_hunk_to_doc(&replace, 3), 2);
    let removal = hunk((6, 7), (5, 5));
    assert_eq!(map_line_within_hunk_to_doc(&removal, 6), 5);
    let insertion = hunk((10, 10), (8, 10));
    assert_eq!(map_line_within_hunk_to_base(&insertion, 10), 10);
}

#[test]
fn document_lines_to_base() {
    let h = hunks();
    assert_eq!(map_doc_line_to_base(&h, 0), 0);
    assert_eq!(map_doc_line_to_base(&h, 2), 2);
    // Between hunks the distance to the previous hunk is kept.
    assert_eq!(map_doc_line_to_base(&h, 3), 4);
    assert_eq!(map_doc_line_to_base(&h, 4), 5);
    assert_eq!(map_doc_line_to_base(&h, 5), 7);
    assert_eq!(map_doc_line_to_base(&h, 6), 8);
    // Inserted lines map to the insertion point.
    assert_eq!(map_doc_line_to_base(&h, 8), 10);
    assert_eq!(map_doc_line_to_base(&h, 9), 10);
    // After the last hunk.
    assert_eq!(map_doc_line_to_base(&h, 10), 10);
    assert_eq!(map_doc_line_to_base(&h, 15), 15);
}

#[test]
fn base_lines_to_document() {
    let h = hunks();
    assert_eq!(map_base_line_to_doc(&h, 1), 1);
    assert_eq!(map_base_line_to_doc(&h, 3), 2);
    assert_eq!(map_base_line_to_doc(&h, 4), 3);
    assert_eq!(map_base_line_to_doc(&h, 6), 5);
    assert_eq!(map_base_line_to_doc(&h, 7), 5);
    assert_eq!(map_base_line_to_doc(&h, 9), 7);
    assert_eq!(map_base_line_to_doc(&h, 10), 10);
    assert_eq!(map_base_line_to_doc(&h, 14), 14);
}

#[test]
fn unchanged_lines_round_trip() {
    let h = hunks();
    for doc_line in [0u32, 1, 3, 4, 5, 6, 7, 10, 11, 20] {
        let base = map_doc_line_to_base(&h, doc_line);
        assert_eq!(map_base_line_to_doc(&h, base), doc_line, "document line {doc_line}");
    }
    for base_line in [0u32, 1, 4, 5, 7, 8, 9, 10, 11, 30] {
        let doc = map_base_line_to_doc(&h, base_line);
        assert_eq!(map_doc_line_to_base(&h, doc), base_line, "base line {base_line}");
    }
}

#[test]
fn paired_lines_round_trip() {
    // Document lines 2..6 replace base lines 2..4: the first two are paired.
    let h = vec![hunk((2, 4), (2, 6))];
    for doc_line in [0u32, 1, 2, 3, 6, 9] {
        let base = map_doc_line_to_base(&h, doc_line);
        assert_eq!(map_base_line_to_doc(&h, base), doc_line, "document line {doc_line}");
    }
    // An unpaired extra line maps to the hunk's last base line, whose
    // document line is the last paired one.
    assert_eq!(map_doc_line_to_base(&h, 4), 3);
    assert_eq!(map_base_line_to_doc(&h, 3), 3);
}
