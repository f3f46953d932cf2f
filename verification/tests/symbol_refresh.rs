use helix_fork::breadcrumb::SymbolKind;
use helix_fork::diff_group::{DocumentId, ViewId, ViewState};
use helix_fork::text_lines::TextLines;
use helix_fork::symbols::{
    on_config_change, on_document_change, on_mode_switch, on_selection_change, symbol_refresh,
    tag_match_symbol, tag_symbol, views_showing, ChangeResponse, ConfigResponse, SymbolRefresh, TagCapture,
    TagSymbol,
};

fn capture(capture: u32, name: &str, start: u32, end: u32) -> TagCapture {
    TagCapture { capture, name: name.to_string(), start, end }
}

#[test]
fn refresh_source() {
    assert_eq!(symbol_refresh(true, false, true, true), SymbolRefresh::RequestLanguageServer);
    assert_eq!(symbol_refresh(true, false, true, false), SymbolRefresh::TreeSitterTags);
    assert_eq!(symbol_refresh(false, false, true, true), SymbolRefresh::Skip);
    assert_eq!(symbol_refresh(true, true, true, true), SymbolRefresh::Skip);
    assert_eq!(symbol_refresh(true, false, false, true), SymbolRefresh::Skip);
}

#[test]
fn editor_events() {
    let doc = DocumentId(3);
    let view = ViewId(8);
    assert_eq!(
        on_document_change(doc, view, false, true),
        ChangeResponse { queue: Some(doc), update_trail: Some(view) }
    );
    assert_eq!(
        on_document_change(doc, view, true, false),
        ChangeResponse { queue: None, update_trail: None }
    );
    assert_eq!(on_selection_change(view, true), Some(view));
    assert_eq!(on_selection_change(view, false), None);
    assert_eq!(on_config_change(false, true), ConfigResponse::RefreshAll);
    assert_eq!(on_config_change(true, false), ConfigResponse::ClearAll);
    assert_eq!(on_config_change(true, true), ConfigResponse::Nothing);
    assert_eq!(on_config_change(false, false), ConfigResponse::Nothing);
    assert_eq!(on_mode_switch(true, Some((view, doc))), Some((view, doc)));
    assert_eq!(on_mode_switch(false, Some((view, doc))), None);
    assert_eq!(on_mode_switch(true, None), None);
}

#[test]
fn tag_matches_become_symbols() {
    let name_capture = Some(1);
    let symbol = tag_match_symbol(
        &[capture(0, "definition.function", 10, 50), capture(1, "name", 13, 18)],
        name_capture,
    );
    assert_eq!(
        symbol,
        Some(TagSymbol {
            kind: SymbolKind::Function,
            def_start: 10,
            def_end: 50,
            name_start: 13,
            name_end: 18
        })
    );
    // Without a name capture the whole definition is the name.
    let symbol = tag_match_symbol(&[capture(2, "definition.struct", 0, 9)], name_capture);
    assert_eq!(
        symbol,
        Some(TagSymbol {
            kind: SymbolKind::Struct,
            def_start: 0,
            def_end: 9,
            name_start: 0,
            name_end: 9
        })
    );
    // Unknown kinds and non-definition captures give nothing.
    assert_eq!(tag_match_symbol(&[capture(0, "definition.method", 0, 4)], name_capture), None);
    assert_eq!(tag_match_symbol(&[capture(1, "name", 0, 4)], name_capture), None);
    assert_eq!(tag_match_symbol(&[capture(0, "reference.call", 0, 4)], None), None);
    assert_eq!(tag_match_symbol(&[], None), None);
    // A later definition capture wins.
    let symbol = tag_match_symbol(
        &[capture(0, "definition.class", 0, 4), capture(3, "definition.module", 5, 9)],
        None,
    );
    assert_eq!(symbol.map(|s| (s.kind, s.def_start)), Some((SymbolKind::Module, 5)));
}

#[test]
fn views_of_a_document() {
    let views = [
        ViewState { id: ViewId(1), doc: DocumentId(2) },
        ViewState { id: ViewId(2), doc: DocumentId(1) },
        ViewState { id: ViewId(3), doc: DocumentId(2) },
    ];
    assert_eq!(views_showing(&views, DocumentId(2)), vec![ViewId(1), ViewId(3)]);
    assert!(views_showing(&views, DocumentId(9)).is_empty());
}

fn text_lines(text: &str) -> TextLines {
    let mut line_starts = vec![0usize];
    for (i, c) in text.chars().enumerate() {
        if c == '\n' {
            line_starts.push(i + 1);
        }
    }
    TextLines { line_starts, len_chars: text.chars().count() }
}

#[test]
fn tag_symbols_get_character_positions() {
    let text = "// ü\nfn héllo() {}\n";
    let lines = text_lines(text);
    let name_start = text.find("héllo").unwrap() as u32;
    let name_end = name_start + "héllo".len() as u32;
    let def_start = text.find("fn").unwrap() as u32;
    let def_end = text.len() as u32 - 1;
    let tag = TagSymbol {
        kind: SymbolKind::Function,
        def_start,
        def_end,
        name_start,
        name_end,
    };
    let sym = tag_symbol(text, &lines, &tag);
    assert_eq!(sym.name, "héllo");
    assert_eq!(sym.kind, SymbolKind::Function);
    assert_eq!((sym.start_line, sym.start_character), (1, 0));
    assert_eq!((sym.end_line, sym.end_character), (1, 13));
    // A byte inside a character belongs to that character.
    let inside = TagSymbol { name_start: name_start + 2, name_end: name_start + 3, ..tag };
    assert_eq!(tag_symbol(text, &lines, &inside).name, "é");
}
