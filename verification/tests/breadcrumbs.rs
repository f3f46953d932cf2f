use helix_fork::breadcrumb::{
    render, symbol_theme_key, tag_kind_to_symbol_kind, truncate_name, Crumb, CrumbStyle, Icon,
    PathMode, SymbolKind, Trail, TrailSymbol,
};
use helix_fork::color::Color;

fn pieces(crumbs: &[Crumb]) -> Vec<(String, CrumbStyle)> {
    crumbs.iter().map(|c| (c.text.clone(), c.style)).collect()
}

fn sym(kind: SymbolKind, name: &str) -> TrailSymbol {
    TrailSymbol { kind, name: name.to_string() }
}

fn path(parts: &[&str]) -> Vec<String> {
    parts.iter().map(|p| p.to_string()).collect()
}

fn piece(text: &str, style: CrumbStyle) -> (String, CrumbStyle) {
    (text.to_string(), style)
}

#[test]
fn names_are_shortened_in_the_middle() {
    assert_eq!(truncate_name("short", 10), "short");
    assert_eq!(truncate_name("abcdefghij", 0), "abcdefghij");
    assert_eq!(truncate_name("abcdefghij", 5), "ab…ij");
    assert_eq!(truncate_name("abcdefghij", 6), "abc…ij");
    assert_eq!(truncate_name("abcdefghij", 2), "a…");
    assert_eq!(truncate_name("a", 1), "a");
    assert_eq!(truncate_name("héllo wörld", 4), "hé…d");
}

#[test]
fn tag_kinds() {
    assert_eq!(tag_kind_to_symbol_kind("class"), Some(SymbolKind::Class));
    assert_eq!(tag_kind_to_symbol_kind("type"), Some(SymbolKind::Class));
    assert_eq!(tag_kind_to_symbol_kind("constant"), Some(SymbolKind::Constant));
    assert_eq!(tag_kind_to_symbol_kind("enum"), Some(SymbolKind::Enum));
    assert_eq!(tag_kind_to_symbol_kind("field"), Some(SymbolKind::Field));
    assert_eq!(tag_kind_to_symbol_kind("function"), Some(SymbolKind::Function));
    assert_eq!(tag_kind_to_symbol_kind("macro"), Some(SymbolKind::Function));
    assert_eq!(tag_kind_to_symbol_kind("interface"), Some(SymbolKind::Interface));
    assert_eq!(tag_kind_to_symbol_kind("module"), Some(SymbolKind::Module));
    assert_eq!(tag_kind_to_symbol_kind("section"), Some(SymbolKind::Module));
    assert_eq!(tag_kind_to_symbol_kind("struct"), Some(SymbolKind::Struct));
    assert_eq!(tag_kind_to_symbol_kind("method"), None);
    assert_eq!(tag_kind_to_symbol_kind(""), None);
}

#[test]
fn theme_keys_of_symbol_kinds() {
    assert_eq!(symbol_theme_key(SymbolKind::Module), Some("namespace"));
    assert_eq!(symbol_theme_key(SymbolKind::Struct), Some("type"));
    assert_eq!(symbol_theme_key(SymbolKind::Method), Some("function.method"));
    assert_eq!(symbol_theme_key(SymbolKind::Function), Some("function"));
    assert_eq!(symbol_theme_key(SymbolKind::EnumMember), Some("type.enum.variant"));
    assert_eq!(symbol_theme_key(SymbolKind::Property), Some("variable.other.member"));
    assert_eq!(symbol_theme_key(SymbolKind::TypeParameter), Some("type.parameter"));
    assert_eq!(symbol_theme_key(SymbolKind::File), None);
    assert_eq!(symbol_theme_key(SymbolKind::Event), None);
}

#[test]
fn full_path_then_trail() {
    let p = path(&["src", "ui", "bar.rs"]);
    let trail = Trail {
        elided: false,
        symbols: vec![sym(SymbolKind::Struct, "Bar"), sym(SymbolKind::Method, "render")],
    };
    let icons = vec![
        Some(Icon { glyph: "S".to_string(), color: Some(Color::Yellow) }),
        None,
    ];
    let crumbs = render(PathMode::Full, Some(&p[..]), Some(&trail), &icons, 20);
    assert_eq!(
        pieces(&crumbs),
        vec![
            piece("src", CrumbStyle::Directory),
            piece(" > ", CrumbStyle::Separator),
            piece("ui", CrumbStyle::Directory),
            piece(" > ", CrumbStyle::Separator),
            piece("bar.rs", CrumbStyle::Bar),
            piece(" > ", CrumbStyle::Separator),
            piece("S", CrumbStyle::Icon(Some(Color::Yellow))),
            piece(" ", CrumbStyle::Plain),
            piece("Bar", CrumbStyle::Symbol(SymbolKind::Struct)),
            piece(" > ", CrumbStyle::Separator),
            piece("render", CrumbStyle::Symbol(SymbolKind::Method)),
        ]
    );
}

#[test]
fn file_mode_shows_only_the_file_name() {
    let p = path(&["src", "main.rs"]);
    let crumbs = render(PathMode::File, Some(&p[..]), None, &[], 20);
    assert_eq!(pieces(&crumbs), vec![piece("main.rs", CrumbStyle::Bar)]);
}

#[test]
fn scratch_buffers_and_elided_trails() {
    let trail = Trail { elided: true, symbols: vec![sym(SymbolKind::Function, "inner_function")] };
    let crumbs = render(PathMode::Full, None, Some(&trail), &[None], 6);
    assert_eq!(
        pieces(&crumbs),
        vec![
            // The scratch name asks for no separator after it.
            piece("[scratch]", CrumbStyle::Bar),
            piece("…", CrumbStyle::Ellipsis),
            piece(" > ", CrumbStyle::Separator),
            piece("inn…on", CrumbStyle::Symbol(SymbolKind::Function)),
        ]
    );
}

#[test]
fn without_a_path_the_trail_starts_the_bar() {
    let trail = Trail {
        elided: false,
        symbols: vec![sym(SymbolKind::Module, "a"), sym(SymbolKind::Function, "b")],
    };
    let crumbs = render(PathMode::Off, Some(&path(&["x.rs"])[..]), Some(&trail), &[None, None], 0);
    assert_eq!(
        pieces(&crumbs),
        vec![
            piece("a", CrumbStyle::Symbol(SymbolKind::Module)),
            piece(" > ", CrumbStyle::Separator),
            piece("b", CrumbStyle::Symbol(SymbolKind::Function)),
        ]
    );
    let elided = Trail { elided: true, symbols: vec![] };
    let crumbs = render(PathMode::Off, None, Some(&elided), &[], 0);
    assert_eq!(pieces(&crumbs), vec![piece("…", CrumbStyle::Ellipsis)]);
}
