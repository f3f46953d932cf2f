//! The breadcrumb bar: the file path and the trail of symbols enclosing the
//! cursor, laid out as a sequence of styled pieces, and the symbol kinds
//! the trail is built from.

use vstd::prelude::*;

use crate::color::{chars_eq_from, str_chars, Color};

verus! {

/// Kinds of document symbols (as the Language Server Protocol numbers them).
#[derive(Debug, Clone, Copy, PartialEq, Eq, Structural)]
pub enum SymbolKind {
    File,
    Module,
    Namespace,
    Package,
    Class,
    Method,
    Property,
    Field,
    Constructor,
    Enum,
    Interface,
    Function,
    Variable,
    Constant,
    String,
    Number,
    Boolean,
    Array,
    Object,
    Key,
    Null,
    EnumMember,
    Struct,
    Event,
    Operator,
    TypeParameter,
}

/// Theme scope used to color a symbol of this kind in the trail (`None`:
/// the bar's own style).
pub open spec fn spec_symbol_theme_key(kind: SymbolKind) -> Option<Seq<char>> {
    match kind {
        SymbolKind::Module | SymbolKind::Namespace | SymbolKind::Package => Some("namespace"@),
        SymbolKind::Object | SymbolKind::Struct | SymbolKind::Interface | SymbolKind::Class => Some(
            "type"@,
        ),
        SymbolKind::Method => Some("function.method"@),
        SymbolKind::Function => Some("function"@),
        SymbolKind::Enum => Some("type.enum"@),
        SymbolKind::EnumMember => Some("type.enum.variant"@),
        SymbolKind::Field | SymbolKind::Property => Some("variable.other.member"@),
        SymbolKind::Variable => Some("variable"@),
        SymbolKind::Constant => Some("constant"@),
        SymbolKind::Constructor => Some("constructor"@),
        SymbolKind::String => Some("string"@),
        SymbolKind::Number => Some("constant.numeric"@),
        SymbolKind::Boolean => Some("constant.builtin.boolean"@),
        SymbolKind::Array => Some("punctuation.bracket"@),
        SymbolKind::Key => Some("label"@),
        SymbolKind::Null => Some("constant.builtin"@),
        SymbolKind::TypeParameter => Some("type.parameter"@),
        _ => None,
    }
}

/// Kinds that name a type: classes, structs, interfaces and objects.
pub open spec fn spec_is_type_kind(k: SymbolKind) -> bool {
    k == SymbolKind::Class || k == SymbolKind::Struct || k == SymbolKind::Interface || k
        == SymbolKind::Object
}

/// Kinds that name a namespace: modules, namespaces and packages.
pub open spec fn spec_is_namespace_kind(k: SymbolKind) -> bool {
    k == SymbolKind::Module || k == SymbolKind::Namespace || k == SymbolKind::Package
}

/// How symbol kinds are colored in the trail: every type-like kind takes the
/// `type` scope, every namespace-like kind the `namespace` scope, fields and
/// properties share the member-variable scope, methods and functions have
/// distinct scopes, and files, events and operators keep the bar's style.
pub proof fn lemma_symbol_theme_families(k: SymbolKind)
    ensures
        spec_is_type_kind(k) ==> spec_symbol_theme_key(k) == Some("type"@),
        spec_is_namespace_kind(k) ==> spec_symbol_theme_key(k) == Some("namespace"@),
        k == SymbolKind::Field || k == SymbolKind::Property ==> spec_symbol_theme_key(k) == Some(
            "variable.other.member"@,
        ),
        spec_symbol_theme_key(SymbolKind::Method) != spec_symbol_theme_key(SymbolKind::Function),
        k == SymbolKind::File || k == SymbolKind::Event || k == SymbolKind::Operator
            ==> spec_symbol_theme_key(k) is None,
        !(k == SymbolKind::File || k == SymbolKind::Event || k == SymbolKind::Operator)
            ==> spec_symbol_theme_key(k) is Some,
{
    reveal_strlit("function.method");
    reveal_strlit("function");
    assert("function.method"@.len() != "function"@.len());
}

pub fn symbol_theme_key(kind: SymbolKind) -> (key: Option<&'static str>)
    ensures
        match key {
            Some(k) => spec_symbol_theme_key(kind) == Some(k@),
            None => spec_symbol_theme_key(kind) is None,
        },
        spec_is_type_kind(kind) ==> (key matches Some(k) && k@ == "type"@),
        spec_is_namespace_kind(kind) ==> (key matches Some(k) && k@ == "namespace"@),
{
    proof {
        lemma_symbol_theme_families(kind);
    }
    match kind {
        SymbolKind::Module | SymbolKind::Namespace | SymbolKind::Package => Some("namespace"),
        SymbolKind::Object | SymbolKind::Struct | SymbolKind::Interface | SymbolKind::Class => Some(
            "type",
        ),
        SymbolKind::Method => Some("function.method"),
        SymbolKind::Function => Some("function"),
        SymbolKind::Enum => Some("type.enum"),
        SymbolKind::EnumMember => Some("type.enum.variant"),
        SymbolKind::Field | SymbolKind::Property => Some("variable.other.member"),
        SymbolKind::Variable => Some("variable"),
        SymbolKind::Constant => Some("constant"),
        SymbolKind::Constructor => Some("constructor"),
        SymbolKind::String => Some("string"),
        SymbolKind::Number => Some("constant.numeric"),
        SymbolKind::Boolean => Some("constant.builtin.boolean"),
        SymbolKind::Array => Some("punctuation.bracket"),
        SymbolKind::Key => Some("label"),
        SymbolKind::Null => Some("constant.builtin"),
        SymbolKind::TypeParameter => Some("type.parameter"),
        _ => None,
    }
}

/// Symbol kind of a tree-sitter `tags.scm` definition kind (the part after
/// `definition.`), so tags and language-server symbols share one trail.
pub open spec fn spec_tag_kind_to_symbol_kind(name: Seq<char>) -> Option<SymbolKind> {
    if name == seq!['c', 'l', 'a', 's', 's'] || name == seq!['t', 'y', 'p', 'e'] {
        Some(SymbolKind::Class)
    } else if name == seq!['c', 'o', 'n', 's', 't', 'a', 'n', 't'] {
        Some(SymbolKind::Constant)
    } else if name == seq!['e', 'n', 'u', 'm'] {
        Some(SymbolKind::Enum)
    } else if name == seq!['f', 'i', 'e', 'l', 'd'] {
        Some(SymbolKind::Field)
    } else if name == seq!['f', 'u', 'n', 'c', 't', 'i', 'o', 'n'] || name == seq![
        'm',
        'a',
        'c',
        'r',
        'o',
    ] {
        Some(SymbolKind::Function)
    } else if name == seq!['i', 'n', 't', 'e', 'r', 'f', 'a', 'c', 'e'] {
        Some(SymbolKind::Interface)
    } else if name == seq!['m', 'o', 'd', 'u', 'l', 'e'] || name == seq![
        's',
        'e',
        'c',
        't',
        'i',
        'o',
        'n',
    ] {
        Some(SymbolKind::Module)
    } else if name == seq!['s', 't', 'r', 'u', 'c', 't'] {
        Some(SymbolKind::Struct)
    } else {
        None
    }
}

pub fn tag_kind_to_symbol_kind(name: &str) -> (k: Option<SymbolKind>)
    ensures
        k == spec_tag_kind_to_symbol_kind(name@),
{
    let v = str_chars(name);
    assert(v@.subrange(0, v@.len() as int) =~= v@);
    tag_kind_chars(&v, 0)
}

/// The symbol kind named by the characters `v[from..]`.
pub(crate) fn tag_kind_chars(v: &Vec<char>, from: usize) -> (k: Option<SymbolKind>)
    requires
        from <= v.len(),
    ensures
        k == spec_tag_kind_to_symbol_kind(v@.subrange(from as int, v@.len() as int)),
{
    let class: &[char] = &['c', 'l', 'a', 's', 's'];
    let type_: &[char] = &['t', 'y', 'p', 'e'];
    let constant: &[char] = &['c', 'o', 'n', 's', 't', 'a', 'n', 't'];
    let enum_: &[char] = &['e', 'n', 'u', 'm'];
    let field: &[char] = &['f', 'i', 'e', 'l', 'd'];
    let function: &[char] = &['f', 'u', 'n', 'c', 't', 'i', 'o', 'n'];
    let macro_: &[char] = &['m', 'a', 'c', 'r', 'o'];
    let interface: &[char] = &['i', 'n', 't', 'e', 'r', 'f', 'a', 'c', 'e'];
    let module: &[char] = &['m', 'o', 'd', 'u', 'l', 'e'];
    let section: &[char] = &['s', 'e', 'c', 't', 'i', 'o', 'n'];
    let struct_: &[char] = &['s', 't', 'r', 'u', 'c', 't'];
    assert(class@ == seq!['c', 'l', 'a', 's', 's']);
    assert(type_@ == seq!['t', 'y', 'p', 'e']);
    assert(constant@ == seq!['c', 'o', 'n', 's', 't', 'a', 'n', 't']);
    assert(enum_@ == seq!['e', 'n', 'u', 'm']);
    assert(field@ == seq!['f', 'i', 'e', 'l', 'd']);
    assert(function@ == seq!['f', 'u', 'n', 'c', 't', 'i', 'o', 'n']);
    assert(macro_@ == seq!['m', 'a', 'c', 'r', 'o']);
    assert(interface@ == seq!['i', 'n', 't', 'e', 'r', 'f', 'a', 'c', 'e']);
    assert(module@ == seq!['m', 'o', 'd', 'u', 'l', 'e']);
    assert(section@ == seq!['s', 'e', 'c', 't', 'i', 'o', 'n']);
    assert(struct_@ == seq!['s', 't', 'r', 'u', 'c', 't']);
    if chars_eq_from(v, from, class) || chars_eq_from(v, from, type_) {
        Some(SymbolKind::Class)
    } else if chars_eq_from(v, from, constant) {
        Some(SymbolKind::Constant)
    } else if chars_eq_from(v, from, enum_) {
        Some(SymbolKind::Enum)
    } else if chars_eq_from(v, from, field) {
        Some(SymbolKind::Field)
    } else if chars_eq_from(v, from, function) || chars_eq_from(v, from, macro_) {
        Some(SymbolKind::Function)
    } else if chars_eq_from(v, from, interface) {
        Some(SymbolKind::Interface)
    } else if chars_eq_from(v, from, module) || chars_eq_from(v, from, section) {
        Some(SymbolKind::Module)
    } else if chars_eq_from(v, from, struct_) {
        Some(SymbolKind::Struct)
    } else {
        None
    }
}

/// A symbol name shortened to `max_len` characters by eliding its middle
/// with `…` (the head keeps the larger half, at least one character);
/// names that fit, or a zero limit, are kept whole.
pub open spec fn spec_truncate_name(name: Seq<char>, max_len: int) -> Seq<char> {
    if max_len == 0 || name.len() <= max_len {
        name
    } else {
        let keep = max_len - 1;
        let head = if (keep + 1) / 2 < 1 {
            1
        } else {
            (keep + 1) / 2
        };
        let tail = keep - head;
        name.take(head) + seq!['\u{2026}'] + if tail > 0 {
            name.skip(name.len() - tail)
        } else {
            Seq::<char>::empty()
        }
    }
}

pub fn truncate_name(name: &str, max_len: usize) -> (t: String)
    requires
        !(max_len == 1 && name@.len() > 1),
    ensures
        t@ == spec_truncate_name(name@, max_len as int),
{
    let chars = str_chars(name);
    let mut out = String::new();
    if max_len == 0 || chars.len() <= max_len {
        let mut i: usize = 0;
        while i < chars.len()
            invariant
                i <= chars@.len(),
                out@ == chars@.take(i as int),
            decreases chars.len() - i,
        {
            out.push(chars[i]);
            i += 1;
            assert(out@ =~= chars@.take(i as int));
        }
        assert(chars@.take(i as int) =~= chars@);
        return out;
    }
    let keep = max_len - 1;
    let half = keep / 2 + keep % 2;
    let head = if half < 1 {
        1
    } else {
        half
    };
    let tail = keep - head;
    let mut i: usize = 0;
    while i < head
        invariant
            head <= chars@.len(),
            i <= head,
            out@ == chars@.take(i as int),
        decreases head - i,
    {
        out.push(chars[i]);
        i += 1;
        assert(out@ =~= chars@.take(i as int));
    }
    out.push('\u{2026}');
    let ghost mid = out@;
    let start = chars.len() - tail;
    let mut j: usize = start;
    while j < chars.len()
        invariant
            start <= j <= chars@.len(),
            out@ == mid + chars@.subrange(start as int, j as int),
        decreases chars.len() - j,
    {
        out.push(chars[j]);
        j += 1;
        assert(out@ =~= mid + chars@.subrange(start as int, j as int));
    }
    assert(chars@.subrange(start as int, chars@.len() as int) =~= if tail > 0 {
        chars@.skip(chars@.len() - tail)
    } else {
        Seq::<char>::empty()
    });
    out
}

/// Which part of the file path the bar shows.
#[derive(Debug, Clone, Copy, PartialEq, Eq, Structural)]
pub enum PathMode {
    Off,
    Full,
    File,
}

/// How a piece of the bar is styled.
#[derive(Debug, Clone, Copy, PartialEq, Eq, Structural)]
pub enum CrumbStyle {
    /// The bar's own style.
    Bar,
    Directory,
    Separator,
    Ellipsis,
    /// A symbol-kind icon, in its color if it has one.
    Icon(Option<Color>),
    /// The default style (the space after an icon).
    Plain,
    /// A symbol name, styled by its kind.
    Symbol(SymbolKind),
}

/// One piece of text drawn on the bar.
pub struct Crumb {
    pub text: String,
    pub style: CrumbStyle,
}

/// Icon for a symbol kind.
pub struct Icon {
    pub glyph: String,
    pub color: Option<Color>,
}

pub struct TrailSymbol {
    pub kind: SymbolKind,
    pub name: String,
}

/// Symbols enclosing the cursor, outermost first; `elided` when outer ones
/// were left out.
pub struct Trail {
    pub elided: bool,
    pub symbols: Vec<TrailSymbol>,
}

pub open spec fn spec_separator() -> Seq<char> {
    seq![' ', '>', ' ']
}

/// Name shown for a buffer without a file.
pub open spec fn spec_scratch_name() -> Seq<char> {
    seq!['[', 's', 'c', 'r', 'a', 't', 'c', 'h', ']']
}

pub open spec fn spec_crumbs(crumbs: Seq<Crumb>) -> Seq<(Seq<char>, CrumbStyle)> {
    crumbs.map_values(|c: Crumb| (c.text@, c.style))
}

/// The first `n` path components, separated, all but the last styled as
/// directories.
pub open spec fn spec_component_crumbs(cs: Seq<Seq<char>>, n: int) -> Seq<(Seq<char>, CrumbStyle)>
    decreases n,
{
    if n <= 0 {
        Seq::empty()
    } else {
        spec_component_crumbs(cs, n - 1) + (if n - 1 > 0 {
            seq![(spec_separator(), CrumbStyle::Separator)]
        } else {
            Seq::empty()
        }) + seq![
            (cs[n - 1], if n < cs.len() {
                CrumbStyle::Directory
            } else {
                CrumbStyle::Bar
            }),
        ]
    }
}

/// The components the bar shows: all of them, or only the file name.
pub open spec fn spec_shown_components(mode: PathMode, cs: Seq<Seq<char>>) -> Seq<Seq<char>> {
    if mode == PathMode::File && cs.len() > 0 {
        seq![cs.last()]
    } else {
        cs
    }
}

/// The path part of the bar, and whether a separator must precede what
/// follows it.
pub open spec fn spec_path_crumbs(mode: PathMode, path: Option<Seq<Seq<char>>>) -> (
    Seq<(Seq<char>, CrumbStyle)>,
    bool,
) {
    if mode == PathMode::Off {
        (Seq::empty(), false)
    } else {
        match path {
            None => (seq![(spec_scratch_name(), CrumbStyle::Bar)], false),
            Some(cs) => {
                let shown = spec_shown_components(mode, cs);
                (spec_component_crumbs(shown, shown.len() as int), shown.len() > 0)
            },
        }
    }
}

/// Crumbs of the first `n` trail symbols: a separator before each (unless it
/// is the very first piece), the kind's icon followed by a space when there
/// is one, and the shortened name.
pub open spec fn spec_symbol_crumbs(
    symbols: Seq<(SymbolKind, Seq<char>)>,
    icons: Seq<Option<(Seq<char>, Option<Color>)>>,
    sep: bool,
    n: int,
    max_len: int,
) -> Seq<(Seq<char>, CrumbStyle)>
    decreases n,
{
    if n <= 0 {
        Seq::empty()
    } else {
        let (kind, name) = symbols[n - 1];
        spec_symbol_crumbs(symbols, icons, sep, n - 1, max_len) + (if sep || n - 1 > 0 {
            seq![(spec_separator(), CrumbStyle::Separator)]
        } else {
            Seq::empty()
        }) + (match icons[n - 1] {
            Some((glyph, color)) => seq![
                (glyph, CrumbStyle::Icon(color)),
                (seq![' '], CrumbStyle::Plain),
            ],
            None => Seq::empty(),
        }) + seq![(spec_truncate_name(name, max_len), CrumbStyle::Symbol(kind))]
    }
}

/// The trail part of the bar.
pub open spec fn spec_trail_crumbs(
    sep: bool,
    elided: bool,
    symbols: Seq<(SymbolKind, Seq<char>)>,
    icons: Seq<Option<(Seq<char>, Option<Color>)>>,
    max_len: int,
) -> Seq<(Seq<char>, CrumbStyle)> {
    (if elided {
        (if sep {
            seq![(spec_separator(), CrumbStyle::Separator)]
        } else {
            Seq::empty()
        }) + seq![(seq!['\u{2026}'], CrumbStyle::Ellipsis)]
    } else {
        Seq::empty()
    }) + spec_symbol_crumbs(symbols, icons, sep || elided, symbols.len() as int, max_len)
}

pub open spec fn spec_trail_symbols(trail: Trail) -> Seq<(SymbolKind, Seq<char>)> {
    trail.symbols@.map_values(|s: TrailSymbol| (s.kind, s.name@))
}

pub open spec fn spec_icons(icons: Seq<Option<Icon>>) -> Seq<Option<(Seq<char>, Option<Color>)>> {
    icons.map_values(
        |i: Option<Icon>|
            match i {
                Some(icon) => Some((icon.glyph@, icon.color)),
                None => None,
            },
    )
}

/// The pieces of the breadcrumb bar, left to right: the path (per `mode`;
/// a buffer without a path shows `[scratch]`), then the trail of symbols,
/// with ` > ` between pieces.
pub open spec fn spec_render(
    mode: PathMode,
    path: Option<Seq<Seq<char>>>,
    trail: Option<Trail>,
    icons: Seq<Option<Icon>>,
    max_len: int,
) -> Seq<(Seq<char>, CrumbStyle)> {
    let (p, sep) = spec_path_crumbs(mode, path);
    p + match trail {
        Some(t) => spec_trail_crumbs(sep, t.elided, spec_trail_symbols(t), spec_icons(icons), max_len),
        None => Seq::empty(),
    }
}

fn copy_string(s: &String) -> (t: String)
    ensures
        t@ == s@,
{
    s.clone()
}

fn push_crumb(out: &mut Vec<Crumb>, text: String, style: CrumbStyle)
    ensures
        spec_crumbs(final(out)@) == spec_crumbs(old(out)@).push((text@, style)),
{
    out.push(Crumb { text, style });
    assert(spec_crumbs(out@) =~= spec_crumbs(old(out)@).push((text@, style)));
}

fn separator() -> (s: String)
    ensures
        s@ == spec_separator(),
{
    let mut s = String::new();
    s.push(' ');
    s.push('>');
    s.push(' ');
    s
}

fn single(c: char) -> (s: String)
    ensures
        s@ == seq![c],
{
    let mut s = String::new();
    s.push(c);
    s
}

/// Lays out the breadcrumb bar (see `spec_render`); `icons[i]` is the icon
/// of the kind of trail symbol `i`, if the icon set has one.
pub fn render(
    mode: PathMode,
    path: Option<&[String]>,
    trail: Option<&Trail>,
    icons: &[Option<Icon>],
    max_name_length: usize,
) -> (crumbs: Vec<Crumb>)
    requires
        trail matches Some(t) ==> icons@.len() == t.symbols@.len() && forall|i: int|
            0 <= i < t.symbols@.len() ==> !(max_name_length == 1 && (
            #[trigger] t.symbols@[i]).name@.len() > 1),
    ensures
        spec_crumbs(crumbs@) == spec_render(
            mode,
            match path {
                Some(p) => Some(p@.map_values(|c: String| c@)),
                None => None,
            },
            match trail {
                Some(t) => Some(*t),
                None => None,
            },
            icons@,
            max_name_length as int,
        ),
{
    let mut out: Vec<Crumb> = Vec::new();
    let mut draw_separator = false;
    if mode != PathMode::Off {
        match path {
            Some(components) => {
                let ghost cs = components@.map_values(|c: String| c@);
                let start = if mode == PathMode::File && components.len() > 0 {
                    components.len() - 1
                } else {
                    0
                };
                let ghost shown = spec_shown_components(mode, cs);
                assert(shown =~= cs.subrange(start as int, cs.len() as int));
                let mut i: usize = start;
                while i < components.len()
                    invariant
                        start <= i <= components@.len(),
                        cs == components@.map_values(|c: String| c@),
                        shown == cs.subrange(start as int, cs.len() as int),
                        draw_separator == (i > start),
                        spec_crumbs(out@) == spec_component_crumbs(shown, i - start),
                    decreases components.len() - i,
                {
                    if draw_separator {
                        push_crumb(&mut out, separator(), CrumbStyle::Separator);
                    } else {
                        draw_separator = true;
                    }
                    let is_directory = i + 1 < components.len();
                    let style = if is_directory {
                        CrumbStyle::Directory
                    } else {
                        CrumbStyle::Bar
                    };
                    push_crumb(&mut out, copy_string(&components[i]), style);
                    i += 1;
                    assert(spec_crumbs(out@) =~= spec_component_crumbs(shown, i - start));
                }
            },
            None => {
                let scratch = String::from_str("[scratch]");
                proof {
                    reveal_strlit("[scratch]");
                }
                assert(scratch@ =~= spec_scratch_name());
                push_crumb(&mut out, scratch, CrumbStyle::Bar);
                assert(spec_crumbs(out@) =~= seq![(spec_scratch_name(), CrumbStyle::Bar)]);
            },
        }
    }
    let ghost path_part = spec_crumbs(out@);
    match trail {
        Some(t) => {
            let ghost sep0 = draw_separator;
            if t.elided {
                if draw_separator {
                    push_crumb(&mut out, separator(), CrumbStyle::Separator);
                } else {
                    draw_separator = true;
                }
                push_crumb(&mut out, single('\u{2026}'), CrumbStyle::Ellipsis);
            }
            let ghost mid = spec_crumbs(out@);
            let ghost syms = spec_trail_symbols(*t);
            let ghost ics = spec_icons(icons@);
            let ghost sep1 = draw_separator;
            let mut i: usize = 0;
            while i < t.symbols.len()
                invariant
                    i <= t.symbols@.len(),
                    icons@.len() == t.symbols@.len(),
                    forall|k: int|
                        0 <= k < t.symbols@.len() ==> !(max_name_length == 1 && (
                        #[trigger] t.symbols@[k]).name@.len() > 1),
                    syms == spec_trail_symbols(*t),
                    ics == spec_icons(icons@),
                    draw_separator == (sep1 || i > 0),
                    spec_crumbs(out@) == mid + spec_symbol_crumbs(
                        syms,
                        ics,
                        sep1,
                        i as int,
                        max_name_length as int,
                    ),
                decreases t.symbols.len() - i,
            {
                let ghost before = spec_crumbs(out@);
                if draw_separator {
                    push_crumb(&mut out, separator(), CrumbStyle::Separator);
                } else {
                    draw_separator = true;
                }
                match &icons[i] {
                    Some(icon) => {
                        push_crumb(&mut out, copy_string(&icon.glyph), CrumbStyle::Icon(icon.color));
                        push_crumb(&mut out, single(' '), CrumbStyle::Plain);
                    },
                    None => {},
                }
                let sym = &t.symbols[i];
                assert(syms[i as int] == (sym.kind, sym.name@));
                let name = truncate_name(sym.name.as_str(), max_name_length);
                push_crumb(&mut out, name, CrumbStyle::Symbol(sym.kind));
                i += 1;
                assert(spec_crumbs(out@) =~= mid + spec_symbol_crumbs(
                    syms,
                    ics,
                    sep1,
                    i as int,
                    max_name_length as int,
                ));
            }
            assert(syms.len() == t.symbols@.len());
        },
        None => {},
    }
    out
}

} // verus!
