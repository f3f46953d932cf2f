//! Refreshing the document symbols behind the breadcrumb trail: which
//! source a refresh uses, what each editor event asks for, how one
//! tree-sitter tag match becomes a symbol, and which views show a document.

use vstd::prelude::*;

use crate::breadcrumb::{spec_tag_kind_to_symbol_kind, tag_kind_chars, SymbolKind};
use crate::color::str_chars;
use crate::diff_group::{DocumentId, ViewId, ViewState};
use crate::text_lines::{char_pos, spec_char_pos, TextLines};

verus! {

/// How a document's symbols are refreshed.
#[derive(Debug, Clone, Copy, PartialEq, Eq, Structural)]
pub enum SymbolRefresh {
    /// Breadcrumbs are off, the editor is in insert mode (typing would only
    /// add latency; leaving insert mode asks again) or the document is gone.
    Skip,
    /// Ask the first language server that offers document symbols.
    RequestLanguageServer,
    /// Compute them from the tree-sitter tag query.
    TreeSitterTags,
}

pub open spec fn spec_symbol_refresh(
    breadcrumbs_enabled: bool,
    insert_mode: bool,
    doc_open: bool,
    has_symbol_server: bool,
) -> SymbolRefresh {
    if !breadcrumbs_enabled || insert_mode || !doc_open {
        SymbolRefresh::Skip
    } else if has_symbol_server {
        SymbolRefresh::RequestLanguageServer
    } else {
        SymbolRefresh::TreeSitterTags
    }
}

/// Picks the best available symbol source for a refresh.
pub fn symbol_refresh(
    breadcrumbs_enabled: bool,
    insert_mode: bool,
    doc_open: bool,
    has_symbol_server: bool,
) -> (r: SymbolRefresh)
    ensures
        r == spec_symbol_refresh(breadcrumbs_enabled, insert_mode, doc_open, has_symbol_server),
{
    if !breadcrumbs_enabled || insert_mode || !doc_open {
        SymbolRefresh::Skip
    } else if has_symbol_server {
        SymbolRefresh::RequestLanguageServer
    } else {
        SymbolRefresh::TreeSitterTags
    }
}

/// What an edit of a document asks of the symbol machinery.
#[derive(Debug, Clone, Copy, PartialEq, Eq, Structural)]
pub struct ChangeResponse {
    /// Cancel the pending request of this document and queue a debounced
    /// refresh of it (not for ghost transactions).
    pub queue: Option<DocumentId>,
    /// Recompute this view's trail from the cached symbols at once.
    pub update_trail: Option<ViewId>,
}

pub fn on_document_change(
    doc: DocumentId,
    view: ViewId,
    ghost_transaction: bool,
    breadcrumbs_enabled: bool,
) -> (r: ChangeResponse)
    ensures
        r.queue == (if ghost_transaction {
            None
        } else {
            Some(doc)
        }),
        r.update_trail == (if breadcrumbs_enabled {
            Some(view)
        } else {
            None
        }),
{
    ChangeResponse {
        queue: if ghost_transaction {
            None
        } else {
            Some(doc)
        },
        update_trail: if breadcrumbs_enabled {
            Some(view)
        } else {
            None
        },
    }
}

/// The trail follows the cursor with no debouncing while breadcrumbs are on.
pub fn on_selection_change(view: ViewId, breadcrumbs_enabled: bool) -> (r: Option<ViewId>)
    ensures
        r == (if breadcrumbs_enabled {
            Some(view)
        } else {
            None
        }),
{
    if breadcrumbs_enabled {
        Some(view)
    } else {
        None
    }
}

/// What a change of the breadcrumb setting does to every document.
#[derive(Debug, Clone, Copy, PartialEq, Eq, Structural)]
pub enum ConfigResponse {
    Nothing,
    /// Turned on: refresh the symbols of every document.
    RefreshAll,
    /// Turned off: drop every document's cached symbols.
    ClearAll,
}

pub fn on_config_change(old_enabled: bool, new_enabled: bool) -> (r: ConfigResponse)
    ensures
        r == (if !old_enabled && new_enabled {
            ConfigResponse::RefreshAll
        } else if old_enabled && !new_enabled {
            ConfigResponse::ClearAll
        } else {
            ConfigResponse::Nothing
        }),
{
    if !old_enabled && new_enabled {
        ConfigResponse::RefreshAll
    } else if old_enabled && !new_enabled {
        ConfigResponse::ClearAll
    } else {
        ConfigResponse::Nothing
    }
}

/// Leaving insert mode refreshes the focused view's trail and queues its
/// document, whose requests were skipped while typing (`focus` is the
/// focused view and its document, when the view exists).
pub fn on_mode_switch(left_insert: bool, focus: Option<(ViewId, DocumentId)>) -> (r: Option<
    (ViewId, DocumentId),
>)
    ensures
        r == (if left_insert {
            focus
        } else {
            None
        }),
{
    if left_insert {
        focus
    } else {
        None
    }
}

/// One capture of a tag-query match: the capture's index, its name in the
/// query, and the byte range of the captured node.
pub struct TagCapture {
    pub capture: u32,
    pub name: String,
    pub start: u32,
    pub end: u32,
}

/// A symbol found by one tag match: its kind, the byte range of its
/// definition, and the byte range of its name.
#[derive(Debug, Clone, Copy, PartialEq, Eq, Structural)]
pub struct TagSymbol {
    pub kind: SymbolKind,
    pub def_start: u32,
    pub def_end: u32,
    pub name_start: u32,
    pub name_end: u32,
}

pub open spec fn spec_definition_prefix() -> Seq<char> {
    seq!['d', 'e', 'f', 'i', 'n', 'i', 't', 'i', 'o', 'n', '.']
}

/// Symbol kind of a `definition.<kind>` capture name.
pub open spec fn spec_definition_kind(name: Seq<char>) -> Option<SymbolKind> {
    let p = spec_definition_prefix();
    if p.len() <= name.len() && name.subrange(0, p.len() as int) == p {
        spec_tag_kind_to_symbol_kind(name.subrange(p.len() as int, name.len() as int))
    } else {
        None
    }
}

/// The definition (kind and range) and name range found among the first
/// `n` captures; a later capture replaces an earlier one of the same role.
pub open spec fn spec_scan_captures(
    captures: Seq<(u32, Seq<char>, u32, u32)>,
    name_capture: Option<u32>,
    n: nat,
) -> (Option<(SymbolKind, (u32, u32))>, Option<(u32, u32)>)
    decreases n,
{
    if n == 0 || n > captures.len() {
        (None, None)
    } else {
        let prev = spec_scan_captures(captures, name_capture, (n - 1) as nat);
        let c = captures[n - 1];
        match spec_definition_kind(c.1) {
            Some(kind) => (Some((kind, (c.2, c.3))), prev.1),
            None => {
                if name_capture == Some(c.0) {
                    (prev.0, Some((c.2, c.3)))
                } else {
                    prev
                }
            },
        }
    }
}

pub open spec fn spec_capture_view(c: TagCapture) -> (u32, Seq<char>, u32, u32) {
    (c.capture, c.name@, c.start, c.end)
}

/// The symbol of a match: none without a definition capture; the name
/// range defaults to the whole definition.
pub open spec fn spec_tag_match_symbol(
    captures: Seq<(u32, Seq<char>, u32, u32)>,
    name_capture: Option<u32>,
) -> Option<TagSymbol> {
    let scan = spec_scan_captures(captures, name_capture, captures.len());
    match scan.0 {
        None => None,
        Some((kind, def)) => {
            let name = match scan.1 {
                Some(r) => r,
                None => def,
            };
            Some(
                TagSymbol {
                    kind,
                    def_start: def.0,
                    def_end: def.1,
                    name_start: name.0,
                    name_end: name.1,
                },
            )
        },
    }
}

fn definition_kind(name: &String) -> (k: Option<SymbolKind>)
    ensures
        k == spec_definition_kind(name@),
{
    let v = str_chars(name.as_str());
    let prefix: &[char] = &['d', 'e', 'f', 'i', 'n', 'i', 't', 'i', 'o', 'n', '.'];
    assert(prefix@ == spec_definition_prefix());
    if v.len() < prefix.len() {
        return None;
    }
    let mut i: usize = 0;
    while i < prefix.len()
        invariant
            v@ == name@,
            prefix@ == spec_definition_prefix(),
            prefix.len() <= v.len(),
            i <= prefix.len(),
            forall|j: int| 0 <= j < i ==> v@[j] == prefix@[j],
        decreases prefix.len() - i,
    {
        if v[i] != prefix[i] {
            assert(v@.subrange(0, prefix@.len() as int)[i as int] != prefix@[i as int]);
            return None;
        }
        i += 1;
    }
    assert(v@.subrange(0, prefix@.len() as int) =~= prefix@);
    tag_kind_chars(&v, prefix.len())
}

/// Reads one tag-query match: the `definition.*` capture gives the kind and
/// range, the `name` capture (index `name_capture`) the name's range.
pub fn tag_match_symbol(captures: &[TagCapture], name_capture: Option<u32>) -> (s: Option<TagSymbol>)
    ensures
        s == spec_tag_match_symbol(captures@.map_values(|c: TagCapture| spec_capture_view(c)), name_capture),
{
    let ghost cs = captures@.map_values(|c: TagCapture| spec_capture_view(c));
    let mut def: Option<(SymbolKind, (u32, u32))> = None;
    let mut name: Option<(u32, u32)> = None;
    let mut i: usize = 0;
    while i < captures.len()
        invariant
            i <= captures@.len(),
            cs == captures@.map_values(|c: TagCapture| spec_capture_view(c)),
            (def, name) == spec_scan_captures(cs, name_capture, i as nat),
        decreases captures.len() - i,
    {
        let c = &captures[i];
        assert(cs[i as int] == spec_capture_view(*c));
        match definition_kind(&c.name) {
            Some(kind) => {
                def = Some((kind, (c.start, c.end)));
            },
            None => {
                if name_capture == Some(c.capture) {
                    name = Some((c.start, c.end));
                }
            },
        }
        i += 1;
    }
    match def {
        None => None,
        Some((kind, d)) => {
            let r = match name {
                Some(r) => r,
                None => d,
            };
            Some(TagSymbol { kind, def_start: d.0, def_end: d.1, name_start: r.0, name_end: r.1 })
        },
    }
}

/// Number of UTF-8 bytes of a character.
pub open spec fn spec_char_len(c: char) -> nat {
    if (c as u32) < 0x80 {
        1
    } else if (c as u32) < 0x800 {
        2
    } else if (c as u32) < 0x10000 {
        3
    } else {
        4
    }
}

/// Number of UTF-8 bytes of a text.
pub open spec fn spec_utf8_len(s: Seq<char>) -> nat
    decreases s.len(),
{
    if s.len() == 0 {
        0
    } else {
        spec_utf8_len(s.drop_last()) + spec_char_len(s.last())
    }
}

/// Index of the character containing byte `b` of the text (the number of
/// characters in the longest prefix of at most `b` bytes); the end of the
/// text maps to its length.
pub open spec fn spec_byte_to_char(s: Seq<char>, b: int) -> nat
    decreases s.len(),
{
    if s.len() == 0 || spec_utf8_len(s) <= b {
        s.len()
    } else {
        spec_byte_to_char(s.drop_last(), b)
    }
}

fn char_len(c: char) -> (n: usize)
    ensures
        n == spec_char_len(c),
{
    if (c as u32) < 0x80 {
        1
    } else if (c as u32) < 0x800 {
        2
    } else if (c as u32) < 0x10000 {
        3
    } else {
        4
    }
}

proof fn lemma_byte_to_char_bounds(s: Seq<char>, b1: int, b2: int)
    requires
        b1 <= b2,
    ensures
        spec_byte_to_char(s, b1) <= spec_byte_to_char(s, b2) <= s.len(),
    decreases s.len(),
{
    if s.len() > 0 {
        lemma_byte_to_char_bounds(s.drop_last(), b1, b2);
    }
}

proof fn lemma_utf8_len_take_mono(s: Seq<char>, i: int, m: int)
    requires
        0 <= i <= m <= s.len(),
    ensures
        spec_utf8_len(s.take(i)) <= spec_utf8_len(s.take(m)),
    decreases m - i,
{
    if i < m {
        assert(s.take(m).drop_last() =~= s.take(m - 1));
        lemma_utf8_len_take_mono(s, i, m - 1);
    }
}

/// The scan of `byte_to_char` stops at the right character.
proof fn lemma_byte_to_char_at(s: Seq<char>, b: int, i: int, m: int)
    requires
        0 <= i <= m <= s.len(),
        spec_utf8_len(s.take(i)) <= b,
        i < s.len() ==> spec_utf8_len(s.take(i + 1)) > b,
    ensures
        spec_byte_to_char(s.take(m), b) == i,
    decreases m - i,
{
    if m > i {
        assert(s.take(m).drop_last() =~= s.take(m - 1));
        lemma_utf8_len_take_mono(s, i + 1, m);
        lemma_byte_to_char_at(s, b, i, m - 1);
    }
}

/// Character index of byte `b` of the text whose characters are `chars`.
fn byte_to_char(chars: &Vec<char>, b: usize) -> (c: usize)
    ensures
        c == spec_byte_to_char(chars@, b as int),
{
    let mut i: usize = 0;
    let mut acc: usize = 0;
    assert(chars@.take(0) =~= Seq::<char>::empty());
    while i < chars.len() && char_len(chars[i]) <= b - acc
        invariant
            i <= chars@.len(),
            acc <= b,
            acc == spec_utf8_len(chars@.take(i as int)),
        decreases chars.len() - i,
    {
        assert(chars@.take(i + 1).drop_last() =~= chars@.take(i as int));
        acc = acc + char_len(chars[i]);
        i += 1;
    }
    proof {
        if i < chars@.len() {
            assert(chars@.take(i + 1).drop_last() =~= chars@.take(i as int));
        }
        lemma_byte_to_char_at(chars@, b as int, i as int, chars@.len() as int);
        assert(chars@.take(chars@.len() as int) =~= chars@);
    }
    i
}

/// A symbol as the breadcrumb trail caches it: name, kind, and the
/// `(line, character)` range of its definition.
pub struct DocSymbol {
    pub name: String,
    pub kind: SymbolKind,
    pub start_line: u32,
    pub start_character: u32,
    pub end_line: u32,
    pub end_character: u32,
}

/// The symbol of a tag match over `text` (whose line structure is
/// `lines`): the name is the text of the name's range, the range is the
/// definition's, both converted from byte offsets to characters and the
/// range to `(line, character)` positions.
pub fn tag_symbol(text: &str, lines: &TextLines, tag: &TagSymbol) -> (sym: DocSymbol)
    requires
        lines.wf(),
        lines.len_chars == text@.len(),
        tag.name_start <= tag.name_end,
        tag.name_end <= spec_utf8_len(text@),
        tag.def_start <= spec_utf8_len(text@),
        tag.def_end <= spec_utf8_len(text@),
    ensures
        ({
            let t = text@;
            let ns = spec_byte_to_char(t, tag.name_start as int);
            let ne = spec_byte_to_char(t, tag.name_end as int);
            let start = spec_char_pos(*lines, spec_byte_to_char(t, tag.def_start as int) as int);
            let end = spec_char_pos(*lines, spec_byte_to_char(t, tag.def_end as int) as int);
            &&& sym.name@ == t.subrange(ns as int, ne as int)
            &&& sym.kind == tag.kind
            &&& sym.start_line == start.0 as u32
            &&& sym.start_character == start.1 as u32
            &&& sym.end_line == end.0 as u32
            &&& sym.end_character == end.1 as u32
        }),
{
    let chars = str_chars(text);
    let ns = byte_to_char(&chars, tag.name_start as usize);
    let ne = byte_to_char(&chars, tag.name_end as usize);
    let ds = byte_to_char(&chars, tag.def_start as usize);
    let de = byte_to_char(&chars, tag.def_end as usize);
    proof {
        lemma_byte_to_char_bounds(text@, tag.name_start as int, tag.name_end as int);
        lemma_byte_to_char_bounds(text@, tag.def_start as int, tag.def_start as int);
        lemma_byte_to_char_bounds(text@, tag.def_end as int, tag.def_end as int);
    }
    let mut name = String::new();
    let mut k: usize = ns;
    while k < ne
        invariant
            ns <= k <= ne <= chars@.len(),
            chars@ == text@,
            name@ == chars@.subrange(ns as int, k as int),
        decreases ne - k,
    {
        name.push(chars[k]);
        k += 1;
        assert(name@ =~= chars@.subrange(ns as int, k as int));
    }
    let (start_line, start_character) = char_pos(lines, ds);
    let (end_line, end_character) = char_pos(lines, de);
    DocSymbol {
        name,
        kind: tag.kind,
        start_line: start_line as u32,
        start_character: start_character as u32,
        end_line: end_line as u32,
        end_character: end_character as u32,
    }
}

/// The views showing document `doc`, in layout order.
pub open spec fn spec_views_showing(views: Seq<ViewState>, doc: DocumentId) -> Seq<ViewId>
    decreases views.len(),
{
    if views.len() == 0 {
        Seq::empty()
    } else {
        let prev = spec_views_showing(views.drop_last(), doc);
        if views.last().doc == doc {
            prev.push(views.last().id)
        } else {
            prev
        }
    }
}

/// The views whose trail (or content) follows document `doc`.
pub fn views_showing(views: &[ViewState], doc: DocumentId) -> (ids: Vec<ViewId>)
    ensures
        ids@ == spec_views_showing(views@, doc),
{
    let mut ids: Vec<ViewId> = Vec::new();
    let mut i: usize = 0;
    while i < views.len()
        invariant
            i <= views@.len(),
            ids@ == spec_views_showing(views@.subrange(0, i as int), doc),
        decreases views.len() - i,
    {
        assert(views@.subrange(0, i + 1).drop_last() =~= views@.subrange(0, i as int));
        if views[i].doc == doc {
            ids.push(views[i].id);
        }
        i += 1;
    }
    assert(views@.subrange(0, views@.len() as int) =~= views@);
    ids
}

} // verus!
