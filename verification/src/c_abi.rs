//! C symbols for the functions that a Rust index exposes under the C ABI.
//!
//! rust-analyzer records the signature of each function, and keeps the
//! `extern "C"` in it though it strips attributes like `#[no_mangle]`. That
//! is enough to tell every candidate from the index alone, including
//! functions that macros make. Each gets a symbol of the form
//! `cxx . . $ <name>().`, as scip-clang writes it for a function of the global
//! namespace, so that an index of a C caller resolves to it.
//!
//! A `pub extern "C" fn` without `#[no_mangle]` is no export, and
//! `#[export_name]` renames one; neither can be seen in an index. A symbol
//! too many is one that nothing references.

use crate::companion;
use crate::companion_laws;
use crate::companion::Emission;
use crate::index;
use crate::index::{Index, IndexError, SourceDocument, SymbolInformation};
use crate::lookup;
use crate::symbol;
use crate::symbol::{Descriptor, Suffix};
use crate::text;
use vstd::prelude::*;

verus! {

/// Summary of an augmentation.
#[derive(Debug, Clone, Copy)]
pub struct AugmentStats {
    pub documents: usize,
    pub exports: usize,
    pub external_symbols: usize,
}

/// `s` without a leading `word` that spaces follow.
pub open spec fn without_word(s: Seq<char>, word: Seq<char>) -> Seq<char> {
    match text::after_prefix(s, word) {
        Some(rest) => if text::has_prefix(rest, " "@) {
            text::trimmed_start(rest)
        } else {
            s
        },
        None => s,
    }
}

/// The length of what `without_word` leaves.
pub proof fn lemma_without_word_len(s: Seq<char>, word: Seq<char>)
    ensures
        without_word(s, word).len() <= s.len(),
        word.len() > 0 && without_word(s, word) != s ==> without_word(s, word).len() < s.len(),
{
    if let Some(rest) = text::after_prefix(s, word) {
        text::lemma_trimmed_start_len(rest);
    }
}

/// `s` without the words `unsafe`, `async` and `const` in front of it, in
/// whatever order they stand.
pub open spec fn without_modifiers(s: Seq<char>) -> Seq<char>
    decreases s.len(),
{
    proof {
        reveal_strlit("unsafe");
        reveal_strlit("async");
        reveal_strlit("const");
        lemma_without_word_len(s, "unsafe"@);
        lemma_without_word_len(s, "async"@);
        lemma_without_word_len(s, "const"@);
    }
    if without_word(s, "unsafe"@) != s {
        without_modifiers(without_word(s, "unsafe"@))
    } else if without_word(s, "async"@) != s {
        without_modifiers(without_word(s, "async"@))
    } else if without_word(s, "const"@) != s {
        without_modifiers(without_word(s, "const"@))
    } else {
        s
    }
}

/// Whether a signature is that of a public function with the C ABI. An
/// `extern fn` without an ABI has it. The modifiers `unsafe`, `async` and
/// `const` may stand between `pub` and `extern`.
pub open spec fn is_c_signature(signature: Seq<char>) -> bool {
    match text::after_prefix(signature, "pub "@) {
        Some(rest) => {
            let rest = without_modifiers(rest);
            ||| text::has_prefix(rest, "extern \"C\" fn "@)
            ||| text::has_prefix(rest, "extern \"C-unwind\" fn "@)
            ||| text::has_prefix(rest, "extern fn "@)
        },
        None => false,
    }
}

/// Whether a symbol is a function that C can call.
pub open spec fn is_export(s: index::SymbolView) -> bool {
    &&& s.kind == index::KIND_FUNCTION
    &&& s.signature matches Some(signature)
    &&& is_c_signature(signature)
}

/// `s` without a leading `word` that spaces follow.
pub fn strip_leading_word<'a>(s: &'a [char], word: &str) -> (r: &'a [char])
    ensures
        r@ == without_word(s@, word@),
{
    match text::strip_prefix(s, word) {
        Some(rest) => if text::starts_with(rest, " ") {
            text::trim_start(rest)
        } else {
            s
        },
        None => s,
    }
}

/// `s` without the modifiers in front of it.
fn strip_modifiers<'a>(s: &'a [char]) -> (r: &'a [char])
    ensures
        r@ == without_modifiers(s@),
{
    let mut rest: &'a [char] = s;
    proof {
        reveal_strlit("unsafe");
        reveal_strlit("async");
        reveal_strlit("const");
    }
    loop
        invariant
            "unsafe"@.len() > 0,
            "async"@.len() > 0,
            "const"@.len() > 0,
            without_modifiers(rest@) == without_modifiers(s@),
        decreases rest@.len(),
    {
        proof {
            lemma_without_word_len(rest@, "unsafe"@);
            lemma_without_word_len(rest@, "async"@);
            lemma_without_word_len(rest@, "const"@);
        }
        let next = strip_leading_word(rest, "unsafe");
        if next.len() < rest.len() {
            rest = next;
            continue;
        }
        let next = strip_leading_word(rest, "async");
        if next.len() < rest.len() {
            rest = next;
            continue;
        }
        let next = strip_leading_word(rest, "const");
        if next.len() < rest.len() {
            rest = next;
            continue;
        }
        return rest;
    }
}

/// Whether a symbol is a function that C can call.
pub fn is_c_abi_export(s: &SymbolInformation) -> (r: bool)
    ensures
        r == is_export(s@),
{
    if s.kind != index::KIND_FUNCTION {
        return false;
    }
    let signature = match &s.signature {
        Some(signature) => text::chars_of(signature.as_str()),
        None => {
            return false;
        },
    };
    match text::strip_prefix(&signature, "pub ") {
        Some(rest) => {
            let rest = strip_modifiers(rest);
            text::starts_with(rest, "extern \"C\" fn ") || text::starts_with(
                rest,
                "extern \"C-unwind\" fn ",
            ) || text::starts_with(rest, "extern fn ")
        },
        None => false,
    }
}

/// A function that C can call.
#[derive(Debug)]
pub struct Export {
    /// The Rust symbol of the function.
    pub rust_symbol: String,
    /// The name under which C sees it.
    pub export_name: String,
    /// The source file that it is in.
    pub relative_path: String,
    /// Where it is defined; unknown for some functions that macros make.
    pub definition_range: Option<Vec<i32>>,
}

/// What an [`Export`] holds.
#[verifier::ext_equal]
pub struct ExportView {
    pub rust_symbol: Seq<char>,
    pub export_name: Seq<char>,
    pub relative_path: Seq<char>,
    pub definition_range: Option<Seq<i32>>,
}

impl View for Export {
    type V = ExportView;

    open spec fn view(&self) -> ExportView {
        ExportView {
            rust_symbol: self.rust_symbol@,
            export_name: self.export_name@,
            relative_path: self.relative_path@,
            definition_range: companion::range_view(self.definition_range),
        }
    }
}

/// What each export of a list holds.
pub open spec fn export_views(v: Seq<Export>) -> Seq<ExportView> {
    v.map_values(|e: Export| e@)
}

/// The range of the last definition of `symbol` among occurrences.
pub open spec fn last_range(v: Seq<index::OccurrenceView>, symbol: Seq<char>) -> Option<Seq<i32>>
    decreases v.len(),
{
    if v.len() == 0 {
        None
    } else if index::is_definition(v.last().symbol_roles) && v.last().symbol == symbol {
        Some(v.last().range)
    } else {
        last_range(v.drop_last(), symbol)
    }
}

/// The range and the file of the last definition of `symbol` in documents.
pub open spec fn last_definition(v: Seq<index::DocumentView>, symbol: Seq<char>) -> Option<
    (Seq<i32>, Seq<char>),
>
    decreases v.len(),
{
    if v.len() == 0 {
        None
    } else {
        match last_range(v.last().occurrences, symbol) {
            Some(range) => Some((range, v.last().relative_path)),
            None => last_definition(v.drop_last(), symbol),
        }
    }
}

/// The name under which C sees a symbol: its display name, or the last name
/// among its descriptors.
pub open spec fn exported_name(s: index::SymbolView) -> Option<Seq<char>> {
    if s.display_name.len() > 0 {
        Some(s.display_name)
    } else {
        symbol::terminal_name(s.symbol, false)
    }
}

/// The export that a symbol stands for. It is in the file that defines the
/// symbol, or else in the one that describes it, `path`.
pub open spec fn export_of(
    docs: Seq<index::DocumentView>,
    path: Seq<char>,
    s: index::SymbolView,
) -> Option<ExportView> {
    if !is_export(s) || symbol::is_local(s.symbol) {
        None
    } else {
        match exported_name(s) {
            Some(export_name) => {
                let (relative_path, definition_range) = match last_definition(docs, s.symbol) {
                    Some((range, file)) => (file, Some(range)),
                    None => (path, None),
                };
                Some(
                    ExportView {
                        rust_symbol: s.symbol,
                        export_name,
                        relative_path,
                        definition_range,
                    },
                )
            },
            None => None,
        }
    }
}

/// `v` with one more export in the order of symbols, unless its symbol is
/// there.
pub open spec fn inserted(v: Seq<ExportView>, e: ExportView) -> Seq<ExportView>
    decreases v.len(),
{
    if v.len() == 0 {
        seq![e]
    } else if v[0].rust_symbol == e.rust_symbol {
        v
    } else if text::precedes(e.rust_symbol, v[0].rust_symbol) {
        seq![e] + v
    } else {
        seq![v[0]] + inserted(v.skip(1), e)
    }
}

/// `before` with the exports among a document's symbols.
pub open spec fn with_symbols(
    docs: Seq<index::DocumentView>,
    before: Seq<ExportView>,
    path: Seq<char>,
    symbols: Seq<index::SymbolView>,
) -> Seq<ExportView>
    decreases symbols.len(),
{
    if symbols.len() == 0 {
        before
    } else {
        let had = with_symbols(docs, before, path, symbols.drop_last());
        match export_of(docs, path, symbols.last()) {
            Some(e) => inserted(had, e),
            None => had,
        }
    }
}

/// The exports among the symbols of the documents `v`, which are among
/// `docs`. The same symbol may be described several times; the first time
/// counts.
pub open spec fn exports_in(docs: Seq<index::DocumentView>, v: Seq<index::DocumentView>) -> Seq<
    ExportView,
>
    decreases v.len(),
{
    if v.len() == 0 {
        Seq::empty()
    } else {
        with_symbols(docs, exports_in(docs, v.drop_last()), v.last().relative_path, v.last().symbols)
    }
}

/// Whether exports are in the order of their symbols, each symbol once.
pub open spec fn is_sorted(v: Seq<ExportView>) -> bool {
    forall|i: int, j: int|
        0 <= i < j < v.len() ==> text::precedes(
            (#[trigger] v[i]).rust_symbol,
            (#[trigger] v[j]).rust_symbol,
        )
}

/// Inserting keeps the order. What was there stays, and nothing but the new
/// export is added.
proof fn lemma_inserted(v: Seq<ExportView>, e: ExportView)
    requires
        is_sorted(v),
    ensures
        is_sorted(inserted(v, e)),
        forall|x: ExportView| #[trigger]
            inserted(v, e).contains(x) ==> v.contains(x) || x == e,
        forall|x: ExportView| v.contains(x) ==> #[trigger] inserted(v, e).contains(x),
        exists|i: int|
            0 <= i < inserted(v, e).len() && (#[trigger] inserted(v, e)[i]).rust_symbol
                == e.rust_symbol,
    decreases v.len(),
{
    let r = inserted(v, e);
    if v.len() == 0 {
        assert(r[0] == e);
    } else if v[0].rust_symbol == e.rust_symbol {
        assert(r[0].rust_symbol == e.rust_symbol);
    } else if text::precedes(e.rust_symbol, v[0].rust_symbol) {
        assert(r[0] == e);
        assert forall|i: int, j: int| 0 <= i < j < r.len() implies text::precedes(
            (#[trigger] r[i]).rust_symbol,
            (#[trigger] r[j]).rust_symbol,
        ) by {
            assert(r[j] == v[j - 1]);
            if i == 0 {
                if j > 1 {
                    text::lemma_precedes_transitive(
                        e.rust_symbol,
                        v[0].rust_symbol,
                        v[j - 1].rust_symbol,
                    );
                }
            } else {
                assert(r[i] == v[i - 1]);
            }
        }
        assert forall|x: ExportView| v.contains(x) implies #[trigger] r.contains(x) by {
            assert(r[v.index_of(x) + 1] == x);
        }
        assert forall|x: ExportView| #[trigger] r.contains(x) implies v.contains(x) || x == e by {
            let i = r.index_of(x);
            if i > 0 {
                assert(v[i - 1] == x);
            }
        }
    } else {
        let tail = v.skip(1);
        let rest = inserted(tail, e);
        assert forall|i: int, j: int| 0 <= i < j < tail.len() implies text::precedes(
            (#[trigger] tail[i]).rust_symbol,
            (#[trigger] tail[j]).rust_symbol,
        ) by {
            assert(tail[i] == v[i + 1] && tail[j] == v[j + 1]);
        }
        lemma_inserted(tail, e);
        text::lemma_precedes_total(v[0].rust_symbol, e.rust_symbol);
        assert forall|i: int, j: int| 0 <= i < j < r.len() implies text::precedes(
            (#[trigger] r[i]).rust_symbol,
            (#[trigger] r[j]).rust_symbol,
        ) by {
            assert(r[j] == rest[j - 1]);
            if i == 0 {
                assert(rest.contains(rest[j - 1]));
                if rest[j - 1] != e {
                    let k = tail.index_of(rest[j - 1]);
                    assert(tail[k] == v[k + 1]);
                }
            } else {
                assert(r[i] == rest[i - 1]);
            }
        }
        assert forall|x: ExportView| v.contains(x) implies #[trigger] r.contains(x) by {
            let k = v.index_of(x);
            if k == 0 {
                assert(r[0] == x);
            } else {
                assert(tail[k - 1] == x);
                assert(rest.contains(x));
                assert(r[rest.index_of(x) + 1] == x);
            }
        }
        assert forall|x: ExportView| #[trigger] r.contains(x) implies v.contains(x) || x == e by {
            let i = r.index_of(x);
            if i == 0 {
                assert(v[0] == x);
            } else {
                assert(rest[i - 1] == x);
                assert(rest.contains(x));
                if x != e {
                    assert(v[tail.index_of(x) + 1] == x);
                }
            }
        }
        let k = choose|k: int|
            0 <= k < rest.len() && (#[trigger] rest[k]).rust_symbol == e.rust_symbol;
        assert(r[k + 1].rust_symbol == e.rust_symbol);
    }
}

proof fn lemma_with_symbols_sorted(
    docs: Seq<index::DocumentView>,
    before: Seq<ExportView>,
    path: Seq<char>,
    symbols: Seq<index::SymbolView>,
)
    requires
        is_sorted(before),
    ensures
        is_sorted(with_symbols(docs, before, path, symbols)),
        forall|x: ExportView|
            before.contains(x) ==> #[trigger] with_symbols(docs, before, path, symbols).contains(x),
        forall|i: int|
            0 <= i < symbols.len() && export_of(docs, path, #[trigger] symbols[i]) is Some
                ==> exports_symbol(
                with_symbols(docs, before, path, symbols),
                symbols[i].symbol,
            ),
    decreases symbols.len(),
{
    if symbols.len() > 0 {
        let front = symbols.drop_last();
        let had = with_symbols(docs, before, path, front);
        let all = with_symbols(docs, before, path, symbols);
        lemma_with_symbols_sorted(docs, before, path, front);
        if let Some(e) = export_of(docs, path, symbols.last()) {
            lemma_inserted(had, e);
        }
        assert forall|x: ExportView| before.contains(x) implies #[trigger] all.contains(x) by {
            assert(had.contains(x));
        }
        assert forall|i: int|
            0 <= i < symbols.len() && export_of(
                docs,
                path,
                #[trigger] symbols[i],
            ) is Some implies exports_symbol(all, symbols[i].symbol) by {
            if i < front.len() {
                assert(front[i] == symbols[i]);
                let k = choose|k: int|
                    0 <= k < had.len() && (#[trigger] had[k]).rust_symbol == symbols[i].symbol;
                let x = had[k];
                assert(had.contains(x));
                assert(all.contains(x));
                assert(all[all.index_of(x)].rust_symbol == symbols[i].symbol);
            }
        }
    }
}

/// Whether one of the exports is of `symbol`.
pub open spec fn exports_symbol(v: Seq<ExportView>, symbol: Seq<char>) -> bool {
    exists|k: int| 0 <= k < v.len() && (#[trigger] v[k]).rust_symbol == symbol
}

proof fn lemma_exports_keep(v: Seq<ExportView>, w: Seq<ExportView>, symbol: Seq<char>)
    requires
        exports_symbol(v, symbol),
        forall|x: ExportView| v.contains(x) ==> #[trigger] w.contains(x),
    ensures
        exports_symbol(w, symbol),
{
    let k = choose|k: int| 0 <= k < v.len() && (#[trigger] v[k]).rust_symbol == symbol;
    assert(v.contains(v[k]));
    assert(w.contains(v[k]));
    assert(w[w.index_of(v[k])].rust_symbol == symbol);
}

/// The exports of an index are in the order of their symbols and no symbol is
/// exported twice. Every symbol that stands for an export is exported.
pub proof fn law_exports_sorted(docs: Seq<index::DocumentView>, v: Seq<index::DocumentView>)
    ensures
        is_sorted(exports_in(docs, v)),
        forall|d: int, i: int|
            0 <= d < v.len() && 0 <= i < v[d].symbols.len() && export_of(
                docs,
                v[d].relative_path,
                #[trigger] v[d].symbols[i],
            ) is Some ==> exports_symbol(exports_in(docs, v), v[d].symbols[i].symbol),
    decreases v.len(),
{
    if v.len() > 0 {
        let front = v.drop_last();
        let before = exports_in(docs, front);
        law_exports_sorted(docs, front);
        lemma_with_symbols_sorted(docs, before, v.last().relative_path, v.last().symbols);
        assert forall|d: int, i: int|
            0 <= d < v.len() && 0 <= i < v[d].symbols.len() && export_of(
                docs,
                v[d].relative_path,
                #[trigger] v[d].symbols[i],
            ) is Some implies exports_symbol(exports_in(docs, v), v[d].symbols[i].symbol) by {
            if d < front.len() {
                assert(front[d] == v[d]);
                assert(exports_symbol(before, front[d].symbols[i].symbol));
                lemma_exports_keep(before, exports_in(docs, v), v[d].symbols[i].symbol);
            }
        }
    }
}

/// The range of the last definition of `symbol` in a document.
fn find_range<'a>(d: &'a SourceDocument, symbol: &str) -> (r: Option<&'a Vec<i32>>)
    ensures
        r matches Some(range) ==> last_range(d@.occurrences, symbol@) == Some(range@),
        r is None ==> last_range(d@.occurrences, symbol@) is None,
{
    let ghost all = d@.occurrences;
    let mut n: usize = d.occurrences.len();
    assert(all.take(n as int) =~= all);
    while n > 0
        invariant
            0 <= n <= d.occurrences@.len(),
            all == index::occurrence_views(d.occurrences@),
            last_range(all, symbol@) == last_range(all.take(n as int), symbol@),
        decreases n,
    {
        let o = &d.occurrences[n - 1];
        assert(all[n - 1] == o@);
        assert(all.take(n as int).drop_last() =~= all.take(n - 1));
        if index::defines(o.symbol_roles) && text::str_eq(o.symbol.as_str(), symbol) {
            return Some(&o.range);
        }
        n -= 1;
    }
    None
}

/// The range and the file of the last definition of `symbol` in an index.
fn find_definition<'a>(input: &'a Index, symbol: &str) -> (r: Option<(&'a Vec<i32>, &'a String)>)
    ensures
        r matches Some((range, file)) ==> last_definition(input@.documents, symbol@) == Some(
            (range@, file@),
        ),
        r is None ==> last_definition(input@.documents, symbol@) is None,
{
    let ghost all = input@.documents;
    let mut n: usize = input.documents.len();
    assert(all.take(n as int) =~= all);
    while n > 0
        invariant
            0 <= n <= input.documents@.len(),
            all == index::document_views(input.documents@),
            last_definition(all, symbol@) == last_definition(all.take(n as int), symbol@),
        decreases n,
    {
        let d = &input.documents[n - 1];
        assert(all[n - 1] == d@);
        assert(all.take(n as int).drop_last() =~= all.take(n - 1));
        if let Some(range) = find_range(d, symbol) {
            return Some((range, &d.relative_path));
        }
        n -= 1;
    }
    None
}

/// The export that a symbol stands for.
fn make_export(input: &Index, path: &str, s: &SymbolInformation) -> (r: Option<Export>)
    ensures
        r matches Some(e) ==> export_of(input@.documents, path@, s@) == Some(e@),
        r is None ==> export_of(input@.documents, path@, s@) is None,
{
    if !is_c_abi_export(s) || symbol::local_symbol(s.symbol.as_str()) {
        return None;
    }
    let export_name = if !text::is_empty_text(s.display_name.as_str()) {
        s.display_name.clone()
    } else {
        match symbol::terminal_descriptor_name(s.symbol.as_str(), false) {
            Some(name) => name,
            None => {
                return None;
            },
        }
    };
    let (relative_path, definition_range) = match find_definition(input, s.symbol.as_str()) {
        Some((at, file)) => {
            let mut range: Vec<i32> = Vec::new();
            range.extend_from_slice(at.as_slice());
            assert(range@ =~= at@);
            (file.clone(), Some(range))
        },
        None => (path.to_string(), None),
    };
    let e = Export {
        rust_symbol: s.symbol.clone(),
        export_name,
        relative_path,
        definition_range,
    };
    assert(e@ =~= export_of(input@.documents, path@, s@).unwrap());
    Some(e)
}

/// Adds an export in the order of symbols, unless its symbol is there.
fn insert_export(exports: &mut Vec<Export>, e: Export)
    ensures
        export_views(final(exports)@) == inserted(export_views(old(exports)@), e@),
{
    let ghost all = export_views(exports@);
    let ghost ev = e@;
    let mut i: usize = 0;
    assert(all.skip(0) =~= all);
    assert(all.take(0) + inserted(all.skip(0), ev) =~= inserted(all, ev));
    while i < exports.len()
        invariant_except_break
            all.take(i as int) + inserted(all.skip(i as int), ev) =~= inserted(all, ev),
        invariant
            0 <= i <= exports@.len(),
            all == export_views(exports@),
            all == export_views(old(exports)@),
            ev == e@,
        ensures
            all.insert(i as int, ev) =~= inserted(all, ev),
        decreases exports.len() - i,
    {
        assert(all[i as int] == exports@[i as int]@);
        assert(all.skip(i as int).skip(1) =~= all.skip(i + 1));
        if text::str_eq(exports[i].rust_symbol.as_str(), e.rust_symbol.as_str()) {
            assert(all.take(i as int) + all.skip(i as int) =~= all);
            return;
        }
        if text::comes_before(e.rust_symbol.as_str(), exports[i].rust_symbol.as_str()) {
            assert(all.insert(i as int, ev) =~= all.take(i as int) + (seq![ev] + all.skip(
                i as int,
            )));
            break;
        }
        assert(all.take(i + 1) =~= all.take(i as int).push(all[i as int]));
        i += 1;
        proof {
            if i == exports@.len() {
                assert(inserted(all.skip(i as int), ev) =~= seq![ev]);
                assert(all.insert(i as int, ev) =~= all.take(i as int) + seq![ev]);
            }
        }
    }
    exports.insert(i, e);
    assert(export_views(exports@) =~= all.insert(i as int, ev));
}

/// The functions of an index that C can call.
pub fn collect_exports(input: &Index) -> (r: Vec<Export>)
    ensures
        export_views(r@) == exports_in(input@.documents, input@.documents),
{
    let ghost docs = input@.documents;
    let mut exports: Vec<Export> = Vec::new();
    let mut i: usize = 0;
    assert(export_views(exports@) =~= exports_in(docs, docs.take(0)));
    while i < input.documents.len()
        invariant
            0 <= i <= input.documents@.len(),
            docs == input@.documents,
            export_views(exports@) == exports_in(docs, docs.take(i as int)),
        decreases input.documents.len() - i,
    {
        let d = &input.documents[i];
        let ghost before = export_views(exports@);
        let ghost symbols = d@.symbols;
        let ghost path = d.relative_path@;
        assert(docs[i as int] == d@);
        assert(docs.take(i + 1).drop_last() =~= docs.take(i as int));
        let mut k: usize = 0;
        while k < d.symbols.len()
            invariant
                0 <= k <= d.symbols@.len(),
                docs == input@.documents,
                symbols == index::symbol_views(d.symbols@),
                path == d.relative_path@,
                export_views(exports@) == with_symbols(
                    docs,
                    before,
                    path,
                    symbols.take(k as int),
                ),
            decreases d.symbols.len() - k,
        {
            assert(symbols[k as int] == d.symbols@[k as int]@);
            assert(symbols.take(k + 1).drop_last() =~= symbols.take(k as int));
            if let Some(e) = make_export(input, d.relative_path.as_str(), &d.symbols[k]) {
                insert_export(&mut exports, e);
            }
            k += 1;
        }
        assert(symbols.take(k as int) =~= symbols);
        i += 1;
    }
    assert(docs.take(i as int) =~= docs);
    exports
}

/// The symbol of a C function of the global namespace, as scip-clang writes
/// it: `.` stands for the package manager and the package, `$` for the
/// version.
pub open spec fn function_symbol(name: Seq<char>) -> Seq<char> {
    symbol::formatted(
        symbol::PackageView { scheme: "cxx"@, manager: "."@, name: "."@, version: "$"@ },
        seq![symbol::DescriptorView { name, suffix: Suffix::Method }],
    )
}

/// The symbol of a C function of the global namespace.
pub fn c_function_symbol(name: &str) -> (r: String)
    ensures
        r@ == function_symbol(name@),
{
    let mut ds: Vec<Descriptor> = Vec::new();
    symbol::push_name(&mut ds, name, Suffix::Method);
    assert(symbol::descriptor_views(ds@) =~= seq![
        symbol::DescriptorView { name: name@, suffix: Suffix::Method },
    ]);
    symbol::format_symbol("cxx", ".", ".", "$", ds)
}

/// The symbol that is emitted for an export.
pub open spec fn export_emission(e: ExportView) -> companion::EmissionView {
    companion::EmissionView {
        path: e.relative_path,
        symbol: function_symbol(e.export_name),
        display_name: e.export_name,
        kind: index::KIND_FUNCTION,
        target: Some(e.rust_symbol),
        range: e.definition_range,
    }
}

/// The companion of `input` for some exports.
pub open spec fn c_companion(input: index::IndexView, exports: Seq<ExportView>) -> index::IndexView {
    index::IndexView {
        metadata: companion::inherited(input.metadata, "scip-c-abi-augment"@),
        documents: companion::documents_of(
            "C"@,
            exports.map_values(|e: ExportView| export_emission(e)),
        ),
    }
}

/// The companion of `input` for some exports.
pub fn build_output(input: &Index, exports: &Vec<Export>) -> (r: Index)
    ensures
        r@ == c_companion(input@, export_views(exports@)),
        companion::are_unsigned(r@.documents),
{
    let ghost all = export_views(exports@);
    let ghost make = |e: ExportView| export_emission(e);
    let mut es: Vec<Emission> = Vec::new();
    let mut i: usize = 0;
    while i < exports.len()
        invariant
            0 <= i <= exports@.len(),
            all == export_views(exports@),
            make == (|e: ExportView| export_emission(e)),
            companion::emission_views(es@) =~= all.take(i as int).map_values(make),
        decreases exports.len() - i,
    {
        let e = &exports[i];
        let ghost had = companion::emission_views(es@);
        assert(all[i as int] == e@);
        let range = match &e.definition_range {
            Some(at) => {
                let mut range: Vec<i32> = Vec::new();
                range.extend_from_slice(at.as_slice());
                assert(range@ =~= at@);
                Some(range)
            },
            None => None,
        };
        let emission = Emission {
            path: e.relative_path.clone(),
            symbol: c_function_symbol(e.export_name.as_str()),
            display_name: e.export_name.clone(),
            kind: index::KIND_FUNCTION,
            target: Some(e.rust_symbol.clone()),
            range,
        };
        let ghost ev = emission@;
        assert(ev =~= make(all[i as int]));
        es.push(emission);
        assert(companion::emission_views(es@) =~= had.push(ev));
        i += 1;
    }
    assert(all.take(i as int) =~= all);
    Index {
        metadata: companion::inherit_metadata(&input.metadata, "scip-c-abi-augment"),
        documents: companion::build_documents("C", &es),
    }
}

/// Whether the result of an augmentation is the right one; see
/// [`augment_index`].
pub open spec fn is_augmented(r: (AugmentStats, Vec<u8>), input: index::IndexView) -> bool {
    let exports = exports_in(input.documents, input.documents);
    let out = c_companion(input, exports);
    &&& r.0.documents == out.documents.len()
    &&& r.0.exports == exports.len()
    &&& r.0.external_symbols == 0
    &&& companion::bytes_hold(r.1@, out)
}

/// Produces the C companion of a Rust index, with its counts.
pub fn augment_index(input: &Index) -> (r: (AugmentStats, Vec<u8>))
    ensures
        is_augmented(r, input@),
{
    let exports = collect_exports(input);
    let out = build_output(input, &exports);
    let stats = AugmentStats {
        documents: out.documents.len(),
        exports: exports.len(),
        external_symbols: 0,
    };
    (stats, companion::encode_unsigned(out))
}

/// Produces the C companion of the index that protobuf bytes hold, with its
/// counts.
pub fn augment_file(input: &[u8]) -> (r: Result<(AugmentStats, Vec<u8>), IndexError>)
    ensures
        index::index_message(input@) is None ==> r == Err::<(AugmentStats, Vec<u8>), IndexError>(
            IndexError::Parse,
        ),
        index::index_message(input@) matches Some(m) ==> {
            &&& r matches Ok(done)
            &&& is_augmented(done, index::read_part(m))
        },
{
    match index::decode(input) {
        Ok(index) => Ok(augment_index(&index)),
        Err(e) => Err(e),
    }
}

/// A name that needs no quotes is read back from the symbol that it was made
/// into: looking up a C identifier finds the emitted function.
pub proof fn law_function_symbol_name(name: Seq<char>)
    requires
        name.len() > 0,
        forall|i: int| 0 <= i < name.len() ==> symbol::is_simple(#[trigger] name[i]),
    ensures
        symbol::c_name_of(function_symbol(name)) == Some(name),
{
    let descriptors = name + "()."@;
    let text = function_symbol(name);
    reveal_strlit("cxx");
    reveal_strlit(".");
    reveal_strlit("$");
    reveal_strlit(" ");
    reveal_strlit("().");
    reveal_strlit("cxx . . $ ");
    let d = seq![symbol::DescriptorView { name, suffix: Suffix::Method }];
    let rendered = d.map_values(|d: symbol::DescriptorView| symbol::rendered(d));
    assert(rendered =~= seq![descriptors]);
    assert(rendered.drop_last() =~= Seq::empty());
    assert(text::concatenated(rendered.drop_last()) =~= Seq::empty());
    assert(text::concatenated(rendered) =~= descriptors);
    assert(text =~= "cxx . . $ "@ + descriptors);
    symbol::lemma_clang_descriptors(descriptors);
    lemma_leading_name(name, "()."@);
    let trailer = descriptors.skip(name.len() as int);
    assert(trailer =~= "()."@);
    assert(trailer.skip(1)[0] == ')');
    assert(symbol::after_char(trailer.skip(1), ')') =~= "."@);
}

/// A simple name is all that stands before a character that is not simple.
proof fn lemma_leading_name(name: Seq<char>, tail: Seq<char>)
    requires
        forall|i: int| 0 <= i < name.len() ==> symbol::is_simple(#[trigger] name[i]),
        tail.len() > 0,
        !symbol::is_simple(tail[0]),
    ensures
        symbol::leading_name(name + tail) == name,
    decreases name.len(),
{
    let all = name + tail;
    if name.len() > 0 {
        assert(all[0] == name[0]);
        assert(symbol::is_simple(name[0]));
        assert(all.skip(1) =~= name.skip(1) + tail);
        assert forall|i: int| 0 <= i < name.skip(1).len() implies symbol::is_simple(
            #[trigger] name.skip(1)[i],
        ) by {
            assert(name.skip(1)[i] == name[i + 1]);
        }
        lemma_leading_name(name.skip(1), tail);
        assert(seq![name[0]] + name.skip(1) =~= name);
    } else {
        assert(all =~= tail);
    }
}

/// Whether an export is what one of the symbols of the documents `v`, which
/// are among `docs`, stands for.
pub open spec fn has_source(
    docs: Seq<index::DocumentView>,
    v: Seq<index::DocumentView>,
    x: ExportView,
) -> bool {
    exists|d: int, i: int|
        0 <= d < v.len() && 0 <= i < v[d].symbols.len() && export_of(
            docs,
            v[d].relative_path,
            #[trigger] v[d].symbols[i],
        ) == Some(x)
}

/// What a document's symbols add is what they stand for.
proof fn lemma_with_symbols_source(
    docs: Seq<index::DocumentView>,
    before: Seq<ExportView>,
    path: Seq<char>,
    symbols: Seq<index::SymbolView>,
    x: ExportView,
)
    requires
        is_sorted(before),
        with_symbols(docs, before, path, symbols).contains(x),
    ensures
        before.contains(x) || exists|i: int|
            0 <= i < symbols.len() && export_of(docs, path, #[trigger] symbols[i]) == Some(x),
    decreases symbols.len(),
{
    if symbols.len() > 0 {
        let front = symbols.drop_last();
        let had = with_symbols(docs, before, path, front);
        lemma_with_symbols_sorted(docs, before, path, front);
        if let Some(e) = export_of(docs, path, symbols.last()) {
            lemma_inserted(had, e);
        }
        if had.contains(x) {
            lemma_with_symbols_source(docs, before, path, front, x);
            if !before.contains(x) {
                let i = choose|i: int|
                    0 <= i < front.len() && export_of(docs, path, #[trigger] front[i]) == Some(x);
                assert(symbols[i] == front[i]);
            }
        } else {
            assert(export_of(docs, path, symbols[symbols.len() - 1]) == Some(x));
        }
    }
}

/// Every export is what some symbol of the index stands for.
pub proof fn law_exports_sources(
    docs: Seq<index::DocumentView>,
    v: Seq<index::DocumentView>,
    x: ExportView,
)
    requires
        exports_in(docs, v).contains(x),
    ensures
        has_source(docs, v, x),
    decreases v.len(),
{
    if v.len() > 0 {
        let front = v.drop_last();
        let before = exports_in(docs, front);
        law_exports_sorted(docs, front);
        lemma_with_symbols_source(docs, before, v.last().relative_path, v.last().symbols, x);
        if before.contains(x) {
            law_exports_sources(docs, front, x);
            let (d, i) = choose|d: int, i: int|
                0 <= d < front.len() && 0 <= i < front[d].symbols.len() && export_of(
                    docs,
                    front[d].relative_path,
                    #[trigger] front[d].symbols[i],
                ) == Some(x);
            assert(v[d].symbols[i] == front[d].symbols[i]);
        } else {
            let d = v.len() - 1;
            let i = choose|i: int|
                0 <= i < v.last().symbols.len() && export_of(
                    docs,
                    v.last().relative_path,
                    #[trigger] v.last().symbols[i],
                ) == Some(x);
            assert(export_of(docs, v[d].relative_path, v[d].symbols[i]) == Some(x));
        }
    }
}

/// The companion links to nothing but symbols of the input index.
pub proof fn law_links_native(input: index::IndexView)
    ensures
        companion::all_link_into(
            c_companion(input, exports_in(input.documents, input.documents)).documents,
            lookup::global_symbols(input.documents),
        ),
{
    let docs = input.documents;
    let exports = exports_in(docs, docs);
    let natives = lookup::global_symbols(docs);
    let es = exports.map_values(|e: ExportView| export_emission(e));
    assert forall|k: int| 0 <= k < es.len() implies ((#[trigger] es[k]).target matches Some(t)
        ==> natives.contains(t)) by {
        let x = exports[k];
        assert(exports.contains(x));
        law_exports_sources(docs, docs, x);
        let (d, i) = choose|d: int, i: int|
            0 <= d < docs.len() && 0 <= i < docs[d].symbols.len() && export_of(
                docs,
                docs[d].relative_path,
                #[trigger] docs[d].symbols[i],
            ) == Some(x);
        lookup::lemma_described(docs, d, i);
    }
    companion::law_links("C"@, es, natives);
}

/// Whether an occurrence defines a symbol: the lowest bit of its roles says so.
pub open spec fn is_defined_at(o: index::OccurrenceView, symbol: Seq<char>) -> bool {
    o.symbol_roles & 1 != 0 && o.symbol == symbol
}

/// The range of a symbol is that of its last definition in a document.
proof fn lemma_last_range(v: Seq<index::OccurrenceView>, symbol: Seq<char>)
    ensures
        match last_range(v, symbol) {
            Some(range) => exists|k: int|
                0 <= k < v.len() && is_defined_at(#[trigger] v[k], symbol) && v[k].range == range
                    && forall|j: int| k < j < v.len() ==> !is_defined_at(#[trigger] v[j], symbol),
            None => forall|j: int| 0 <= j < v.len() ==> !is_defined_at(#[trigger] v[j], symbol),
        },
    decreases v.len(),
{
    if v.len() > 0 {
        let front = v.drop_last();
        lemma_last_range(front, symbol);
        assert(v[v.len() - 1] == v.last());
        if !is_defined_at(v.last(), symbol) {
            match last_range(front, symbol) {
                Some(range) => {
                    let k = choose|k: int|
                        0 <= k < front.len() && is_defined_at(#[trigger] front[k], symbol)
                            && front[k].range == range && forall|j: int|
                            k < j < front.len() ==> !is_defined_at(#[trigger] front[j], symbol);
                    assert(v[k] == front[k]);
                    assert forall|j: int| k < j < v.len() implies !is_defined_at(
                        #[trigger] v[j],
                        symbol,
                    ) by {
                        if j < front.len() {
                            assert(v[j] == front[j]);
                        }
                    }
                },
                None => {
                    assert forall|j: int| 0 <= j < v.len() implies !is_defined_at(
                        #[trigger] v[j],
                        symbol,
                    ) by {
                        if j < front.len() {
                            assert(v[j] == front[j]);
                        }
                    }
                },
            }
        }
    }
}

/// Whether no occurrence of a document defines a symbol.
pub open spec fn is_undefined_in(d: index::DocumentView, symbol: Seq<char>) -> bool {
    forall|j: int|
        0 <= j < d.occurrences.len() ==> !is_defined_at(#[trigger] d.occurrences[j], symbol)
}

/// Whether the occurrence `k` of the document `d` is the last that defines a
/// symbol.
pub open spec fn is_last_definition(
    docs: Seq<index::DocumentView>,
    symbol: Seq<char>,
    d: int,
    k: int,
) -> bool {
    &&& 0 <= d < docs.len()
    &&& 0 <= k < docs[d].occurrences.len()
    &&& is_defined_at(docs[d].occurrences[k], symbol)
    &&& forall|j: int|
        k < j < docs[d].occurrences.len() ==> !is_defined_at(
            #[trigger] docs[d].occurrences[j],
            symbol,
        )
    &&& forall|e: int| d < e < docs.len() ==> is_undefined_in(#[trigger] docs[e], symbol)
}

/// The place of a symbol is that of its last definition.
proof fn lemma_last_definition(docs: Seq<index::DocumentView>, symbol: Seq<char>)
    ensures
        match last_definition(docs, symbol) {
            Some((range, path)) => exists|d: int, k: int|
                is_last_definition(docs, symbol, d, k) && (
                #[trigger] docs[d].occurrences[k]).range == range && docs[d].relative_path == path,
            None => forall|d: int|
                0 <= d < docs.len() ==> is_undefined_in(#[trigger] docs[d], symbol),
        },
    decreases docs.len(),
{
    if docs.len() > 0 {
        let front = docs.drop_last();
        let last = docs.last();
        let n = docs.len() - 1;
        lemma_last_definition(front, symbol);
        lemma_last_range(last.occurrences, symbol);
        match last_range(last.occurrences, symbol) {
            Some(range) => {
                let v = last.occurrences;
                let k = choose|k: int|
                    0 <= k < v.len() && is_defined_at(#[trigger] v[k], symbol) && v[k].range == range
                        && forall|j: int| k < j < v.len() ==> !is_defined_at(#[trigger] v[j], symbol);
                assert(docs[n].occurrences[k] == v[k]);
                assert(is_last_definition(docs, symbol, n, k));
            },
            None => {
                assert(is_undefined_in(docs[n], symbol));
                match last_definition(front, symbol) {
                    Some((range, path)) => {
                        let (d, k) = choose|d: int, k: int|
                            is_last_definition(front, symbol, d, k) && (
                            #[trigger] front[d].occurrences[k]).range == range
                                && front[d].relative_path == path;
                        assert(docs[d] == front[d]);
                        assert forall|e: int| d < e < docs.len() implies is_undefined_in(
                            #[trigger] docs[e],
                            symbol,
                        ) by {
                            if e < n {
                                assert(front[e] == docs[e]);
                            }
                        }
                        assert(docs[d].occurrences[k].range == range);
                        assert(is_last_definition(docs, symbol, d, k));
                    },
                    None => {
                        assert forall|e: int| 0 <= e < docs.len() implies is_undefined_in(
                            #[trigger] docs[e],
                            symbol,
                        ) by {
                            if e < n {
                                assert(front[e] == docs[e]);
                            }
                        }
                    },
                }
            },
        }
    }
}

/// An export with a range is placed at its last definition: the range, and the
/// file, of an occurrence of its Rust symbol that has the definition role. One
/// without a range is defined nowhere, and is in the file that describes it.
pub proof fn law_exports_stand_at_definitions(
    docs: Seq<index::DocumentView>,
    path: Seq<char>,
    s: index::SymbolView,
    e: ExportView,
)
    requires
        export_of(docs, path, s) == Some(e),
    ensures
        e.rust_symbol == s.symbol,
        match e.definition_range {
            Some(range) => exists|d: int, k: int|
                is_last_definition(docs, e.rust_symbol, d, k) && (
                #[trigger] docs[d].occurrences[k]).range == range && docs[d].relative_path
                    == e.relative_path,
            None => {
                &&& e.relative_path == path
                &&& forall|d: int|
                    0 <= d < docs.len() ==> is_undefined_in(#[trigger] docs[d], e.rust_symbol)
            },
        },
{
    lemma_last_definition(docs, s.symbol);
}

/// A document without the occurrences that define nothing.
pub open spec fn only_definitions(d: index::DocumentView) -> index::DocumentView {
    index::DocumentView {
        occurrences: d.occurrences.filter(|o: index::OccurrenceView| o.symbol_roles & 1 != 0),
        ..d
    }
}

/// The definitions among occurrences give the same range.
proof fn lemma_range_of_definitions(v: Seq<index::OccurrenceView>, symbol: Seq<char>)
    ensures
        last_range(v.filter(|o: index::OccurrenceView| o.symbol_roles & 1 != 0), symbol)
            == last_range(v, symbol),
    decreases v.len(),
{
    reveal(Seq::filter);
    if v.len() > 0 {
        let front = v.drop_last();
        let pred = |o: index::OccurrenceView| o.symbol_roles & 1 != 0;
        lemma_range_of_definitions(front, symbol);
        if pred(v.last()) {
            assert(v.filter(pred).drop_last() =~= front.filter(pred));
            assert(v.filter(pred).last() == v.last());
        }
    }
}

/// The definitions of documents give the same place.
proof fn lemma_place_of_definitions(docs: Seq<index::DocumentView>, symbol: Seq<char>)
    ensures
        last_definition(docs.map_values(|d: index::DocumentView| only_definitions(d)), symbol)
            == last_definition(docs, symbol),
    decreases docs.len(),
{
    let all = docs.map_values(|d: index::DocumentView| only_definitions(d));
    if docs.len() > 0 {
        let front = docs.drop_last();
        lemma_place_of_definitions(front, symbol);
        lemma_range_of_definitions(docs.last().occurrences, symbol);
        assert(all.drop_last() =~= front.map_values(
            |d: index::DocumentView| only_definitions(d),
        ));
    }
}

/// The same symbols stand for the same exports.
proof fn lemma_symbols_of_definitions(
    docs: Seq<index::DocumentView>,
    before: Seq<ExportView>,
    path: Seq<char>,
    symbols: Seq<index::SymbolView>,
)
    ensures
        with_symbols(
            docs.map_values(|d: index::DocumentView| only_definitions(d)),
            before,
            path,
            symbols,
        ) == with_symbols(docs, before, path, symbols),
    decreases symbols.len(),
{
    if symbols.len() > 0 {
        lemma_symbols_of_definitions(docs, before, path, symbols.drop_last());
        lemma_place_of_definitions(docs, symbols.last().symbol);
    }
}

/// Occurrences that define nothing do not matter: without them the exports are
/// the same, at the same places.
pub proof fn law_uses_do_not_matter(docs: Seq<index::DocumentView>, v: Seq<index::DocumentView>)
    ensures
        exports_in(
            docs.map_values(|d: index::DocumentView| only_definitions(d)),
            v.map_values(|d: index::DocumentView| only_definitions(d)),
        ) == exports_in(docs, v),
    decreases v.len(),
{
    let w = v.map_values(|d: index::DocumentView| only_definitions(d));
    if v.len() > 0 {
        let front = v.drop_last();
        law_uses_do_not_matter(docs, front);
        assert(w.drop_last() =~= front.map_values(|d: index::DocumentView| only_definitions(d)));
        lemma_symbols_of_definitions(
            docs,
            exports_in(docs, front),
            v.last().relative_path,
            v.last().symbols,
        );
    }
}

/// A symbol is exported if it is a function with a C signature, is not local
/// and has a name: its display name, or else the last name of its descriptors.
pub proof fn law_what_is_exported(
    docs: Seq<index::DocumentView>,
    path: Seq<char>,
    s: index::SymbolView,
    signature: Seq<char>,
)
    ensures
        s.kind != 17 ==> export_of(docs, path, s) is None,
        s.signature is None ==> export_of(docs, path, s) is None,
        text::has_prefix(s.symbol, "local "@) ==> export_of(docs, path, s) is None,
        s.kind == 17 && s.signature == Some(signature) && is_c_signature(signature)
            && !text::has_prefix(s.symbol, "local "@) && s.display_name.len() > 0 ==> (export_of(
            docs,
            path,
            s,
        ) matches Some(e) && e.export_name == s.display_name && e.rust_symbol == s.symbol),
        s.kind == 17 && s.signature == Some(signature) && is_c_signature(signature)
            && !text::has_prefix(s.symbol, "local "@) && s.display_name.len() == 0 ==> (
        match symbol::terminal_name(s.symbol, false) {
            Some(name) => export_of(docs, path, s) matches Some(e) && e.export_name == name
                && e.rust_symbol == s.symbol,
            None => export_of(docs, path, s) is None,
        }),
{
}

/// A word that may stand between `pub` and `extern`.
pub open spec fn is_modifier(word: Seq<char>) -> bool {
    word == "unsafe"@ || word == "async"@ || word == "const"@
}

/// Words, each with a space behind it, and then `rest`.
pub open spec fn spaced(words: Seq<Seq<char>>, rest: Seq<char>) -> Seq<char>
    decreases words.len(),
{
    if words.len() == 0 {
        rest
    } else {
        words[0] + (" "@ + spaced(words.skip(1), rest))
    }
}

/// A word with a space behind it is dropped from the front of a text.
proof fn lemma_word_dropped(word: Seq<char>, rest: Seq<char>)
    requires
        rest.len() > 0,
        !text::white_space(rest[0]),
    ensures
        without_word(word + (" "@ + rest), word) == rest,
{
    reveal_strlit(" ");
    let s = word + (" "@ + rest);
    assert(s.take(word.len() as int) =~= word);
    let after = " "@ + rest;
    assert(s.skip(word.len() as int) =~= after);
    assert(after.take(1) =~= " "@);
    assert(after.skip(1) =~= rest);
    reveal_with_fuel(text::trimmed_start, 3);
}

/// A word that a text does not begin with is not dropped from it.
proof fn lemma_word_kept(s: Seq<char>, word: Seq<char>, i: int)
    requires
        0 <= i < word.len(),
        i < s.len() ==> s[i] != word[i],
    ensures
        without_word(s, word) == s,
{
    if text::has_prefix(s, word) {
        assert(s.take(word.len() as int)[i] == s[i]);
    }
}

/// Modifiers in front of `extern` are dropped, in whatever order they stand.
proof fn lemma_modifiers_dropped(words: Seq<Seq<char>>, rest: Seq<char>)
    requires
        forall|i: int| 0 <= i < words.len() ==> is_modifier(#[trigger] words[i]),
        text::has_prefix(rest, "extern "@),
    ensures
        without_modifiers(spaced(words, rest)) == rest,
        spaced(words, rest).len() > 0,
        !text::white_space(spaced(words, rest)[0]),
    decreases words.len(),
{
    reveal_strlit("extern ");
    reveal_strlit("unsafe");
    reveal_strlit("async");
    reveal_strlit("const");
    reveal_strlit(" ");
    let s = spaced(words, rest);
    if words.len() == 0 {
        assert(rest.take(7)[0] == rest[0]);
        lemma_word_kept(rest, "unsafe"@, 0);
        lemma_word_kept(rest, "async"@, 0);
        lemma_word_kept(rest, "const"@, 0);
    } else {
        let word = words[0];
        let others = words.skip(1);
        assert forall|i: int| 0 <= i < others.len() implies is_modifier(#[trigger] others[i]) by {
            assert(others[i] == words[i + 1]);
        }
        lemma_modifiers_dropped(others, rest);
        let more = spaced(others, rest);
        assert(is_modifier(word));
        lemma_word_dropped(word, more);
        assert(s[0] == word[0]);
        assert(s.len() > more.len());
        if word != "unsafe"@ {
            lemma_word_kept(s, "unsafe"@, 0);
            if word != "async"@ {
                lemma_word_kept(s, "async"@, 0);
            }
        }
    }
}

/// A signature is one that C can call if it is `pub`, any modifiers, and then
/// `extern` with the C ABI, or with none given, and `fn`. It is none if it is
/// not public, or if `extern` gives another ABI or is missing.
pub proof fn law_c_signatures(words: Seq<Seq<char>>, rest: Seq<char>, other: Seq<char>)
    requires
        forall|i: int| 0 <= i < words.len() ==> is_modifier(#[trigger] words[i]),
        text::has_prefix(other, "extern "@),
        !text::has_prefix(other, "extern fn "@),
        !text::has_prefix(other, "extern \"C\" fn "@),
        !text::has_prefix(other, "extern \"C-unwind\" fn "@),
    ensures
        is_c_signature("pub "@ + spaced(words, "extern \"C\" fn "@ + rest)),
        is_c_signature("pub "@ + spaced(words, "extern \"C-unwind\" fn "@ + rest)),
        is_c_signature("pub "@ + spaced(words, "extern fn "@ + rest)),
        !is_c_signature("pub "@ + spaced(words, other)),
        !text::has_prefix(other, "pub "@) && !is_c_signature(other),
{
    reveal_strlit("pub ");
    reveal_strlit("extern ");
    reveal_strlit("extern fn ");
    reveal_strlit("extern \"C\" fn ");
    reveal_strlit("extern \"C-unwind\" fn ");
    assert("extern \"C\" fn "@.take(7) =~= "extern "@);
    assert("extern \"C-unwind\" fn "@.take(7) =~= "extern "@);
    assert("extern fn "@.take(7) =~= "extern "@);
    lemma_public(words, "extern \"C\" fn "@, rest);
    lemma_public(words, "extern \"C-unwind\" fn "@, rest);
    lemma_public(words, "extern fn "@, rest);
    lemma_modifiers_dropped(words, other);
    let s = "pub "@ + spaced(words, other);
    assert(s.take(4) =~= "pub "@);
    assert(s.skip(4) =~= spaced(words, other));
    assert(other.take(7)[0] == other[0]);
    if text::has_prefix(other, "pub "@) {
        assert(other.take(4)[0] == other[0]);
    }
}

/// The rest of a public signature, without modifiers.
proof fn lemma_public(words: Seq<Seq<char>>, head: Seq<char>, rest: Seq<char>)
    requires
        forall|i: int| 0 <= i < words.len() ==> is_modifier(#[trigger] words[i]),
        text::has_prefix(head, "extern "@),
    ensures
        ({
            let s = "pub "@ + spaced(words, head + rest);
            &&& text::after_prefix(s, "pub "@) == Some(spaced(words, head + rest))
            &&& without_modifiers(spaced(words, head + rest)) == head + rest
            &&& text::has_prefix(head + rest, head)
        }),
{
    reveal_strlit("pub ");
    reveal_strlit("extern ");
    let s = "pub "@ + spaced(words, head + rest);
    assert(s.take(4) =~= "pub "@);
    assert(s.skip(4) =~= spaced(words, head + rest));
    assert((head + rest).take(head.len() as int) =~= head);
    assert((head + rest).take(7) =~= head.take(7));
    lemma_modifiers_dropped(words, head + rest);
}

/// A symbol that one document exports is exported as that document says,
/// whatever further documents say of it: the first description counts.
pub proof fn law_first_description_counts(
    docs: Seq<index::DocumentView>,
    v: Seq<index::DocumentView>,
    d: index::DocumentView,
    x: ExportView,
)
    ensures
        exports_in(docs, v).contains(x) ==> exports_in(docs, v.push(d)).contains(x),
        exports_in(docs, v.push(d)).contains(x) && !exports_in(docs, v).contains(x)
            ==> !exports_symbol(exports_in(docs, v), x.rust_symbol),
{
    let all = v.push(d);
    assert(all.drop_last() =~= v);
    law_exports_sorted(docs, v);
    law_exports_sorted(docs, all);
    let before = exports_in(docs, v);
    let after = exports_in(docs, all);
    lemma_with_symbols_sorted(docs, before, d.relative_path, d.symbols);
    if after.contains(x) && !before.contains(x) && exports_symbol(before, x.rust_symbol) {
        let k = choose|k: int|
            0 <= k < before.len() && (#[trigger] before[k]).rust_symbol == x.rust_symbol;
        let y = before[k];
        assert(before.contains(y));
        assert(after.contains(y));
        let (i, j) = (after.index_of(x), after.index_of(y));
        text::lemma_precedes_total(x.rust_symbol, y.rust_symbol);
        if i < j {
            assert(text::precedes(after[i].rust_symbol, after[j].rust_symbol));
        } else if j < i {
            assert(text::precedes(after[j].rust_symbol, after[i].rust_symbol));
        }
    }
}

/// Each export adds one function under its C name, linked to its Rust symbol,
/// to the document of its file, with its definition where that is known.
pub proof fn law_export_adds_one(e: ExportView, doc: index::DocumentView)
    ensures
        ({
            let after = companion::with_emission(doc, export_emission(e));
            let s = after.symbols.last();
            &&& export_emission(e).path == e.relative_path
            &&& after.symbols.len() == doc.symbols.len() + 1
            &&& after.symbols.drop_last() == doc.symbols
            &&& s.symbol == function_symbol(e.export_name)
            &&& s.display_name == e.export_name
            &&& s.kind == 17
            &&& s.relationships.len() == 1
            &&& s.relationships[0].symbol == e.rust_symbol
            &&& s.relationships[0].is_reference
            &&& s.relationships[0].is_implementation
            &&& s.relationships[0].is_definition
            &&& match e.definition_range {
                Some(range) => {
                    &&& after.occurrences.len() == doc.occurrences.len() + 1
                    &&& after.occurrences.drop_last() == doc.occurrences
                    &&& after.occurrences.last().symbol == s.symbol
                    &&& after.occurrences.last().symbol_roles == 1
                    &&& after.occurrences.last().range == range
                },
                None => after.occurrences == doc.occurrences,
            }
        }),
{
    let after = companion::with_emission(doc, export_emission(e));
    assert(after.symbols.drop_last() =~= doc.symbols);
    if let Some(range) = e.definition_range {
        assert(after.occurrences.drop_last() =~= doc.occurrences);
    }
}

/// A companion holds the documents of all exports, in C, and says that this
/// tool made it.
pub proof fn law_companion_of_exports(input: index::IndexView, exports: Seq<ExportView>, k: int)
    requires
        0 <= k < exports.len(),
    ensures
        ({
            let out = c_companion(input, exports);
            &&& out.metadata.tool_name == "scip-c-abi-augment"@
            &&& out.metadata.project_root == input.metadata.project_root
            &&& exists|d: int, i: int|
                0 <= d < out.documents.len() && 0 <= i < out.documents[d].symbols.len() && ({
                    let s = #[trigger] out.documents[d].symbols[i];
                    &&& out.documents[d].relative_path == exports[k].relative_path
                    &&& out.documents[d].language == "C"@
                    &&& s.display_name == exports[k].export_name
                    &&& s.relationships.len() == 1
                    &&& s.relationships[0].symbol == exports[k].rust_symbol
                })
        }),
{
    let es = exports.map_values(|e: ExportView| export_emission(e));
    let out = c_companion(input, exports);
    companion::law_documents_cover("C"@, es);
    assert(es[k] == export_emission(exports[k]));
    let d = choose|d: int|
        0 <= d < out.documents.len() && (#[trigger] out.documents[d]).relative_path == es[k].path
            && out.documents[d].symbols.contains(companion::emitted_symbol(es[k]));
    let path = companion::emitted_paths(es)[d];
    companion::law_document_symbols("C"@, path, es, es[k]);
    let i = out.documents[d].symbols.index_of(companion::emitted_symbol(es[k]));
    assert(out.documents[d].symbols[i] == companion::emitted_symbol(es[k]));
}

/// An augmentation writes the companion of the exports of an index, and counts
/// them. Bytes that are no index are refused.
pub proof fn law_augment_file(
    input: &[u8],
    r: Result<(AugmentStats, Vec<u8>), IndexError>,
    m: index::IndexView,
)
    requires
        call_ensures(augment_file, (input,), r),
    ensures
        index::index_message(input@) is None ==> r is Err,
        index::index_message(input@) == Some(m) ==> ({
            let docs = index::read_part(m).documents;
            let out = c_companion(index::read_part(m), exports_in(docs, docs));
            &&& r matches Ok(done)
            &&& done.0.exports == exports_in(docs, docs).len()
            &&& done.0.documents == out.documents.len()
            &&& (done.1@.len() <= i32::MAX ==> index::index_message(done.1@) == Some(out))
        }),
{
}

/// The exports that are collected are those of all documents of an index, at
/// the definitions in all of them.
pub proof fn law_collect_exports(input: &Index, r: Vec<Export>)
    requires
        call_ensures(collect_exports, (input,), r),
    ensures
        export_views(r@) == exports_in(input@.documents, input@.documents),
{
}

/// A companion defines an export where the index defines the Rust function, if
/// it does.
pub proof fn law_exports_are_placed(input: index::IndexView, exports: Seq<ExportView>, k: int)
    requires
        0 <= k < exports.len(),
    ensures
        exports[k].definition_range matches Some(range) ==> companion_laws::is_defined_at(
            c_companion(input, exports).documents,
            exports[k].relative_path,
            function_symbol(exports[k].export_name),
            range,
        ),
{
    let es = exports.map_values(|e: ExportView| export_emission(e));
    assert(es[k] == export_emission(exports[k]));
    if let Some(range) = exports[k].definition_range {
        companion_laws::law_placed("C"@, es, k, range);
    }
}

} // verus!
