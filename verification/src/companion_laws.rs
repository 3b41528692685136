//! What companions take over from their input, and what is looked up in it.

use crate::companion;
use crate::companion::{AugmentOutcome, EmissionView};
use crate::index;
use crate::index::Index;
use crate::lookup;
use crate::python;
use crate::symbol;
use crate::symbol::{DescriptorView, Suffix};
use crate::symbol_laws;
use crate::text;
use crate::text_laws;
use crate::version;
use vstd::prelude::*;

verus! {

/// The numbers by which an index tells roles and kinds are those of the SCIP
/// format.
pub proof fn law_scip_numbers()
    ensures
        index::ROLE_DEFINITION == 1,
        index::KIND_CLASS == 7,
        index::KIND_FUNCTION == 17,
        index::KIND_METHOD == 26,
        index::KIND_MODULE == 29,
        index::KIND_STATIC_METHOD == 80,
{
}

/// The directory to scan is the one given, whatever the index says; else the
/// index's root, without the scheme of a file URL; else there is none.
pub proof fn law_source_root(given: Seq<char>, path: Seq<char>, root: Seq<char>)
    ensures
        companion::root_of(Some(given), root) == Some(given),
        companion::root_of(None, "file://"@ + path) == Some(path),
        root.len() > 0 && !text::has_prefix(root, "file://"@) ==> companion::root_of(None, root)
            == Some(root),
        companion::root_of(None, Seq::empty()) is None,
{
    reveal_strlit("file://");
    let url = "file://"@ + path;
    assert(url.take(7) =~= "file://"@);
    assert(url.skip(7) =~= path);
}

/// What is scanned is told by the call and by the index's own root.
pub proof fn law_scanned_root(given: &Option<String>, input: &Index, r: Option<String>)
    requires
        call_ensures(companion::source_root, (given, input), r),
    ensures
        given matches Some(root) ==> (r matches Some(found) && found@ == root@),
        given is None && input@.metadata.project_root.len() == 0 ==> r is None,
        given is None && input@.metadata.project_root.len() > 0 ==> r is Some,
        given is None && input@.metadata.project_root.len() > 0 ==> (r matches Some(found) && (
        found@ == input@.metadata.project_root || "file://"@ + found@
            == input@.metadata.project_root)),
{
    let root = input@.metadata.project_root;
    if text::has_prefix(root, "file://"@) {
        assert("file://"@ + root.skip("file://"@.len() as int) =~= root);
    }
}

/// A companion says the same of itself as its input, but for the tool that
/// made it.
pub proof fn law_inherited(input: index::MetadataView, tool: Seq<char>)
    ensures
        ({
            let m = companion::inherited(input, tool);
            &&& m.version == input.version
            &&& m.project_root == input.project_root
            &&& m.text_document_encoding == input.text_document_encoding
            &&& m.tool_name == tool
            &&& m.tool_version == version::VERSION@
        }),
{
}

/// A result that was written counts the documents and the exports, and its
/// bytes hold the companion.
pub proof fn law_written_counts(
    r: (AugmentOutcome, Option<Vec<u8>>),
    out: index::IndexView,
    exports: nat,
)
    requires
        companion::is_written(r, out, exports),
    ensures
        r.0 matches AugmentOutcome::Written(stats) && stats.documents == out.documents.len()
            && stats.exports == exports,
        r.1 matches Some(bytes) && (bytes@.len() <= i32::MAX ==> index::index_message(bytes@)
            == Some(out)),
{
}

/// Whether a version tells something.
pub open spec fn tells(v: Seq<char>, dots: bool, dollars: bool) -> bool {
    v.len() > 0 && !(dots && v == seq!['.']) && !(dollars && v == seq!['$'])
}

/// Whether a symbol has a version that tells something.
pub open spec fn has_version(s: Seq<char>, v: Seq<char>, dots: bool, dollars: bool) -> bool {
    symbol::version_of(s) == Some(v) && tells(v, dots, dollars)
}

/// Whether no symbol of a list has one.
pub open spec fn has_no_version(v: Seq<index::SymbolView>, dots: bool, dollars: bool) -> bool {
    forall|i: int, w: Seq<char>|
        0 <= i < v.len() ==> !#[trigger] has_version(v[i].symbol, w, dots, dollars)
}

/// The first version among symbols.
proof fn lemma_first_version_in(
    v: Seq<index::SymbolView>,
    i: int,
    found: Seq<char>,
    dots: bool,
    dollars: bool,
)
    ensures
        0 <= i < v.len() && has_version(v[i].symbol, found, dots, dollars) && has_no_version(
            v.take(i),
            dots,
            dollars,
        ) ==> companion::first_version_in(v, dots, dollars) == Some(found),
        has_no_version(v, dots, dollars) ==> companion::first_version_in(v, dots, dollars) is None,
    decreases v.len(),
{
    reveal_strlit(".");
    reveal_strlit("$");
    assert("."@ =~= seq!['.']);
    assert("$"@ =~= seq!['$']);
    if v.len() > 0 {
        let rest = v.skip(1);
        lemma_first_version_in(rest, i - 1, found, dots, dollars);
        if 0 < i < v.len() && has_no_version(v.take(i), dots, dollars) {
            let w = symbol::version_of(v[0].symbol);
            if let Some(w) = w {
                assert(v.take(i)[0] == v[0]);
                assert(!has_version(v.take(i)[0].symbol, w, dots, dollars));
            }
            assert forall|j: int, w: Seq<char>|
                0 <= j < rest.take(i - 1).len() implies !#[trigger] has_version(
                rest.take(i - 1)[j].symbol,
                w,
                dots,
                dollars,
            ) by {
                assert(rest.take(i - 1)[j] == v.take(i)[j + 1]);
                assert(!has_version(v.take(i)[j + 1].symbol, w, dots, dollars));
            }
        }
        if has_no_version(v, dots, dollars) {
            if let Some(w) = symbol::version_of(v[0].symbol) {
                assert(!has_version(v[0].symbol, w, dots, dollars));
            }
            assert forall|j: int, w: Seq<char>| 0 <= j < rest.len() implies !#[trigger] has_version(
                rest[j].symbol,
                w,
                dots,
                dollars,
            ) by {
                assert(rest[j] == v[j + 1]);
                assert(!has_version(v[j + 1].symbol, w, dots, dollars));
            }
        }
    }
}

/// The version of an index is that of the first symbol that has one that tells
/// something, in the order of the documents.
pub proof fn law_first_version(
    docs: Seq<index::DocumentView>,
    d: int,
    i: int,
    found: Seq<char>,
    dots: bool,
    dollars: bool,
)
    ensures
        0 <= d < docs.len() && 0 <= i < docs[d].symbols.len() && has_version(
            docs[d].symbols[i].symbol,
            found,
            dots,
            dollars,
        ) && has_no_version(docs[d].symbols.take(i), dots, dollars) && (forall|e: int|
            0 <= e < d ==> has_no_version((#[trigger] docs[e]).symbols, dots, dollars))
            ==> companion::first_version(docs, dots, dollars) == Some(found),
        (forall|e: int|
            0 <= e < docs.len() ==> has_no_version((#[trigger] docs[e]).symbols, dots, dollars))
            ==> companion::first_version(docs, dots, dollars) is None,
    decreases docs.len(),
{
    if docs.len() > 0 {
        let rest = docs.skip(1);
        law_first_version(rest, d - 1, i, found, dots, dollars);
        lemma_first_version_in(docs[0].symbols, i, found, dots, dollars);
        if 0 < d < docs.len() && forall|e: int|
            0 <= e < d ==> has_no_version((#[trigger] docs[e]).symbols, dots, dollars) {
            assert(has_no_version(docs[0].symbols, dots, dollars));
            assert forall|e: int| 0 <= e < d - 1 implies has_no_version(
                (#[trigger] rest[e]).symbols,
                dots,
                dollars,
            ) by {
                assert(rest[e] == docs[e + 1]);
            }
        }
        if forall|e: int|
            0 <= e < docs.len() ==> has_no_version((#[trigger] docs[e]).symbols, dots, dollars) {
            assert(has_no_version(docs[0].symbols, dots, dollars));
            assert forall|e: int| 0 <= e < rest.len() implies has_no_version(
                (#[trigger] rest[e]).symbols,
                dots,
                dollars,
            ) by {
                assert(rest[e] == docs[e + 1]);
            }
        }
    }
}

/// A symbol without a place is described and linked, and defined nowhere.
pub proof fn law_emission_without_place(before: index::DocumentView, e: EmissionView)
    requires
        e.range is None,
    ensures
        ({
            let after = companion::with_emission(before, e);
            &&& after.occurrences == before.occurrences
            &&& after.symbols.len() == before.symbols.len() + 1
            &&& after.symbols.drop_last() == before.symbols
            &&& after.symbols.last().symbol == e.symbol
            &&& after.symbols.last().display_name == e.display_name
            &&& after.symbols.last().kind == e.kind
            &&& after.language == before.language
            &&& after.relative_path == before.relative_path
        }),
{
    let after = companion::with_emission(before, e);
    assert(after.symbols.drop_last() =~= before.symbols);
}

/// What is emitted is described as it is: with its symbol, its name and its
/// kind.
pub proof fn law_emission_described(before: index::DocumentView, e: EmissionView)
    ensures
        ({
            let s = companion::with_emission(before, e).symbols.last();
            s.symbol == e.symbol && s.display_name == e.display_name && s.kind == e.kind
        }),
{
}

/// The documents of emitted symbols come in the order of their first symbols:
/// one more symbol adds a document at the end if its path is new, and none
/// otherwise.
pub proof fn law_documents_in_order(language: Seq<char>, es: Seq<EmissionView>, e: EmissionView)
    ensures
        ({
            let (before, after) = (
                companion::documents_of(language, es),
                companion::documents_of(language, es.push(e)),
            );
            let known = exists|i: int| 0 <= i < es.len() && (#[trigger] es[i]).path == e.path;
            &&& known ==> after.len() == before.len()
            &&& !known ==> after.len() == before.len() + 1 && after.last().relative_path == e.path
            &&& forall|k: int|
                0 <= k < before.len() ==> (#[trigger] after[k]).relative_path
                    == before[k].relative_path
        }),
{
    let paths = es.map_values(|e: EmissionView| e.path);
    let more = es.push(e);
    let all = more.map_values(|e: EmissionView| e.path);
    assert(all.drop_last() =~= paths);
    assert(all.last() == e.path);
    lemma_distinct_same(paths, e.path);
    let (before, after) = (
        companion::documents_of(language, es),
        companion::documents_of(language, more),
    );
    let known = exists|i: int| 0 <= i < es.len() && (#[trigger] es[i]).path == e.path;
    if known {
        let i = choose|i: int| 0 <= i < es.len() && (#[trigger] es[i]).path == e.path;
        assert(paths[i] == e.path);
    } else {
        if paths.contains(e.path) {
            let i = paths.index_of(e.path);
            assert(es[i].path == e.path);
        }
    }
    assert forall|k: int| 0 <= k < before.len() implies (#[trigger] after[k]).relative_path
        == before[k].relative_path by {
        let p = companion::emitted_paths(es)[k];
        assert(companion::emitted_paths(more)[k] == p);
        companion::law_document_symbols(language, p, es, e);
        companion::law_document_symbols(language, p, more, e);
    }
    if !known {
        companion::law_document_symbols(language, e.path, more, e);
    }
}

/// The different texts of a list are those of the list.
proof fn lemma_distinct_same(v: Seq<Seq<char>>, x: Seq<char>)
    ensures
        companion::distinct(v).contains(x) <==> v.contains(x),
    decreases v.len(),
{
    if v.len() > 0 {
        let front = v.drop_last();
        let before = companion::distinct(front);
        let now = companion::distinct(v);
        lemma_distinct_same(front, x);
        if v.contains(x) {
            let i = v.index_of(x);
            if i < front.len() {
                assert(front[i] == x);
                let k = before.index_of(x);
                assert(now[k] == x);
            } else if !before.contains(x) {
                assert(now[before.len() as int] == x);
            }
        }
        if now.contains(x) && !before.contains(x) {
            assert(v[v.len() - 1] == x);
        }
        if before.contains(x) {
            let i = front.index_of(x);
            assert(v[i] == x);
        }
    }
}

/// Whether a symbol is local to a document.
pub open spec fn is_local(s: Seq<char>) -> bool {
    text::has_prefix(s, "local "@)
}

/// The symbols that can be linked to are those that an index defines or
/// describes and that are not local: an occurrence without the definition role
/// makes none.
pub proof fn law_global_symbols(docs: Seq<index::DocumentView>, s: Seq<char>)
    ensures
        lookup::global_symbols(docs).contains(s) <==> !is_local(s) && exists|d: int|
            0 <= d < docs.len() && #[trigger] mentions(docs[d], s),
    decreases docs.len(),
{
    if docs.len() > 0 {
        let front = docs.drop_last();
        let last = docs.last();
        law_global_symbols(front, s);
        lemma_mentions(last, s);
        lemma_joint(
            lookup::global_symbols(front),
            lookup::defined_symbols(last.occurrences),
            lookup::described_symbols(last.symbols),
            s,
        );
        lemma_some_mentions(docs, s);
    }
}

/// Some document mentions a symbol if one of the first does, or the last.
proof fn lemma_some_mentions(docs: Seq<index::DocumentView>, s: Seq<char>)
    requires
        docs.len() > 0,
    ensures
        (exists|d: int| 0 <= d < docs.len() && #[trigger] mentions(docs[d], s)) <==> (exists|d: int|
            0 <= d < docs.drop_last().len() && #[trigger] mentions(docs.drop_last()[d], s))
            || mentions(docs.last(), s),
{
    let front = docs.drop_last();
    let n = docs.len() - 1;
    if exists|d: int| 0 <= d < docs.len() && #[trigger] mentions(docs[d], s) {
        let d = choose|d: int| 0 <= d < docs.len() && #[trigger] mentions(docs[d], s);
        if d < n {
            assert(front[d] == docs[d]);
        }
    }
    if exists|d: int| 0 <= d < front.len() && #[trigger] mentions(front[d], s) {
        let d = choose|d: int| 0 <= d < front.len() && #[trigger] mentions(front[d], s);
        assert(docs[d] == front[d]);
    }
    if mentions(docs.last(), s) {
        assert(mentions(docs[n], s));
    }
}

/// What a document mentions is among what it defines or describes.
proof fn lemma_mentions(d: index::DocumentView, s: Seq<char>)
    ensures
        !is_local(s) && mentions(d, s) <==> lookup::defined_symbols(d.occurrences).contains(s)
            || lookup::described_symbols(d.symbols).contains(s),
{
    lemma_defined(d.occurrences, s);
    lemma_described(d.symbols, s);
}

/// What stands in one of three lists stands in all of them together.
proof fn lemma_joint(a: Seq<Seq<char>>, b: Seq<Seq<char>>, c: Seq<Seq<char>>, s: Seq<char>)
    ensures
        (a + b + c).contains(s) <==> a.contains(s) || b.contains(s) || c.contains(s),
{
    let all = a + b + c;
    if a.contains(s) {
        assert(all[a.index_of(s)] == s);
    }
    if b.contains(s) {
        assert(all[a.len() + b.index_of(s)] == s);
    }
    if c.contains(s) {
        assert(all[a.len() + b.len() + c.index_of(s)] == s);
    }
    if all.contains(s) {
        let k = all.index_of(s);
        if k < a.len() {
            assert(a[k] == s);
        } else if k < a.len() + b.len() {
            assert(b[k - a.len()] == s);
        } else {
            assert(c[k - a.len() - b.len()] == s);
        }
    }
}

/// Whether a document defines a symbol or describes it.
pub open spec fn mentions(d: index::DocumentView, s: Seq<char>) -> bool {
    ||| exists|i: int|
        0 <= i < d.occurrences.len() && (#[trigger] d.occurrences[i]).symbol == s
            && d.occurrences[i].symbol_roles & 1 != 0
    ||| exists|i: int| 0 <= i < d.symbols.len() && (#[trigger] d.symbols[i]).symbol == s
}

proof fn lemma_defined(v: Seq<index::OccurrenceView>, s: Seq<char>)
    ensures
        lookup::defined_symbols(v).contains(s) <==> !is_local(s) && exists|i: int|
            0 <= i < v.len() && (#[trigger] v[i]).symbol == s && v[i].symbol_roles & 1 != 0,
    decreases v.len(),
{
    let all = lookup::defined_symbols(v);
    if v.len() > 0 {
        let front = v.drop_last();
        let before = lookup::defined_symbols(front);
        let o = v[v.len() - 1];
        lemma_defined(front, s);
        if before.contains(s) {
            assert(all[before.index_of(s)] == s);
            let i = choose|i: int|
                0 <= i < front.len() && (#[trigger] front[i]).symbol == s && front[i].symbol_roles
                    & 1 != 0;
            assert(v[i] == front[i]);
        }
        if o.symbol == s && o.symbol_roles & 1 != 0 && !is_local(s) {
            assert(all[before.len() as int] == s);
        }
        if all.contains(s) && !before.contains(s) {
            let k = all.index_of(s);
            if k < before.len() {
                assert(before[k] == s);
            }
            assert(o.symbol == s);
        }
        if !is_local(s) && exists|i: int|
            0 <= i < v.len() && (#[trigger] v[i]).symbol == s && v[i].symbol_roles & 1 != 0 {
            let i = choose|i: int|
                0 <= i < v.len() && (#[trigger] v[i]).symbol == s && v[i].symbol_roles & 1 != 0;
            if i < front.len() {
                assert(front[i] == v[i]);
            }
        }
    }
}

proof fn lemma_described(v: Seq<index::SymbolView>, s: Seq<char>)
    ensures
        lookup::described_symbols(v).contains(s) <==> !is_local(s) && exists|i: int|
            0 <= i < v.len() && (#[trigger] v[i]).symbol == s,
    decreases v.len(),
{
    let all = lookup::described_symbols(v);
    if v.len() > 0 {
        let front = v.drop_last();
        let before = lookup::described_symbols(front);
        let o = v[v.len() - 1];
        lemma_described(front, s);
        if before.contains(s) {
            assert(all[before.index_of(s)] == s);
            let i = choose|i: int| 0 <= i < front.len() && (#[trigger] front[i]).symbol == s;
            assert(v[i] == front[i]);
        }
        if o.symbol == s && !is_local(s) {
            assert(all[before.len() as int] == s);
        }
        if all.contains(s) && !before.contains(s) {
            let k = all.index_of(s);
            if k < before.len() {
                assert(before[k] == s);
            }
            assert(o.symbol == s);
        }
        if !is_local(s) && exists|i: int| 0 <= i < v.len() && (#[trigger] v[i]).symbol == s {
            let i = choose|i: int| 0 <= i < v.len() && (#[trigger] v[i]).symbol == s;
            if i < front.len() {
                assert(front[i] == v[i]);
            }
        }
    }
}

/// A C function that an index defines or describes is found by its name, and
/// what is found has that name: the first of its symbols in the order of texts.
pub proof fn law_functions_are_found(
    docs: Seq<index::DocumentView>,
    name: Seq<char>,
    hash: Seq<char>,
)
    requires
        symbol_laws::is_plain_name(name),
        !hash.contains(')'),
        lookup::global_symbols(docs).contains(
            "cxx . . $ "@ + (name + seq!['('] + hash + seq![')', '.']),
        ),
    ensures
        lookup::least_symbol(lookup::c_entries(docs), name) matches Some(s) && {
            &&& lookup::global_symbols(docs).contains(s)
            &&& symbol::c_name_of(s) == Some(name)
        },
{
    reveal_strlit("cxx");
    reveal_strlit("x");
    let h = seq!["x"@, "x"@, "x"@, "x"@];
    assert("x"@.len() == 1 && "cxx"@.len() == 3);
    symbol_laws::law_c_identifiers(name, hash, h, Seq::empty(), seq!['/']);
    lookup::law_c_lookup(docs, name);
}

/// Plain parts of a dotted name.
pub open spec fn are_plain_parts(parts: Seq<Seq<char>>) -> bool {
    parts.len() > 0 && forall|i: int|
        0 <= i < parts.len() ==> symbol_laws::is_plain_name(#[trigger] parts[i])
}

/// Descriptors of one kind.
pub open spec fn all_of(parts: Seq<Seq<char>>, suffix: Suffix) -> Seq<DescriptorView> {
    Seq::new(parts.len(), |i: int| DescriptorView { name: parts[i], suffix })
}

/// The parts of a dotted name are namespaces.
proof fn lemma_module_names(parts: Seq<Seq<char>>)
    requires
        are_plain_parts(parts),
    ensures
        python::module_names(text_laws::joined_by(parts, "."@)) == all_of(parts, Suffix::Namespace),
{
    reveal_strlit(".");
    assert forall|i: int| 0 <= i < parts.len() implies !(#[trigger] parts[i]).contains("."@[0]) by {
        assert(symbol_laws::is_plain_name(parts[i]));
        if parts[i].contains('.') {
            let k = parts[i].index_of('.');
            assert(symbol_laws::is_plain_char(parts[i][k]));
        }
    }
    text_laws::law_split_joined(parts, "."@);
    assert forall|i: int| 0 <= i < parts.len() implies (#[trigger] parts[i]).len() > 0 by {
        assert(symbol_laws::is_plain_name(parts[i]));
    }
    text_laws::law_nonempty(parts, Seq::empty(), Seq::empty());
    assert(python::module_names(text_laws::joined_by(parts, "."@)) =~= all_of(
        parts,
        Suffix::Namespace,
    ));
}

/// The symbols of Python: a module is its parts as namespaces and `__init__`, a
/// member its parts and its own name, and a method its class as a type before
/// its own name. The package comes first.
pub proof fn law_python_symbols(
    package: Seq<char>,
    version: Seq<char>,
    parts: Seq<Seq<char>>,
    class: Seq<char>,
    name: Seq<char>,
    suffix: Suffix,
)
    requires
        are_plain_parts(parts),
        symbol_laws::is_plain_name(class),
        symbol_laws::is_plain_name(name),
    ensures
        ({
            let dotted = text_laws::joined_by(parts, "."@);
            let head = "scip-python"@ + seq![' '] + "python"@ + seq![' '] + symbol_laws::dotted(
                package,
            ) + seq![' '] + symbol_laws::dotted(version) + seq![' '];
            let spaces = all_of(parts, Suffix::Namespace);
            &&& python::module_symbol(package, version, dotted) == head + symbol_laws::written(
                spaces.push(DescriptorView { name: "__init__"@, suffix: Suffix::Meta }),
            )
            &&& python::member_symbol(package, version, dotted, name, suffix) == head
                + symbol_laws::written(spaces.push(DescriptorView { name, suffix }))
            &&& python::class_method_symbol(package, version, dotted, class, name) == head
                + symbol_laws::written(
                spaces.push(DescriptorView { name: class, suffix: Suffix::Type }).push(
                    DescriptorView { name, suffix: Suffix::Method },
                ),
            )
        }),
{
    reveal_strlit("__init__");
    reveal_strlit("python");
    let dotted = text_laws::joined_by(parts, "."@);
    let spaces = all_of(parts, Suffix::Namespace);
    lemma_module_names(parts);
    let p = python::package_view(package, version);
    assert(symbol_laws::dotted(p.manager) == "python"@);
    let init = "__init__"@;
    assert forall|i: int| 0 <= i < init.len() implies symbol_laws::is_plain_char(
        #[trigger] init[i],
    ) by {}
    let a = spaces.push(DescriptorView { name: init, suffix: Suffix::Meta });
    let b = spaces.push(DescriptorView { name, suffix });
    let c = spaces.push(DescriptorView { name: class, suffix: Suffix::Type }).push(
        DescriptorView { name, suffix: Suffix::Method },
    );
    assert forall|i: int| 0 <= i < a.len() implies symbol_laws::is_plain_name(
        (#[trigger] a[i]).name,
    ) by {
        if i < parts.len() {
            assert(symbol_laws::is_plain_name(parts[i]));
        }
    }
    assert forall|i: int| 0 <= i < b.len() implies symbol_laws::is_plain_name(
        (#[trigger] b[i]).name,
    ) by {
        if i < parts.len() {
            assert(symbol_laws::is_plain_name(parts[i]));
        }
    }
    assert forall|i: int| 0 <= i < c.len() implies symbol_laws::is_plain_name(
        (#[trigger] c[i]).name,
    ) by {
        if i < parts.len() {
            assert(symbol_laws::is_plain_name(parts[i]));
        }
    }
    symbol_laws::law_symbols_are_written(p, a);
    symbol_laws::law_symbols_are_written(p, b);
    symbol_laws::law_symbols_are_written(p, c);
}

/// Lines before the `[project]` table do not matter.
proof fn lemma_before_table(a: Seq<Seq<char>>, b: Seq<Seq<char>>)
    requires
        forall|i: int| 0 <= i < a.len() ==> text::trimmed(#[trigger] a[i]) != "[project]"@,
    ensures
        python::project_name(a + b, false) == python::project_name(b, false),
    decreases a.len(),
{
    let s = a + b;
    if a.len() == 0 {
        assert(s =~= b);
    } else {
        let rest = a.skip(1);
        assert(text::trimmed(a[0]) != "[project]"@);
        assert(s.skip(1) =~= rest + b);
        assert forall|i: int| 0 <= i < rest.len() implies text::trimmed(#[trigger] rest[i])
            != "[project]"@ by {
            assert(rest[i] == a[i + 1]);
        }
        lemma_before_table(rest, b);
    }
}

/// Lines of the table that are no header and do not start with `name` are
/// passed over.
proof fn lemma_other_keys(a: Seq<Seq<char>>, b: Seq<Seq<char>>)
    requires
        forall|i: int|
            0 <= i < a.len() ==> {
                let line = text::trimmed(#[trigger] a[i]);
                !text::has_prefix(line, "["@) && gives_no_name(line)
            },
    ensures
        python::project_name(a + b, true) == python::project_name(b, true),
    decreases a.len(),
{
    let s = a + b;
    if a.len() == 0 {
        assert(s =~= b);
    } else {
        let rest = a.skip(1);
        let line = text::trimmed(a[0]);
        assert(!text::has_prefix(line, "["@) && gives_no_name(line));
        reveal_strlit("name");
        reveal_strlit("=");
        if text::has_prefix(line, "name"@) {
            let after = text::trimmed_start(line.skip(4));
            if text::has_prefix(after, "="@) {
                assert(after.take(1)[0] == after[0]);
            }
        }
        assert(s[0] == a[0]);
        assert(s.skip(1) =~= rest + b);
        assert forall|i: int| 0 <= i < rest.len() implies {
            let line = text::trimmed(#[trigger] rest[i]);
            !text::has_prefix(line, "["@) && gives_no_name(line)
        } by {
            assert(rest[i] == a[i + 1]);
        }
        lemma_other_keys(rest, b);
    }
}

/// Whether a line gives no name: it does not start with `name`, or goes on with
/// something else than an equals sign, as `namespaces` does.
pub open spec fn gives_no_name(line: Seq<char>) -> bool {
    ||| !text::has_prefix(line, "name"@)
    ||| {
        let after = text::trimmed_start(line.skip(4));
        after.len() == 0 || after[0] != '='
    }
}

/// The name of a project is the value of `name` in the `[project]` table,
/// without its quotes, whatever stands before the table and whatever other keys
/// stand before `name`.
pub proof fn law_project_name(
    a: Seq<Seq<char>>,
    header: Seq<char>,
    m: Seq<Seq<char>>,
    blank: (Seq<char>, Seq<char>, Seq<char>, Seq<char>),
    quote: char,
    n: Seq<char>,
    b: Seq<Seq<char>>,
)
    requires
        forall|i: int| 0 <= i < a.len() ==> text::trimmed(#[trigger] a[i]) != "[project]"@,
        text::trimmed(header) == "[project]"@,
        forall|i: int|
            0 <= i < m.len() ==> {
                let line = text::trimmed(#[trigger] m[i]);
                !text::has_prefix(line, "["@) && gives_no_name(line)
            },
        text_laws::is_blank(blank.0),
        text_laws::is_blank(blank.1),
        text_laws::is_blank(blank.2),
        text_laws::is_blank(blank.3),
        quote == '"' || quote == '\'',
        n.len() > 0,
        n[0] != '"' && n[0] != '\'',
        n.last() != '"' && n.last() != '\'',
    ensures
        python::project_name(
            a + (seq![header] + (m + (seq![
                blank.0 + ("name"@ + blank.1 + seq!['='] + blank.2 + seq![quote] + n + seq![quote])
                    + blank.3,
            ] + b))),
            false,
        ) == Some(n),
{
    reveal_strlit("[project]");
    reveal_strlit("[");
    reveal_strlit("name");
    reveal_strlit("=");
    reveal_strlit("\"'");
    let core = "name"@ + blank.1 + seq!['='] + blank.2 + seq![quote] + n + seq![quote];
    let line = blank.0 + core + blank.3;
    let last = seq![line] + b;
    let inner = m + last;
    let table = seq![header] + inner;
    lemma_before_table(a, table);
    assert(table.skip(1) =~= inner);
    assert("[project]"@.take(1) =~= "["@);
    lemma_other_keys(m, last);
    text_laws::law_trimmed(blank.0, core, blank.3);
    assert(core[0] == 'n');
    if text::has_prefix(core, "["@) {
        assert(core.take(1)[0] == core[0]);
    }
    assert(core.take(4) =~= "name"@);
    let value = blank.2 + seq![quote] + n + seq![quote];
    let assigned = seq!['='] + value;
    assert(core.skip(4) =~= blank.1 + assigned);
    text_laws::law_trimmed_start(blank.1, assigned);
    assert(assigned.take(1) =~= "="@);
    assert(assigned.skip(1) =~= value);
    let quoted = seq![quote] + n + seq![quote];
    assert(value =~= blank.2 + quoted + Seq::<char>::empty());
    text_laws::law_trimmed(blank.2, quoted, Seq::empty());
    let set = "\"'"@;
    assert(set[0] == '"' && set[1] == '\'');
    assert(set.contains(quote));
    assert forall|c: char| set.contains(c) implies c == '"' || c == '\'' by {
        let k = set.index_of(c);
        assert(set[k] == c);
    }
    text_laws::law_trimmed_of(seq![quote], n, seq![quote], set);
    assert(last[0] == line);
}

/// A name outside the `[project]` table is not the project's, and a table
/// without one gives none.
pub proof fn law_no_project_name(a: Seq<Seq<char>>, header: Seq<char>, rest: Seq<Seq<char>>)
    requires
        text::has_prefix(text::trimmed(header), "["@),
        text::trimmed(header) != "[project]"@,
    ensures
        (forall|i: int| 0 <= i < a.len() ==> text::trimmed(#[trigger] a[i]) != "[project]"@)
            ==> python::project_name(a, false) is None,
        python::project_name(seq![header] + rest, true) == python::project_name(rest, false),
{
    let s = seq![header] + rest;
    assert(s.skip(1) =~= rest);
    if forall|i: int| 0 <= i < a.len() ==> text::trimmed(#[trigger] a[i]) != "[project]"@ {
        lemma_before_table(a, Seq::empty());
        assert(a + Seq::<Seq<char>>::empty() =~= a);
    }
}

/// Whether a symbol is defined in the document of `path`: an occurrence with the
/// role of a definition stands at its line, from its first column to its last.
pub open spec fn is_defined_at(
    docs: Seq<index::DocumentView>,
    path: Seq<char>,
    symbol: Seq<char>,
    range: Seq<i32>,
) -> bool {
    exists|d: int, i: int|
        0 <= d < docs.len() && 0 <= i < docs[d].occurrences.len() && ({
            let o = #[trigger] docs[d].occurrences[i];
            &&& docs[d].relative_path == path
            &&& o.symbol == symbol
            &&& o.symbol_roles == 1
            &&& o.range == range
        })
}

/// A range as an index holds it: the line, the first column and the last.
pub open spec fn on_line(span: (u32, u32, u32)) -> Seq<i32> {
    seq![span.0 as i32, span.1 as i32, span.2 as i32]
}

/// What is emitted with a place is defined at that place, in the document of its
/// path.
pub proof fn law_placed(language: Seq<char>, es: Seq<EmissionView>, m: int, range: Seq<i32>)
    requires
        0 <= m < es.len(),
        es[m].range == Some(range),
    ensures
        is_defined_at(companion::documents_of(language, es), es[m].path, es[m].symbol, range),
{
    let docs = companion::documents_of(language, es);
    companion::law_documents_cover(language, es);
    let d = choose|d: int|
        0 <= d < docs.len() && (#[trigger] docs[d]).relative_path == es[m].path
            && docs[d].symbols.contains(companion::emitted_symbol(es[m]));
    let path = companion::emitted_paths(es)[d];
    companion::law_document_symbols(language, path, es, es[m]);
    assert(es.contains(es[m]));
    let o = companion::definition_at(es[m].symbol, range);
    let i = docs[d].occurrences.index_of(o);
    assert(docs[d].occurrences[i] == o);
}

/// Symbols are recorded in order, each under all of its keys.
pub proof fn law_keyed(
    symbols: Seq<Seq<char>>,
    s: Seq<char>,
    keys: spec_fn(Seq<char>) -> Seq<Seq<char>>,
    i: int,
)
    ensures
        lookup::keyed(Seq::empty(), keys).len() == 0,
        ({
            let (before, after) = (
                lookup::keyed(symbols, keys),
                lookup::keyed(symbols.push(s), keys),
            );
            &&& after.len() == before.len() + keys(s).len()
            &&& after.take(before.len() as int) == before
            &&& 0 <= i < keys(s).len() ==> after[before.len() + i] == (keys(s)[i], s)
        }),
{
    let (before, after) = (lookup::keyed(symbols, keys), lookup::keyed(symbols.push(s), keys));
    assert(symbols.push(s).drop_last() =~= symbols);
    assert(after.take(before.len() as int) =~= before);
}

} // verus!
