//! JavaScript symbols for the Node.js native addons among C and C++ sources.
//!
//! The input index gives the exact symbol strings that scip-clang assigned to
//! each C and C++ function, which the JavaScript symbols link to. The
//! JavaScript names come from the registrations in the sources.

use crate::companion;
use crate::companion::Emission;
use crate::index;
use crate::index::{Index, IndexError};
use crate::lookup;
use crate::paths;
use crate::symbol;
use crate::symbol::{Descriptor, Suffix};
use crate::text;
use scan::{JsExport, JsExportKind, ScanResult};
use vstd::prelude::*;

pub mod laws;
pub mod scan;

pub use crate::companion::{AugmentOutcome, AugmentStats};

verus! {

/// Options for [`augment_file`].
#[derive(Debug)]
pub struct AugmentOptions {
    /// Source tree to scan for C and C++ files. Defaults to the input index's
    /// project root.
    pub source_root: Option<String>,
    /// npm package name. Falls back to the name in `package.json`.
    pub js_package: Option<String>,
    /// npm package version. Falls back to the version in `package.json`, then
    /// to that of the first package seen in the input index, then to "0.0.0".
    pub js_version: Option<String>,
}

/// Whether a file or directory is hidden, holds build outputs or holds code
/// of other packages.
pub fn is_hidden_or_build(name: &str) -> (r: bool)
    ensures
        r == {
            ||| name@ == "node_modules"@
            ||| name@ == "deps"@
            ||| name@ == "third_party"@
            ||| paths::hidden_or_build(name@)
        },
{
    text::str_eq(name, "node_modules") || text::str_eq(name, "deps") || text::str_eq(
        name,
        "third_party",
    ) || paths::is_hidden_or_build(name)
}

/// The value of the first field `key` of a JSON text, if it is a string that
/// is not empty. The value ends at the first quote.
pub open spec fn json_field(doc: Seq<char>, key: Seq<char>) -> Option<Seq<char>> {
    let needle = "\""@ + key + "\""@;
    match text::first_index(doc, needle) {
        Some(i) => match text::after_prefix(
            text::trimmed_start(doc.skip(i + needle.len())),
            ":"@,
        ) {
            Some(rest) => match text::after_prefix(text::trimmed_start(rest), "\""@) {
                Some(value) => match text::first_index(value, "\""@) {
                    Some(end) => if end > 0 {
                        Some(value.take(end))
                    } else {
                        None
                    },
                    None => None,
                },
                None => None,
            },
            None => None,
        },
        None => None,
    }
}

/// The value of the first field `key` of a JSON text. Fields of nested
/// objects count too, but the important fields of a `package.json` come
/// early.
pub fn extract_json_field(doc: &str, key: &str) -> (r: Option<String>)
    ensures
        text::opt_view(r) == json_field(doc@, key@),
{
    let chars = text::chars_of(doc);
    let n: usize = chars.len();
    let head = text::concat("\"", key);
    let needle = text::chars_of(text::concat(head.as_str(), "\"").as_str());
    let start = match text::find_chars(&chars, &needle) {
        Some(i) => i + needle.len(),
        None => {
            return None;
        },
    };
    let rest = &chars[start..n];
    assert(rest@ =~= chars@.skip(start as int));
    let rest = match text::strip_prefix(text::trim_start(rest), ":") {
        Some(rest) => rest,
        None => {
            return None;
        },
    };
    let value = match text::strip_prefix(text::trim_start(rest), "\"") {
        Some(value) => value,
        None => {
            return None;
        },
    };
    match text::find(value, "\"") {
        Some(end) => if end > 0 {
            let inner = &value[0..end];
            assert(inner@ =~= value@.take(end as int));
            Some(text::string_of(inner))
        } else {
            None
        },
        None => None,
    }
}

/// The names under which a symbol is looked up. For
/// `cxx . . $ Connection#Connect(<hash>).` these are `Connection#Connect`,
/// `Connection::Connect` and `Connect`.
pub open spec fn lookup_keys(symbol: Seq<char>) -> Seq<Seq<char>> {
    match symbol::global_descriptors(symbol) {
        Some(d) => {
            let core = symbol::descriptor_core(d);
            let tail = text::after_last_of(core, "#/:"@);
            if core.len() == 0 {
                Seq::empty()
            } else {
                seq![core] + (if core.contains('#') {
                    seq![text::replaced(core, "#"@, "::"@)]
                } else {
                    Seq::empty()
                }) + (if tail != core {
                    seq![tail]
                } else {
                    Seq::empty()
                })
            }
        },
        None => Seq::empty(),
    }
}

/// The names under which a symbol is looked up.
pub fn symbol_lookup_keys(symbol: &str) -> (r: Vec<String>)
    ensures
        text::strings_view(r@) == lookup_keys(symbol@),
{
    let mut keys: Vec<String> = Vec::new();
    assert(text::strings_view(keys@) =~= Seq::empty());
    let d = match symbol::descriptor_text(symbol) {
        Some(d) => d,
        None => {
            return keys;
        },
    };
    let core = symbol::strip_descriptor_trailer(d.as_str());
    let chars = text::chars_of(core.as_str());
    if chars.len() == 0 {
        return keys;
    }
    keys.push(core);
    let ghost first = text::strings_view(keys@);
    assert(first =~= seq![core@]);
    if text::has_char(&chars, '#') {
        proof {
            reveal_strlit("#");
        }
        let scoped = text::replace(&chars, "#", "::");
        keys.push(text::string_of(&scoped));
        assert(text::strings_view(keys@) =~= first.push(scoped@));
    }
    let ghost second = text::strings_view(keys@);
    let tail = text::tail_after_any(&chars, "#/:");
    let tail = text::string_of(tail);
    if !text::is_text(&chars, tail.as_str()) {
        keys.push(tail);
        assert(text::strings_view(keys@) =~= second.push(tail@));
    }
    assert(text::strings_view(keys@) =~= lookup_keys(symbol@));
    keys
}

/// Looks up C and C++ symbols by identifier.
///
/// scip-clang encodes free functions as `cxx . . $ <name>(<hash>).` and class
/// methods as `cxx . . $ <Class>#<Method>(<hash>).`. A method is found by its
/// qualified name in either spelling, and by its bare name.
#[derive(Debug)]
pub struct CSymbolLookup {
    table: lookup::SymbolTable,
}

impl View for CSymbolLookup {
    type V = Seq<(Seq<char>, Seq<char>)>;

    closed spec fn view(&self) -> Seq<(Seq<char>, Seq<char>)> {
        self.table@
    }
}

/// The symbols of documents under their lookup keys.
pub open spec fn node_entries(docs: Seq<index::DocumentView>) -> Seq<(Seq<char>, Seq<char>)> {
    lookup::keyed(lookup::global_symbols(docs), |s: Seq<char>| lookup_keys(s))
}

/// The symbol of an identifier: looked up as it is, else with `#` for `::`,
/// else by what follows its last `::`.
pub open spec fn find_symbol(entries: Seq<(Seq<char>, Seq<char>)>, ident: Seq<char>) -> Option<
    Seq<char>,
> {
    text::or_else(
        lookup::least_symbol(entries, ident),
        text::or_else(
            lookup::least_symbol(entries, text::replaced(ident, "::"@, "#"@)),
            lookup::least_symbol(entries, text::after_last(ident, "::"@)),
        ),
    )
}

impl CSymbolLookup {
    /// The symbols of an index under their lookup keys.
    pub fn from_index(index: &Index) -> (r: Self)
        ensures
            r@ == node_entries(index@.documents),
    {
        let symbols = lookup::collect_symbols(index);
        let ghost all = lookup::refs_view(symbols@);
        let ghost keys_of = |s: Seq<char>| lookup_keys(s);
        let mut table = lookup::SymbolTable::new();
        let mut i: usize = 0;
        assert(table@ =~= lookup::keyed(all.take(0), keys_of));
        while i < symbols.len()
            invariant
                0 <= i <= symbols@.len(),
                all == lookup::refs_view(symbols@),
                keys_of == (|s: Seq<char>| lookup_keys(s)),
                table@ == lookup::keyed(all.take(i as int), keys_of),
            decreases symbols.len() - i,
        {
            let s = symbols[i];
            let ghost sym = s@;
            let ghost pair = |k: Seq<char>| (k, sym);
            let ghost before = table@;
            assert(all[i as int] == s@);
            assert(all.take(i + 1).drop_last() =~= all.take(i as int));
            let keys = symbol_lookup_keys(s.as_str());
            let ghost kv = text::strings_view(keys@);
            let mut k: usize = 0;
            assert(before + kv.take(0).map_values(pair) =~= before);
            while k < keys.len()
                invariant
                    0 <= k <= keys@.len(),
                    kv == text::strings_view(keys@),
                    sym == s@,
                    pair == (|k: Seq<char>| (k, sym)),
                    table@ =~= before + kv.take(k as int).map_values(pair),
                decreases keys.len() - k,
            {
                assert(kv[k as int] == keys@[k as int]@);
                table.record(keys[k].clone(), s.as_str());
                k += 1;
                assert(kv.take(k as int).map_values(pair) =~= kv.take(k - 1).map_values(pair).push(
                    (kv[k - 1], sym),
                ));
            }
            assert(kv.take(k as int) =~= kv);
            i += 1;
        }
        assert(all.take(i as int) =~= all);
        CSymbolLookup { table }
    }

    /// The symbol of an identifier.
    pub fn find(&self, ident: &str) -> (r: Option<&str>)
        ensures
            text::opt_str_view(r) == find_symbol(self@, ident@),
    {
        let found = self.table.find(ident);
        if found.is_some() {
            return found;
        }
        proof {
            reveal_strlit("::");
        }
        let chars = text::chars_of(ident);
        let normalised = text::string_of(&text::replace(&chars, "::", "#"));
        let found = self.table.find(normalised.as_str());
        if found.is_some() {
            return found;
        }
        let tail = text::string_of(text::tail_after(&chars, "::"));
        self.table.find(tail.as_str())
    }
}

/// The package that JavaScript symbols belong to.
pub open spec fn package_view(package: Seq<char>, version: Seq<char>) -> symbol::PackageView {
    symbol::PackageView { scheme: "scip-typescript"@, manager: "npm"@, name: package, version }
}

/// The symbol of a member of a module.
pub open spec fn member_symbol(
    package: Seq<char>,
    version: Seq<char>,
    module: Seq<char>,
    name: Seq<char>,
    suffix: Suffix,
) -> Seq<char> {
    symbol::formatted(
        package_view(package, version),
        seq![
            symbol::DescriptorView { name: module, suffix: Suffix::Namespace },
            symbol::DescriptorView { name, suffix },
        ],
    )
}

/// The symbol of a member of a module.
fn format_member(package: &str, version: &str, module: &str, name: &str, suffix: Suffix) -> (r:
    String)
    ensures
        r@ == member_symbol(package@, version@, module@, name@, suffix),
{
    let mut ds: Vec<Descriptor> = Vec::new();
    symbol::push_name(&mut ds, module, Suffix::Namespace);
    symbol::push_name(&mut ds, name, suffix);
    assert(symbol::descriptor_views(ds@) =~= seq![
        symbol::DescriptorView { name: module@, suffix: Suffix::Namespace },
        symbol::DescriptorView { name: name@, suffix },
    ]);
    symbol::format_symbol("scip-typescript", "npm", package, version, ds)
}

/// The symbol of a module.
pub fn js_module_symbol(package: &str, version: &str, module_name: &str) -> (r: String)
    ensures
        r@ == member_symbol(package@, version@, module_name@, "__init__"@, Suffix::Meta),
{
    format_member(package, version, module_name, "__init__", Suffix::Meta)
}

/// The symbol of an export of a module.
pub fn js_export_symbol(package: &str, version: &str, module_name: &str, name: &str) -> (r: String)
    ensures
        r@ == member_symbol(package@, version@, module_name@, name@, Suffix::Method),
{
    format_member(package, version, module_name, name, Suffix::Method)
}

/// The document that a module's symbol stands in: that of the first export,
/// or one named after the module where there are no exports.
pub open spec fn home_of(module: Seq<char>, exports: Seq<scan::JsExportView>) -> Seq<char> {
    if exports.len() > 0 {
        exports[0].relative_path
    } else {
        module + ".js"@
    }
}

/// The symbol that is emitted for a module. It has no place of definition.
pub open spec fn module_emission(
    package: Seq<char>,
    version: Seq<char>,
    entries: Seq<(Seq<char>, Seq<char>)>,
    module: Seq<char>,
    found: scan::ScanView,
) -> companion::EmissionView {
    companion::EmissionView {
        path: home_of(module, found.exports),
        symbol: member_symbol(package, version, module, "__init__"@, Suffix::Meta),
        display_name: module,
        kind: index::KIND_MODULE,
        target: match found.module_init {
            Some(init) => find_symbol(entries, init),
            None => None,
        },
        range: None,
    }
}

/// The symbol that is emitted for an export of the module `module`.
pub open spec fn export_emission(
    package: Seq<char>,
    version: Seq<char>,
    entries: Seq<(Seq<char>, Seq<char>)>,
    module: Seq<char>,
    e: scan::JsExportView,
) -> companion::EmissionView {
    companion::EmissionView {
        path: e.relative_path,
        symbol: member_symbol(package, version, module, e.js_name, Suffix::Method),
        display_name: e.js_name,
        kind: match e.kind {
            JsExportKind::Function => index::KIND_FUNCTION,
            JsExportKind::Method => index::KIND_METHOD,
        },
        target: if e.c_name.len() > 0 {
            find_symbol(entries, e.c_name)
        } else {
            None
        },
        range: Some(companion::span_range(e.name_span)),
    }
}

/// The symbols that are emitted: the module's, if it has a name, then those
/// of the exports. Exports without a module belong to one named after the
/// package.
pub open spec fn emissions(
    package: Seq<char>,
    version: Seq<char>,
    entries: Seq<(Seq<char>, Seq<char>)>,
    found: scan::ScanView,
) -> Seq<companion::EmissionView> {
    let (head, module) = match found.module_name {
        Some(module) => (seq![module_emission(package, version, entries, module, found)], module),
        None => (Seq::empty(), package),
    };
    head + found.exports.map_values(
        |e: scan::JsExportView| export_emission(package, version, entries, module, e),
    )
}

/// The companion of `input` for what a scan found.
pub open spec fn js_companion(
    input: index::IndexView,
    package: Seq<char>,
    version: Seq<char>,
    found: scan::ScanView,
) -> index::IndexView {
    index::IndexView {
        metadata: companion::inherited(input.metadata, "scip-node-addon-augment"@),
        documents: companion::documents_of(
            "JavaScript"@,
            emissions(package, version, node_entries(input.documents), found),
        ),
    }
}

/// The symbol of an identifier, as a string of its own.
fn find_target(table: &CSymbolLookup, ident: &str) -> (r: Option<String>)
    ensures
        text::opt_view(r) == find_symbol(table@, ident@),
{
    match table.find(ident) {
        Some(s) => Some(s.to_string()),
        None => None,
    }
}

/// The symbol that is emitted for a module.
fn emit_module(
    package: &str,
    version: &str,
    module: &str,
    scan: &ScanResult,
    table: &CSymbolLookup,
) -> (r: Emission)
    ensures
        r@ == module_emission(package@, version@, table@, module@, scan@),
{
    let path = if scan.exports.len() > 0 {
        assert(scan@.exports[0] == scan.exports@[0]@);
        scan.exports[0].relative_path.clone()
    } else {
        text::concat(module, ".js")
    };
    let target = match &scan.module_init {
        Some(init) => find_target(table, init.as_str()),
        None => None,
    };
    Emission {
        path,
        symbol: js_module_symbol(package, version, module),
        display_name: module.to_string(),
        kind: index::KIND_MODULE,
        target,
        range: None,
    }
}

/// The symbol that is emitted for an export of the module `module`.
fn emit_export(
    e: &JsExport,
    package: &str,
    version: &str,
    module: &str,
    table: &CSymbolLookup,
) -> (r: Emission)
    ensures
        r@ == export_emission(package@, version@, table@, module@, e@),
{
    let kind = match e.kind {
        JsExportKind::Function => index::KIND_FUNCTION,
        JsExportKind::Method => index::KIND_METHOD,
    };
    let target = if text::is_empty_text(e.c_name.as_str()) {
        None
    } else {
        find_target(table, e.c_name.as_str())
    };
    let r = Emission {
        path: e.relative_path.clone(),
        symbol: js_export_symbol(package, version, module, e.js_name.as_str()),
        display_name: e.js_name.clone(),
        kind,
        target,
        range: Some(companion::range_of(e.name_span)),
    };
    assert(r@ =~= export_emission(package@, version@, table@, module@, e@));
    r
}

/// The companion of `input` for what a scan found.
pub fn build_output(input: &Index, js_package: &str, js_version: &str, scan: &ScanResult) -> (r:
    Index)
    ensures
        r@ == js_companion(input@, js_package@, js_version@, scan@),
        companion::are_unsigned(r@.documents),
{
    let table = CSymbolLookup::from_index(input);
    let ghost found = scan@;
    let mut es: Vec<Emission> = Vec::new();
    assert(companion::emission_views(es@) =~= Seq::empty());
    let module = match &scan.module_name {
        Some(module) => {
            let emission = emit_module(js_package, js_version, module.as_str(), scan, &table);
            let ghost ev = emission@;
            es.push(emission);
            assert(companion::emission_views(es@) =~= seq![ev]);
            module.as_str()
        },
        None => js_package,
    };
    let ghost head = companion::emission_views(es@);
    let ghost all = found.exports;
    let ghost make = |e: scan::JsExportView|
        export_emission(js_package@, js_version@, table@, module@, e);
    let mut i: usize = 0;
    assert(head + all.take(0).map_values(make) =~= head);
    while i < scan.exports.len()
        invariant
            0 <= i <= scan.exports@.len(),
            all == scan@.exports,
            make == (|e: scan::JsExportView|
                export_emission(js_package@, js_version@, table@, module@, e)),
            companion::emission_views(es@) =~= head + all.take(i as int).map_values(make),
        decreases scan.exports.len() - i,
    {
        let ghost had = companion::emission_views(es@);
        assert(all[i as int] == scan.exports@[i as int]@);
        let emission = emit_export(&scan.exports[i], js_package, js_version, module, &table);
        let ghost ev = emission@;
        es.push(emission);
        assert(companion::emission_views(es@) =~= had.push(ev));
        i += 1;
        assert(all.take(i as int).map_values(make) =~= all.take(i - 1).map_values(make).push(
            make(all[i - 1]),
        ));
    }
    assert(all.take(i as int) =~= all);
    assert(companion::emission_views(es@) =~= emissions(
        js_package@,
        js_version@,
        table@,
        found,
    ));
    Index {
        metadata: companion::inherit_metadata(&input.metadata, "scip-node-addon-augment"),
        documents: companion::build_documents("JavaScript", &es),
    }
}

/// A field of an optional `package.json`.
pub open spec fn package_field(doc: Option<&str>, key: Seq<char>) -> Option<Seq<char>> {
    match doc {
        Some(doc) => json_field(doc@, key),
        None => None,
    }
}

/// The version of the npm package: the one given, else the one in
/// `package.json`, else that of the first package of the input index, else
/// "0.0.0".
pub open spec fn chosen_version(
    given: Option<Seq<char>>,
    package_json: Option<&str>,
    docs: Seq<index::DocumentView>,
) -> Seq<char> {
    match text::or_else(
        given,
        text::or_else(
            package_field(package_json, "version"@),
            companion::first_version(docs, true, true),
        ),
    ) {
        Some(version) => version,
        None => "0.0.0"@,
    }
}

/// Whether the result of an augmentation is the right one; see
/// [`augment_index`].
pub open spec fn is_augmented(
    r: (AugmentOutcome, Option<Vec<u8>>),
    input: index::IndexView,
    scan: scan::ScanView,
    opts: AugmentOptions,
    package_json: Option<&str>,
) -> bool {
    match text::or_else(text::opt_view(opts.js_package), package_field(package_json, "name"@)) {
        Some(package) if scan.exports.len() > 0 || scan.module_name is Some => companion::is_written(
            r,
            js_companion(
                input,
                package,
                chosen_version(text::opt_view(opts.js_version), package_json, input.documents),
                scan,
            ),
            scan.exports.len(),
        ),
        _ => r == (AugmentOutcome::NoExports, None::<Vec<u8>>),
    }
}

/// Produces the JavaScript companion of a C or C++ index for what a scan of
/// its sources found. `package_json` is the text of the source root's
/// `package.json`.
///
/// Nothing is produced when the scan found neither exports nor a module, or
/// when no npm package is given or named.
pub fn augment_index(
    input: &Index,
    scan: &ScanResult,
    opts: &AugmentOptions,
    package_json: Option<&str>,
) -> (r: (AugmentOutcome, Option<Vec<u8>>))
    ensures
        is_augmented(r, input@, scan@, *opts, package_json),
{
    if scan.exports.len() == 0 && scan.module_name.is_none() {
        return (AugmentOutcome::NoExports, None);
    }
    let package = match &opts.js_package {
        Some(p) => p.clone(),
        None => {
            let named = match package_json {
                Some(doc) => extract_json_field(doc, "name"),
                None => None,
            };
            match named {
                Some(p) => p,
                // A C project that happens to register names with Node.js is
                // not necessarily a package with a name.
                None => {
                    return (AugmentOutcome::NoExports, None);
                },
            }
        },
    };
    let version = match &opts.js_version {
        Some(v) => v.clone(),
        None => {
            let named = match package_json {
                Some(doc) => extract_json_field(doc, "version"),
                None => None,
            };
            match named {
                Some(v) => v,
                None => match companion::first_package_version(input, true, true) {
                    Some(v) => v,
                    None => "0.0.0".to_string(),
                },
            }
        },
    };
    companion::finish(
        build_output(input, package.as_str(), version.as_str(), scan),
        scan.exports.len(),
    )
}

/// Produces the JavaScript companion of the index that protobuf bytes hold; see
/// [`augment_index`].
pub fn augment_file(
    input: &[u8],
    scan: &ScanResult,
    opts: &AugmentOptions,
    package_json: Option<&str>,
) -> (r: Result<(AugmentOutcome, Option<Vec<u8>>), IndexError>)
    ensures
        index::index_message(input@) is None ==> r == Err::<
            (AugmentOutcome, Option<Vec<u8>>),
            IndexError,
        >(IndexError::Parse),
        index::index_message(input@) matches Some(m) ==> {
            &&& r matches Ok(done)
            &&& is_augmented(done, index::read_part(m), scan@, *opts, package_json)
        },
{
    match index::decode(input) {
        Ok(index) => Ok(augment_index(&index, scan, opts, package_json)),
        Err(e) => Err(e),
    }
}

/// The symbol of a method of a class of the global namespace, as scip-clang
/// writes it.
pub open spec fn method_symbol(class: Seq<char>, method: Seq<char>, hash: Seq<char>) -> Seq<char> {
    "cxx . . $ "@ + (class + "#"@ + method + "("@ + hash + ")."@)
}

/// Whether a name is not empty and needs no quotes in a symbol.
pub open spec fn is_simple_name(name: Seq<char>) -> bool {
    name.len() > 0 && forall|i: int| 0 <= i < name.len() ==> symbol::is_simple(#[trigger] name[i])
}

/// What follows the only character of a set is the rest.
proof fn lemma_after_last_of(head: Seq<char>, tail: Seq<char>, set: Seq<char>)
    requires
        head.len() > 0,
        set.contains(head.last()),
        forall|i: int| 0 <= i < tail.len() ==> !set.contains(#[trigger] tail[i]),
    ensures
        text::after_last_of(head + tail, set) == tail,
    decreases tail.len(),
{
    let all = head + tail;
    if tail.len() == 0 {
        assert(all =~= head);
    } else {
        assert(all.drop_last() =~= head + tail.drop_last());
        assert forall|i: int| 0 <= i < tail.drop_last().len() implies !set.contains(
            #[trigger] tail.drop_last()[i],
        ) by {
            assert(tail.drop_last()[i] == tail[i]);
        }
        lemma_after_last_of(head, tail.drop_last(), set);
        assert(all.last() == tail[tail.len() - 1]);
        assert(tail.drop_last().push(tail.last()) =~= tail);
    }
}

/// What stands before the first parenthesis.
proof fn lemma_before_paren(head: Seq<char>, tail: Seq<char>)
    requires
        forall|i: int| 0 <= i < head.len() ==> (#[trigger] head[i]) != '(',
        tail.len() > 0,
        tail[0] == '(',
    ensures
        symbol::before_char(head + tail, '(') == head,
    decreases head.len(),
{
    let all = head + tail;
    if head.len() == 0 {
        assert(all =~= tail);
    } else {
        assert(all[0] == head[0]);
        assert(all.skip(1) =~= head.skip(1) + tail);
        assert forall|i: int| 0 <= i < head.skip(1).len() implies (#[trigger] head.skip(1)[i])
            != '(' by {
            assert(head.skip(1)[i] == head[i + 1]);
        }
        lemma_before_paren(head.skip(1), tail);
        assert(seq![head[0]] + head.skip(1) =~= head);
    }
}

/// A method is looked up by its qualified name in either spelling and by its
/// bare name, and by nothing else.
pub proof fn law_method_keys(class: Seq<char>, method: Seq<char>, hash: Seq<char>)
    requires
        is_simple_name(class),
        is_simple_name(method),
    ensures
        lookup_keys(method_symbol(class, method, hash)) == seq![
            class + "#"@ + method,
            class + "::"@ + method,
            method,
        ],
{
    let core = class + "#"@ + method;
    let tail = "("@ + hash + ")."@;
    let d = class + "#"@ + method + "("@ + hash + ")."@;
    reveal_strlit("#");
    reveal_strlit("(");
    reveal_strlit("$ ");
    reveal_strlit(".:!");
    reveal_strlit("#/:");
    assert(d =~= core + tail);
    symbol::lemma_clang_descriptors(d);
    assert(symbol::is_simple(class[0]));
    assert(d[0] == class[0]);
    if class.len() >= 2 {
        assert(d.take(2)[1] == class[1]);
        assert(symbol::is_simple(class[1]));
    } else {
        assert(d.take(2)[1] == '#');
    }
    assert(d.take(2) != "$ "@);
    assert(symbol::global_descriptors(method_symbol(class, method, hash)) == Some(d));
    // The name is what stands before the parenthesis.
    assert(text::trimmed_start_of(d, ".:!"@) == d);
    assert forall|i: int| 0 <= i < core.len() implies (#[trigger] core[i]) != '(' by {
        if i < class.len() {
            assert(symbol::is_simple(class[i]));
        } else if i > class.len() {
            assert(symbol::is_simple(method[i - class.len() - 1]));
        }
    }
    lemma_before_paren(core, tail);
    assert(symbol::descriptor_core(d) == core);
    // With colons for the hash.
    assert(core[class.len() as int] == '#');
    assert forall|i: int| 0 <= i < class.len() implies core[i] != '#' by {
        assert(symbol::is_simple(class[i]));
    }
    text::lemma_first_char(core, "#"@, class.len() as int);
    assert forall|i: int| 0 <= i < method.len() implies method[i] != '#' by {
        assert(symbol::is_simple(method[i]));
    }
    text::lemma_no_char(method, "#"@);
    assert(core.take(class.len() as int) =~= class);
    assert(core.skip(class.len() as int + 1) =~= method);
    assert(text::split_text(method, "#"@) == seq![method]);
    let parts = text::split_text(core, "#"@);
    assert(parts =~= seq![class, method]);
    assert(parts.drop_last() =~= seq![class]);
    assert(text::joined(parts.drop_last(), "::"@) == class);
    assert(text::joined(parts, "::"@) == class + "::"@ + method);
    // The bare name.
    assert("#/:"@.contains('#')) by {
        assert("#/:"@[0] == '#');
    }
    assert forall|i: int| 0 <= i < method.len() implies !"#/:"@.contains(#[trigger] method[i]) by {
        assert(symbol::is_simple(method[i]));
    }
    lemma_after_last_of(class + "#"@, method, "#/:"@);
    assert(method.len() != core.len());
    assert(lookup_keys(method_symbol(class, method, hash)) =~= seq![
        core,
        class + "::"@ + method,
        method,
    ]);
}

/// A method that the index has is found by its qualified name in either
/// spelling and by its bare name.
pub proof fn law_methods_are_found(
    docs: Seq<index::DocumentView>,
    class: Seq<char>,
    method: Seq<char>,
    hash: Seq<char>,
)
    requires
        is_simple_name(class),
        is_simple_name(method),
        lookup::global_symbols(docs).contains(method_symbol(class, method, hash)),
    ensures
        find_symbol(node_entries(docs), class + "::"@ + method) is Some,
        find_symbol(node_entries(docs), class + "#"@ + method) is Some,
        find_symbol(node_entries(docs), method) is Some,
{
    let keys = lookup_keys(method_symbol(class, method, hash));
    law_method_keys(class, method, hash);
    assert(keys[0] == class + "#"@ + method);
    assert(keys[1] == class + "::"@ + method);
    assert(keys[2] == method);
    law_addon_lookup(docs, class + "::"@ + method);
    law_addon_lookup(docs, class + "#"@ + method);
    law_addon_lookup(docs, method);
}

/// What is found for an identifier is a symbol of the index that has the
/// identifier, or one of the forms that stand in for it, as a key.
pub proof fn law_addon_lookup(docs: Seq<index::DocumentView>, ident: Seq<char>)
    ensures
        find_symbol(node_entries(docs), ident) matches Some(s) ==> {
            &&& lookup::global_symbols(docs).contains(s)
            &&& {
                ||| lookup_keys(s).contains(ident)
                ||| lookup_keys(s).contains(text::replaced(ident, "::"@, "#"@))
                ||| lookup_keys(s).contains(text::after_last(ident, "::"@))
            }
        },
        find_symbol(node_entries(docs), ident) is None ==> forall|s: Seq<char>| #[trigger]
            lookup::global_symbols(docs).contains(s) ==> !lookup_keys(s).contains(ident),
{
    let keys = |s: Seq<char>| lookup_keys(s);
    let symbols = lookup::global_symbols(docs);
    lookup::law_lookup(symbols, keys, ident);
    lookup::law_lookup(symbols, keys, text::replaced(ident, "::"@, "#"@));
    lookup::law_lookup(symbols, keys, text::after_last(ident, "::"@));
    assert forall|s: Seq<char>| #[trigger] symbols.contains(s) implies keys(s) == lookup_keys(s) by {}
}

/// Each export adds exactly one symbol and its definition to the document of
/// its file. The symbol is linked to the native symbol that is found for the
/// export, if there is one.
pub proof fn law_export_adds_one(
    package: Seq<char>,
    version: Seq<char>,
    entries: Seq<(Seq<char>, Seq<char>)>,
    module: Seq<char>,
    e: scan::JsExportView,
    doc: index::DocumentView,
)
    ensures
        companion::adds_one(
            doc,
            companion::with_emission(doc, export_emission(package, version, entries, module, e)),
            e.js_name,
            e.name_span,
            if e.c_name.len() > 0 {
                find_symbol(entries, e.c_name)
            } else {
                None
            },
        ),
        export_emission(package, version, entries, module, e).path == e.relative_path,
{
    companion::law_emission_adds_one(
        doc,
        export_emission(package, version, entries, module, e),
        e.name_span,
    );
}

/// The companion links to nothing but symbols of the input index.
pub proof fn law_links_native(
    input: index::IndexView,
    package: Seq<char>,
    version: Seq<char>,
    found: scan::ScanView,
)
    ensures
        companion::all_link_into(
            js_companion(input, package, version, found).documents,
            lookup::global_symbols(input.documents),
        ),
{
    let natives = lookup::global_symbols(input.documents);
    let es = emissions(package, version, node_entries(input.documents), found);
    let head: int = if found.module_name is Some {
        1
    } else {
        0
    };
    assert forall|i: int| 0 <= i < es.len() implies ((#[trigger] es[i]).target matches Some(t)
        ==> natives.contains(t)) by {
        if i < head {
            if let Some(init) = found.module_init {
                law_addon_lookup(input.documents, init);
            }
        } else {
            law_addon_lookup(input.documents, found.exports[i - head].c_name);
        }
    }
    companion::law_links("JavaScript"@, es, natives);
}

} // verus!
