//! Python symbols for the PyO3 exports of Rust sources.
//!
//! `#[pyfunction]`, `#[pymodule]`, `#[pyclass]` and `#[pymethods]` items each
//! become a Python symbol. The input index gives the symbol string of each
//! Rust item, which the Python symbols link to.

use crate::companion;
use crate::companion::Emission;
use crate::index;
use crate::index::Index;
use crate::lookup;
use crate::lookup::SymbolTable;
use crate::python;
use crate::symbol;
use crate::symbol::Suffix;
use crate::text;
use scan::{PyExport, PyExportKind, ScanResult};
use vstd::prelude::*;

pub mod laws;
pub mod rust;
pub mod scan;

pub use crate::companion::{AugmentOutcome, AugmentStats};

verus! {

/// Options for [`augment_file`].
#[derive(Debug)]
pub struct AugmentOptions {
    /// Source tree to scan for Rust files. Defaults to the input index's
    /// project root.
    pub source_root: Option<String>,
    /// Python distribution name. Falls back to `[project].name` in
    /// `pyproject.toml`, then to the first `RustExtension("<name>...")` in
    /// `setup.py`.
    pub python_package: Option<String>,
    /// Python distribution version. Defaults to the version of the first Rust
    /// package seen in the input index, or "0.0.0".
    pub python_version: Option<String>,
}

/// Why an augmentation failed.
#[derive(Debug, Clone, Copy, PartialEq, Eq, Structural)]
pub enum AugmentError {
    /// The input holds no SCIP index.
    Parse,
    /// There are exports, but no Python package is given or named.
    NoPackage,
}

/// The first segment of the dotted name in the first `RustExtension(...)` of a
/// `setup.py` whose argument starts with a quoted, named module. An extension
/// without an argument, or with a quote that is never closed, ends the search.
pub open spec fn extension_package(s: Seq<char>) -> Option<Seq<char>>
    decreases s.len(),
{
    match text::first_index(s, "RustExtension("@) {
        Some(i) => {
            proof {
                text::lemma_first_index(s, "RustExtension("@);
                reveal_strlit("RustExtension(");
            }
            let rest = s.skip(i + "RustExtension("@.len());
            let after = text::trimmed_start(rest);
            if after.len() == 0 {
                None
            } else if after[0] != '"' && after[0] != '\'' {
                extension_package(rest)
            } else {
                let dotted = symbol::before_char(after.skip(1), after[0]);
                let head = symbol::before_char(dotted, '.');
                if dotted.len() == after.len() - 1 {
                    None
                } else if head.len() > 0 {
                    Some(head)
                } else {
                    extension_package(rest)
                }
            }
        },
        None => None,
    }
}

/// The package that the first Rust extension of a `setup.py` belongs to.
pub fn extract_setup_py_package(doc: &str) -> (r: Option<String>)
    ensures
        text::opt_view(r) == extension_package(doc@),
{
    let chars = text::chars_of(doc);
    let n: usize = chars.len();
    let mut start: usize = 0;
    proof {
        reveal_strlit("RustExtension(");
        assert(chars@.skip(0) =~= chars@);
    }
    while start < n
        invariant
            start <= n,
            n == chars@.len(),
            "RustExtension("@.len() == 14,
            extension_package(doc@) == extension_package(chars@.skip(start as int)),
        decreases n - start,
    {
        let from = &chars[start..n];
        assert(from@ =~= chars@.skip(start as int));
        let next: usize = match text::find(from, "RustExtension(") {
            Some(i) => start + i + 14,
            None => {
                return None;
            },
        };
        let rest = &chars[next..n];
        assert(rest@ =~= chars@.skip(next as int));
        assert(rest@ =~= from@.skip(next - start));
        let after = text::trim_start(rest);
        let m: usize = after.len();
        if m == 0 {
            return None;
        }
        if after[0] == '"' || after[0] == '\'' {
            let tail = &after[1..m];
            assert(tail@ =~= after@.skip(1));
            assert(tail@.skip(0) =~= tail@);
            let end = symbol::position_of(tail, 0, after[0]);
            if end == m - 1 {
                return None;
            }
            let dotted = &tail[0..end];
            assert(dotted@ =~= tail@.subrange(0, end as int));
            assert(dotted@.skip(0) =~= dotted@);
            let dot = symbol::position_of(dotted, 0, '.');
            if dot > 0 {
                let head = &dotted[0..dot];
                assert(head@ =~= dotted@.subrange(0, dot as int));
                return Some(text::string_of(head));
            }
        }
        start = next;
    }
    proof {
        text::lemma_first_index(chars@.skip(start as int), "RustExtension("@);
    }
    None
}

/// Looks up Rust symbols by the name of their last descriptor.
#[derive(Debug)]
pub struct RustSymbolLookup {
    table: SymbolTable,
}

impl View for RustSymbolLookup {
    type V = Seq<(Seq<char>, Seq<char>)>;

    closed spec fn view(&self) -> Seq<(Seq<char>, Seq<char>)> {
        self.table@
    }
}

/// The symbols of documents under the names of their last descriptors.
pub open spec fn rust_entries(docs: Seq<index::DocumentView>) -> Seq<(Seq<char>, Seq<char>)> {
    lookup::keyed(
        lookup::global_symbols(docs),
        |s: Seq<char>| lookup::opt_key(symbol::terminal_name(s, true)),
    )
}

impl RustSymbolLookup {
    /// The symbols of an index under the names of their last descriptors.
    pub fn from_index(index: &Index) -> (r: Self)
        ensures
            r@ == rust_entries(index@.documents),
    {
        let symbols = lookup::collect_symbols(index);
        let ghost all = lookup::refs_view(symbols@);
        let ghost keys = |s: Seq<char>| lookup::opt_key(symbol::terminal_name(s, true));
        let mut table = SymbolTable::new();
        let mut i: usize = 0;
        assert(table@ =~= lookup::keyed(all.take(0), keys));
        while i < symbols.len()
            invariant
                0 <= i <= symbols@.len(),
                all == lookup::refs_view(symbols@),
                keys == (|s: Seq<char>| lookup::opt_key(symbol::terminal_name(s, true))),
                table@ == lookup::keyed(all.take(i as int), keys),
            decreases symbols.len() - i,
        {
            let s = symbols[i];
            proof {
                assert(all[i as int] == s@);
                lookup::lemma_keyed_opt(all, keys, i as int, symbol::terminal_name(s@, true));
            }
            if let Some(name) = symbol::terminal_descriptor_name(s.as_str(), true) {
                table.record(name, s.as_str());
            }
            i += 1;
        }
        assert(all.take(i as int) =~= all);
        RustSymbolLookup { table }
    }

    /// The symbol whose last descriptor is `name`.
    pub fn find(&self, name: &str) -> (r: Option<&str>)
        ensures
            text::opt_str_view(r) == lookup::least_symbol(self@, name@),
    {
        self.table.find(name)
    }
}

/// The Python name of the first export of the file at `path`; with `modules`,
/// of the first that is a module.
pub open spec fn first_named(
    exports: Seq<scan::PyExportView>,
    path: Seq<char>,
    modules: bool,
) -> Option<Seq<char>>
    decreases exports.len(),
{
    if exports.len() == 0 {
        None
    } else if exports[0].relative_path == path && (modules ==> exports[0].kind is Module) {
        Some(exports[0].python_name)
    } else {
        first_named(exports.skip(1), path, modules)
    }
}

/// The module that the exports of the file at `path` belong to: the first
/// that it exports, else the one named like its first export.
pub open spec fn module_at(exports: Seq<scan::PyExportView>, path: Seq<char>) -> Option<Seq<char>> {
    text::or_else(first_named(exports, path, true), first_named(exports, path, false))
}

/// The symbol that is emitted for an export of the module `module`.
pub open spec fn export_emission(
    package: Seq<char>,
    version: Seq<char>,
    entries: Seq<(Seq<char>, Seq<char>)>,
    module: Seq<char>,
    e: scan::PyExportView,
) -> companion::EmissionView {
    let dotted = package + "."@ + module;
    companion::EmissionView {
        path: e.relative_path,
        symbol: match e.kind {
            scan::PyExportKindView::Module => python::module_symbol(package, version, dotted),
            scan::PyExportKindView::Function => python::member_symbol(
                package,
                version,
                dotted,
                e.python_name,
                Suffix::Method,
            ),
            scan::PyExportKindView::Class => python::member_symbol(
                package,
                version,
                dotted,
                e.python_name,
                Suffix::Type,
            ),
            scan::PyExportKindView::Method { class } => python::class_method_symbol(
                package,
                version,
                dotted,
                class,
                e.python_name,
            ),
        },
        display_name: e.python_name,
        kind: match e.kind {
            scan::PyExportKindView::Module => index::KIND_MODULE,
            scan::PyExportKindView::Function => index::KIND_FUNCTION,
            scan::PyExportKindView::Class => index::KIND_CLASS,
            scan::PyExportKindView::Method { .. } => index::KIND_METHOD,
        },
        target: lookup::least_symbol(entries, e.rust_name),
        range: Some(companion::span_range(e.name_span)),
    }
}

/// The symbols that are emitted for the exports `es`, which are among `all`.
/// Those of a file whose module has an empty name are left out.
pub open spec fn emissions(
    package: Seq<char>,
    version: Seq<char>,
    entries: Seq<(Seq<char>, Seq<char>)>,
    all: Seq<scan::PyExportView>,
    es: Seq<scan::PyExportView>,
) -> Seq<companion::EmissionView>
    decreases es.len(),
{
    if es.len() == 0 {
        Seq::empty()
    } else {
        let before = emissions(package, version, entries, all, es.drop_last());
        match module_at(all, es.last().relative_path) {
            Some(module) => if module.len() > 0 {
                before.push(export_emission(package, version, entries, module, es.last()))
            } else {
                before
            },
            None => before,
        }
    }
}

/// The companion of `input` for some exports.
pub open spec fn python_companion(
    input: index::IndexView,
    package: Seq<char>,
    version: Seq<char>,
    exports: Seq<scan::PyExportView>,
) -> index::IndexView {
    index::IndexView {
        metadata: companion::inherited(input.metadata, "scip-pyo3-augment"@),
        documents: companion::documents_of(
            "Python"@,
            emissions(package, version, rust_entries(input.documents), exports, exports),
        ),
    }
}

/// The Python name of the first export of the file at `path`; with `modules`,
/// of the first that is a module.
fn find_named<'a>(exports: &'a Vec<PyExport>, path: &str, modules: bool) -> (r: Option<&'a String>)
    ensures
        r matches Some(m) ==> first_named(scan::export_views(exports@), path@, modules) == Some(
            m@,
        ),
        r is None ==> first_named(scan::export_views(exports@), path@, modules) is None,
{
    let ghost all = scan::export_views(exports@);
    let mut i: usize = 0;
    assert(all.skip(0) =~= all);
    while i < exports.len()
        invariant
            0 <= i <= exports@.len(),
            all == scan::export_views(exports@),
            first_named(all, path@, modules) == first_named(all.skip(i as int), path@, modules),
        decreases exports.len() - i,
    {
        assert(all.skip(i as int)[0] == exports@[i as int]@);
        assert(all.skip(i as int).skip(1) =~= all.skip(i + 1));
        let fits = !modules || matches!(exports[i].kind, PyExportKind::Module);
        if fits && text::str_eq(exports[i].relative_path.as_str(), path) {
            return Some(&exports[i].python_name);
        }
        i += 1;
    }
    None
}

/// The symbol that is emitted for an export of the module `module`.
fn emit_export(
    e: &PyExport,
    package: &str,
    version: &str,
    module: &str,
    table: &RustSymbolLookup,
) -> (r: Emission)
    ensures
        r@ == export_emission(package@, version@, table@, module@, e@),
{
    let dotted = python::qualify(package, module);
    let name = e.python_name.as_str();
    let (symbol, kind) = match &e.kind {
        PyExportKind::Module => (
            python::py_module_symbol(package, version, dotted.as_str()),
            index::KIND_MODULE,
        ),
        PyExportKind::Function => (
            python::py_function_symbol(package, version, dotted.as_str(), name),
            index::KIND_FUNCTION,
        ),
        PyExportKind::Class => (
            python::py_class_symbol(package, version, dotted.as_str(), name),
            index::KIND_CLASS,
        ),
        PyExportKind::Method { class } => (
            python::py_method_symbol(package, version, dotted.as_str(), class.as_str(), name),
            index::KIND_METHOD,
        ),
    };
    let target = match table.find(e.rust_name.as_str()) {
        Some(s) => Some(s.to_string()),
        None => None,
    };
    let r = Emission {
        path: e.relative_path.clone(),
        symbol,
        display_name: e.python_name.clone(),
        kind,
        target,
        range: Some(companion::range_of(e.name_span)),
    };
    assert(r@ =~= export_emission(package@, version@, table@, module@, e@));
    r
}

/// The companion of `input` for the exports of a scan.
pub fn build_output(
    input: &Index,
    python_package: &str,
    python_version: &str,
    scan: &ScanResult,
) -> (r: Index)
    ensures
        r@ == python_companion(input@, python_package@, python_version@, scan@),
        companion::are_unsigned(r@.documents),
{
    let table = RustSymbolLookup::from_index(input);
    let ghost all = scan@;
    let mut es: Vec<Emission> = Vec::new();
    let mut i: usize = 0;
    assert(companion::emission_views(es@) =~= emissions(
        python_package@,
        python_version@,
        table@,
        all,
        all.take(0),
    ));
    while i < scan.exports.len()
        invariant
            0 <= i <= scan.exports@.len(),
            all == scan@,
            companion::emission_views(es@) == emissions(
                python_package@,
                python_version@,
                table@,
                all,
                all.take(i as int),
            ),
        decreases scan.exports.len() - i,
    {
        let e = &scan.exports[i];
        let path = e.relative_path.as_str();
        let ghost had = companion::emission_views(es@);
        assert(all[i as int] == e@);
        assert(all.take(i + 1).drop_last() =~= all.take(i as int));
        let module = match find_named(&scan.exports, path, true) {
            Some(m) => Some(m),
            None => find_named(&scan.exports, path, false),
        };
        if let Some(module) = module {
            if !text::is_empty_text(module.as_str()) {
                let emission = emit_export(
                    e,
                    python_package,
                    python_version,
                    module.as_str(),
                    &table,
                );
                let ghost ev = emission@;
                es.push(emission);
                assert(companion::emission_views(es@) =~= had.push(ev));
            }
        }
        i += 1;
    }
    assert(all.take(i as int) =~= all);
    Index {
        metadata: companion::inherit_metadata(&input.metadata, "scip-pyo3-augment"),
        documents: companion::build_documents("Python", &es),
    }
}

/// The distribution that `pyproject.toml` names, else the one that `setup.py`
/// builds Rust extensions for.
pub open spec fn detected_package(pyproject: Option<&str>, setup_py: Option<&str>) -> Option<
    Seq<char>,
> {
    text::or_else(
        match pyproject {
            Some(doc) => python::project_name(text::lines_of(doc@), false),
            None => None,
        },
        match setup_py {
            Some(doc) => extension_package(doc@),
            None => None,
        },
    )
}

/// The distribution that `pyproject.toml` names, else the one that `setup.py`
/// builds Rust extensions for.
pub fn detect_python_package(pyproject: Option<&str>, setup_py: Option<&str>) -> (r: Option<String>)
    ensures
        text::opt_view(r) == detected_package(pyproject, setup_py),
{
    if let Some(doc) = pyproject {
        let named = python::extract_pyproject_name(doc);
        if named.is_some() {
            return named;
        }
    }
    match setup_py {
        Some(doc) => extract_setup_py_package(doc),
        None => None,
    }
}

/// The version of the distribution: the one given, else that of the first
/// package of the input index, else "0.0.0".
pub open spec fn chosen_version(
    given: Option<Seq<char>>,
    docs: Seq<index::DocumentView>,
) -> Seq<char> {
    match text::or_else(given, companion::first_version(docs, false, false)) {
        Some(version) => version,
        None => "0.0.0"@,
    }
}

/// Whether the result of an augmentation is the right one; see
/// [`augment_index`].
pub open spec fn is_augmented(
    r: Result<(AugmentOutcome, Option<Vec<u8>>), AugmentError>,
    input: index::IndexView,
    scan: Seq<scan::PyExportView>,
    opts: AugmentOptions,
    pyproject: Option<&str>,
    setup_py: Option<&str>,
) -> bool {
    if scan.len() == 0 {
        r == Ok::<(AugmentOutcome, Option<Vec<u8>>), AugmentError>(
            (AugmentOutcome::NoExports, None),
        )
    } else {
        match text::or_else(
            text::opt_view(opts.python_package),
            detected_package(pyproject, setup_py),
        ) {
            Some(package) => {
                &&& r matches Ok(done)
                &&& companion::is_written(
                    done,
                    python_companion(
                        input,
                        package,
                        chosen_version(text::opt_view(opts.python_version), input.documents),
                        scan,
                    ),
                    scan.len(),
                )
            },
            None => r == Err::<(AugmentOutcome, Option<Vec<u8>>), AugmentError>(
                AugmentError::NoPackage,
            ),
        }
    }
}

/// Produces the Python companion of a Rust index for the exports of a scan of
/// its sources. `pyproject` and `setup_py` are the texts of the source root's
/// `pyproject.toml` and `setup.py`.
///
/// Nothing is produced when the scan found no exports. With exports, a Python
/// package has to be given or named.
pub fn augment_index(
    input: &Index,
    scan: &ScanResult,
    opts: &AugmentOptions,
    pyproject: Option<&str>,
    setup_py: Option<&str>,
) -> (r: Result<(AugmentOutcome, Option<Vec<u8>>), AugmentError>)
    ensures
        is_augmented(r, input@, scan@, *opts, pyproject, setup_py),
{
    // A plain Rust crate has no exports, and need not name a Python package.
    if scan.exports.len() == 0 {
        return Ok((AugmentOutcome::NoExports, None));
    }
    let given = match &opts.python_package {
        Some(p) => Some(p.clone()),
        None => detect_python_package(pyproject, setup_py),
    };
    let package = match given {
        Some(p) => p,
        None => {
            return Err(AugmentError::NoPackage);
        },
    };
    let version = match &opts.python_version {
        Some(v) => v.clone(),
        None => match companion::first_package_version(input, false, false) {
            Some(v) => v,
            None => "0.0.0".to_string(),
        },
    };
    let output = build_output(input, package.as_str(), version.as_str(), scan);
    Ok(companion::finish(output, scan.exports.len()))
}

/// Produces the Python companion of the index that protobuf bytes hold; see
/// [`augment_index`].
pub fn augment_file(
    input: &[u8],
    scan: &ScanResult,
    opts: &AugmentOptions,
    pyproject: Option<&str>,
    setup_py: Option<&str>,
) -> (r: Result<(AugmentOutcome, Option<Vec<u8>>), AugmentError>)
    ensures
        index::index_message(input@) is None ==> r == Err::<
            (AugmentOutcome, Option<Vec<u8>>),
            AugmentError,
        >(AugmentError::Parse),
        index::index_message(input@) matches Some(m) ==> is_augmented(
            r,
            index::read_part(m),
            scan@,
            *opts,
            pyproject,
            setup_py,
        ),
{
    match index::decode(input) {
        Ok(index) => augment_index(&index, scan, opts, pyproject, setup_py),
        Err(_) => Err(AugmentError::Parse),
    }
}

/// What is found for a Rust name is a symbol of the index whose last
/// descriptor is that name. Nothing is found only if there is none.
pub proof fn law_rust_lookup(docs: Seq<index::DocumentView>, name: Seq<char>)
    ensures
        lookup::least_symbol(rust_entries(docs), name) matches Some(s) ==> {
            &&& lookup::global_symbols(docs).contains(s)
            &&& symbol::terminal_name(s, true) == Some(name)
        },
        lookup::least_symbol(rust_entries(docs), name) is None ==> forall|s: Seq<char>| #[trigger]
            lookup::global_symbols(docs).contains(s) ==> symbol::terminal_name(s, true) != Some(
                name,
            ),
{
    let keys = |s: Seq<char>| lookup::opt_key(symbol::terminal_name(s, true));
    lookup::law_lookup(lookup::global_symbols(docs), keys, name);
    assert forall|s: Seq<char>| #[trigger] lookup::global_symbols(docs).contains(
        s,
    ) && symbol::terminal_name(s, true) == Some(name) implies keys(s).contains(name) by {
        assert(keys(s)[0] == name);
    }
}

/// The targets of the emitted symbols are symbols of the input index.
proof fn lemma_targets(
    package: Seq<char>,
    version: Seq<char>,
    docs: Seq<index::DocumentView>,
    all: Seq<scan::PyExportView>,
    es: Seq<scan::PyExportView>,
)
    ensures
        companion::targets_in(
            emissions(package, version, rust_entries(docs), all, es),
            lookup::global_symbols(docs),
        ),
    decreases es.len(),
{
    if es.len() > 0 {
        lemma_targets(package, version, docs, all, es.drop_last());
        law_rust_lookup(docs, es.last().rust_name);
    }
}

/// Each export adds exactly one symbol and its definition to the document of
/// its file. The symbol is linked to the native symbol that is found for the
/// export, if there is one.
pub proof fn law_export_adds_one(
    package: Seq<char>,
    version: Seq<char>,
    entries: Seq<(Seq<char>, Seq<char>)>,
    module: Seq<char>,
    e: scan::PyExportView,
    doc: index::DocumentView,
)
    ensures
        companion::adds_one(
            doc,
            companion::with_emission(doc, export_emission(package, version, entries, module, e)),
            e.python_name,
            e.name_span,
            lookup::least_symbol(entries, e.rust_name),
        ),
        export_emission(package, version, entries, module, e).path == e.relative_path,
{
    companion::law_emission_adds_one(
        doc,
        export_emission(package, version, entries, module, e),
        e.name_span,
    );
}

/// The companion links to nothing but symbols of the input index.
pub proof fn law_links_native(
    input: index::IndexView,
    package: Seq<char>,
    version: Seq<char>,
    exports: Seq<scan::PyExportView>,
)
    ensures
        companion::all_link_into(
            python_companion(input, package, version, exports).documents,
            lookup::global_symbols(input.documents),
        ),
{
    lemma_targets(package, version, input.documents, exports, exports);
    companion::law_links(
        "Python"@,
        emissions(package, version, rust_entries(input.documents), exports, exports),
        lookup::global_symbols(input.documents),
    );
}

} // verus!
