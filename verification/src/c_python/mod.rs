//! Python symbols for the CPython extensions among C sources.
//!
//! The input index gives the exact symbol strings that scip-clang assigned to
//! each C function, which the Python symbols link to. The Python names come
//! from the registration tables in the sources.

use crate::companion;
use crate::companion::Emission;
use crate::index;
use crate::index::{Index, IndexError};
use crate::lookup;
use crate::python;
use crate::symbol::Suffix;
use crate::text;
use scan::{CExport, CExportKind, ScanResult};
use vstd::prelude::*;

pub mod laws;
pub mod scan;

pub use crate::companion::{AugmentOutcome, AugmentStats};

verus! {

/// Options for [`augment_file`].
#[derive(Debug)]
pub struct AugmentOptions {
    /// Source tree to scan for C files. Defaults to the input index's project
    /// root.
    pub source_root: Option<String>,
    /// Python distribution name. Falls back to `[project].name` in
    /// `pyproject.toml`.
    pub python_package: Option<String>,
    /// Python distribution version. Defaults to the version of the first
    /// package seen in the input index, or "0.0.0".
    pub python_version: Option<String>,
}

/// The Python name of the first module that the file at `path` exports.
pub open spec fn module_at(exports: Seq<scan::CExportView>, path: Seq<char>) -> Option<Seq<char>>
    decreases exports.len(),
{
    if exports.len() == 0 {
        None
    } else if exports[0].relative_path == path && exports[0].kind == CExportKind::Module {
        Some(exports[0].python_name)
    } else {
        module_at(exports.skip(1), path)
    }
}

/// The symbol that is emitted for an export of the module `module`.
pub open spec fn export_emission(
    package: Seq<char>,
    version: Seq<char>,
    c_entries: Seq<(Seq<char>, Seq<char>)>,
    module: Seq<char>,
    e: scan::CExportView,
) -> companion::EmissionView {
    let dotted = package + "."@ + module;
    companion::EmissionView {
        path: e.relative_path,
        symbol: match e.kind {
            CExportKind::Module => python::module_symbol(package, version, dotted),
            CExportKind::Function => python::member_symbol(
                package,
                version,
                dotted,
                e.python_name,
                Suffix::Method,
            ),
        },
        display_name: e.python_name,
        kind: match e.kind {
            CExportKind::Module => index::KIND_MODULE,
            CExportKind::Function => index::KIND_FUNCTION,
        },
        target: lookup::least_symbol(c_entries, e.c_name),
        range: Some(companion::span_range(e.name_span)),
    }
}

/// The symbols that are emitted for the exports `es`, which are among `all`.
/// The exports of a file belong to the first module that it exports; those
/// of a file without a named module are left out.
pub open spec fn emissions(
    package: Seq<char>,
    version: Seq<char>,
    c_entries: Seq<(Seq<char>, Seq<char>)>,
    all: Seq<scan::CExportView>,
    es: Seq<scan::CExportView>,
) -> Seq<companion::EmissionView>
    decreases es.len(),
{
    if es.len() == 0 {
        Seq::empty()
    } else {
        let before = emissions(package, version, c_entries, all, es.drop_last());
        match module_at(all, es.last().relative_path) {
            Some(module) => if module.len() > 0 {
                before.push(export_emission(package, version, c_entries, module, es.last()))
            } else {
                before
            },
            None => before,
        }
    }
}

/// The companion of `input` for some exports.
pub open spec fn python_companion(
    input: index::IndexView,
    package: Seq<char>,
    version: Seq<char>,
    exports: Seq<scan::CExportView>,
) -> index::IndexView {
    index::IndexView {
        metadata: companion::inherited(input.metadata, "scip-c-python-augment"@),
        documents: companion::documents_of(
            "Python"@,
            emissions(package, version, lookup::c_entries(input.documents), exports, exports),
        ),
    }
}

/// The Python name of the first module that the file at `path` exports.
fn find_module<'a>(exports: &'a Vec<CExport>, path: &str) -> (r: Option<&'a String>)
    ensures
        r matches Some(m) ==> module_at(scan::export_views(exports@), path@) == Some(m@),
        r is None ==> module_at(scan::export_views(exports@), path@) is None,
{
    let ghost all = scan::export_views(exports@);
    let mut i: usize = 0;
    assert(all.skip(0) =~= all);
    while i < exports.len()
        invariant
            0 <= i <= exports@.len(),
            all == scan::export_views(exports@),
            module_at(all, path@) == module_at(all.skip(i as int), path@),
        decreases exports.len() - i,
    {
        assert(all.skip(i as int)[0] == exports@[i as int]@);
        assert(all.skip(i as int).skip(1) =~= all.skip(i + 1));
        if exports[i].kind == CExportKind::Module && text::str_eq(
            exports[i].relative_path.as_str(),
            path,
        ) {
            return Some(&exports[i].python_name);
        }
        i += 1;
    }
    None
}

/// The symbol that is emitted for an export of the module `module`.
fn emit_export(
    e: &CExport,
    package: &str,
    version: &str,
    module: &str,
    table: &lookup::CSymbolLookup,
) -> (r: Emission)
    ensures
        r@ == export_emission(package@, version@, table@, module@, e@),
{
    let dotted = python::qualify(package, module);
    let (symbol, kind) = match e.kind {
        CExportKind::Module => (
            python::py_module_symbol(package, version, dotted.as_str()),
            index::KIND_MODULE,
        ),
        CExportKind::Function => (
            python::py_function_symbol(package, version, dotted.as_str(), e.python_name.as_str()),
            index::KIND_FUNCTION,
        ),
    };
    let target = match table.find(e.c_name.as_str()) {
        Some(s) => Some(s.to_string()),
        None => None,
    };
    let r = Emission {
        path: e.relative_path.clone(),
        symbol,
        display_name: e.python_name.clone(),
        kind,
        target,
        range: Some(companion::range_of(e.name_span)),
    };
    assert(r@ =~= export_emission(package@, version@, table@, module@, e@));
    r
}

/// The companion of `input` for the exports of a scan.
pub fn build_output(
    input: &Index,
    python_package: &str,
    python_version: &str,
    scan: &ScanResult,
) -> (r: Index)
    ensures
        r@ == python_companion(input@, python_package@, python_version@, scan@),
        companion::are_unsigned(r@.documents),
{
    let table = lookup::CSymbolLookup::from_index(input);
    let ghost all = scan@;
    let mut es: Vec<Emission> = Vec::new();
    let mut i: usize = 0;
    assert(companion::emission_views(es@) =~= emissions(
        python_package@,
        python_version@,
        table@,
        all,
        all.take(0),
    ));
    while i < scan.exports.len()
        invariant
            0 <= i <= scan.exports@.len(),
            all == scan@,
            companion::emission_views(es@) == emissions(
                python_package@,
                python_version@,
                table@,
                all,
                all.take(i as int),
            ),
        decreases scan.exports.len() - i,
    {
        let e = &scan.exports[i];
        let ghost had = companion::emission_views(es@);
        assert(all[i as int] == e@);
        assert(all.take(i + 1).drop_last() =~= all.take(i as int));
        if let Some(module) = find_module(&scan.exports, e.relative_path.as_str()) {
            if !text::is_empty_text(module.as_str()) {
                let emission = emit_export(
                    e,
                    python_package,
                    python_version,
                    module.as_str(),
                    &table,
                );
                let ghost ev = emission@;
                es.push(emission);
                assert(companion::emission_views(es@) =~= had.push(ev));
            }
        }
        i += 1;
    }
    assert(all.take(i as int) =~= all);
    Index {
        metadata: companion::inherit_metadata(&input.metadata, "scip-c-python-augment"),
        documents: companion::build_documents("Python", &es),
    }
}

/// The distribution that exports belong to: the one given, else the one that
/// `pyproject.toml` names.
pub open spec fn chosen_package(given: Option<Seq<char>>, pyproject: Option<&str>) -> Option<
    Seq<char>,
> {
    text::or_else(
        given,
        match pyproject {
            Some(doc) => python::project_name(text::lines_of(doc@), false),
            None => None,
        },
    )
}

/// The version of that distribution: the one given, else that of the first
/// package of the input index, else "0.0.0".
pub open spec fn chosen_version(
    given: Option<Seq<char>>,
    docs: Seq<index::DocumentView>,
) -> Seq<char> {
    match text::or_else(given, companion::first_version(docs, true, false)) {
        Some(version) => version,
        None => "0.0.0"@,
    }
}

/// Whether the result of an augmentation is the right one; see
/// [`augment_index`].
pub open spec fn is_augmented(
    r: (AugmentOutcome, Option<Vec<u8>>),
    input: index::IndexView,
    scan: Seq<scan::CExportView>,
    opts: AugmentOptions,
    pyproject: Option<&str>,
) -> bool {
    match chosen_package(text::opt_view(opts.python_package), pyproject) {
        Some(package) if scan.len() > 0 => companion::is_written(
            r,
            python_companion(
                input,
                package,
                chosen_version(text::opt_view(opts.python_version), input.documents),
                scan,
            ),
            scan.len(),
        ),
        _ => r == (AugmentOutcome::NoExports, None::<Vec<u8>>),
    }
}

/// Produces the Python companion of a C index for the exports of a scan of
/// its sources. `pyproject` is the text of the source root's
/// `pyproject.toml`.
///
/// Nothing is produced when the scan found no exports, or when no Python
/// package is given or named.
pub fn augment_index(
    input: &Index,
    scan: &ScanResult,
    opts: &AugmentOptions,
    pyproject: Option<&str>,
) -> (r: (AugmentOutcome, Option<Vec<u8>>))
    ensures
        is_augmented(r, input@, scan@, *opts, pyproject),
{
    if scan.exports.len() == 0 {
        return (AugmentOutcome::NoExports, None);
    }
    let package = match &opts.python_package {
        Some(p) => p.clone(),
        None => {
            let named = match pyproject {
                Some(doc) => python::extract_pyproject_name(doc),
                None => None,
            };
            match named {
                Some(p) => p,
                // A C project that happens to link Python.h is not
                // necessarily a distribution with a name.
                None => {
                    return (AugmentOutcome::NoExports, None);
                },
            }
        },
    };
    let version = match &opts.python_version {
        Some(v) => v.clone(),
        None => match companion::first_package_version(input, true, false) {
            Some(v) => v,
            None => "0.0.0".to_string(),
        },
    };
    companion::finish(
        build_output(input, package.as_str(), version.as_str(), scan),
        scan.exports.len(),
    )
}

/// Produces the Python companion of the index that protobuf bytes hold; see
/// [`augment_index`].
pub fn augment_file(
    input: &[u8],
    scan: &ScanResult,
    opts: &AugmentOptions,
    pyproject: Option<&str>,
) -> (r: Result<(AugmentOutcome, Option<Vec<u8>>), IndexError>)
    ensures
        index::index_message(input@) is None ==> r == Err::<
            (AugmentOutcome, Option<Vec<u8>>),
            IndexError,
        >(IndexError::Parse),
        index::index_message(input@) matches Some(m) ==> {
            &&& r matches Ok(done)
            &&& is_augmented(done, index::read_part(m), scan@, *opts, pyproject)
        },
{
    match index::decode(input) {
        Ok(index) => Ok(augment_index(&index, scan, opts, pyproject)),
        Err(e) => Err(e),
    }
}

/// The targets of the emitted symbols are symbols of the input index.
proof fn lemma_targets(
    package: Seq<char>,
    version: Seq<char>,
    docs: Seq<index::DocumentView>,
    all: Seq<scan::CExportView>,
    es: Seq<scan::CExportView>,
)
    ensures
        companion::targets_in(
            emissions(package, version, lookup::c_entries(docs), all, es),
            lookup::global_symbols(docs),
        ),
    decreases es.len(),
{
    if es.len() > 0 {
        lemma_targets(package, version, docs, all, es.drop_last());
        lookup::law_c_lookup(docs, es.last().c_name);
    }
}

/// Each export adds exactly one symbol and its definition to the document of
/// its file. The symbol is linked to the native symbol that is found for the
/// export, if there is one.
pub proof fn law_export_adds_one(
    package: Seq<char>,
    version: Seq<char>,
    c_entries: Seq<(Seq<char>, Seq<char>)>,
    module: Seq<char>,
    e: scan::CExportView,
    doc: index::DocumentView,
)
    ensures
        companion::adds_one(
            doc,
            companion::with_emission(doc, export_emission(package, version, c_entries, module, e)),
            e.python_name,
            e.name_span,
            lookup::least_symbol(c_entries, e.c_name),
        ),
        export_emission(package, version, c_entries, module, e).path == e.relative_path,
{
    companion::law_emission_adds_one(
        doc,
        export_emission(package, version, c_entries, module, e),
        e.name_span,
    );
}

/// The companion links to nothing but symbols of the input index.
pub proof fn law_links_native(
    input: index::IndexView,
    package: Seq<char>,
    version: Seq<char>,
    exports: Seq<scan::CExportView>,
)
    ensures
        companion::all_link_into(
            python_companion(input, package, version, exports).documents,
            lookup::global_symbols(input.documents),
        ),
{
    lemma_targets(package, version, input.documents, exports, exports);
    companion::law_links(
        "Python"@,
        emissions(package, version, lookup::c_entries(input.documents), exports, exports),
        lookup::global_symbols(input.documents),
    );
}

} // verus!
