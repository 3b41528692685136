//! Java symbols for the JNI exports of C and C++ sources.
//!
//! The input index gives the exact symbol strings that scip-clang assigned to
//! each C function, which the Java symbols link to. The Java names come from
//! the exports themselves: the JNI name mangling embeds the fully qualified
//! class and method in the C identifier, and `RegisterNatives` tables carry
//! them as string literals.

use crate::companion;
use crate::companion::Emission;
use crate::index;
use crate::index::{Index, IndexError};
use crate::lookup;
use crate::symbol;
use crate::symbol::{Descriptor, Suffix};
use crate::text;
use scan::ScanResult;
use vstd::prelude::*;

pub mod file_laws;
pub mod laws;
pub mod name;
pub mod pom;
pub mod scan;
pub mod span;

pub use crate::companion::{AugmentOutcome, AugmentStats};
pub use name::demangle_jni;
pub use pom::{extract_xml_tag, parse_pom, strip_xml_block, Pom};

verus! {

/// Options for [`augment_file`].
#[derive(Debug)]
pub struct AugmentOptions {
    /// Source tree to scan for C and C++ files. Defaults to the input index's
    /// project root.
    pub source_root: Option<String>,
    /// Maven package name in the `maven/<groupId>/<artifactId>` form that
    /// scip-java uses. Falls back to the coordinates in `pom.xml`, then to
    /// the unversioned-package placeholder.
    pub java_package: Option<String>,
    /// Maven package version. Falls back to `pom.xml`, then to the
    /// unversioned-package placeholder.
    pub java_version: Option<String>,
}

/// The package that Java symbols belong to.
pub open spec fn java_package_view(package: Seq<char>, version: Seq<char>) -> symbol::PackageView {
    symbol::PackageView { scheme: "semanticdb"@, manager: "maven"@, name: package, version }
}

/// A scip-java symbol of a method: package components are namespaces
/// (`com/example/`), the class and any `$`-nested classes are types (`Foo#`),
/// the method is a method (`bar().`). It is empty if there is no class.
pub open spec fn method_symbol(
    package: Seq<char>,
    version: Seq<char>,
    class: Seq<Seq<char>>,
    method: Seq<char>,
) -> Seq<char> {
    if class.len() == 0 {
        Seq::empty()
    } else {
        symbol::formatted(
            java_package_view(package, version),
            symbol::named(class.drop_last(), Suffix::Namespace) + symbol::named(
                text::nonempty(text::split_text(class.last(), "$"@)),
                Suffix::Type,
            ) + symbol::named(seq![method], Suffix::Method),
        )
    }
}

/// A scip-java symbol of a method.
pub fn java_method_symbol(package: &str, version: &str, class: &Vec<String>, method: &str) -> (r:
    String)
    ensures
        r@ == method_symbol(package@, version@, text::strings_view(class@), method@),
{
    let n: usize = class.len();
    if n == 0 {
        return String::new();
    }
    let ghost views = text::strings_view(class@);
    proof {
        reveal_strlit("$");
        assert(views.last() == class@[n - 1]@);
        assert(views.take(n - 1) =~= views.drop_last());
    }
    let types = text::split_nonempty(class[n - 1].as_str(), "$");
    let ghost tv = text::strings_view(types@);
    assert(tv.take(tv.len() as int) =~= tv);
    let mut ds: Vec<Descriptor> = Vec::new();
    symbol::push_names(&mut ds, class, n - 1, Suffix::Namespace);
    symbol::push_names(&mut ds, &types, types.len(), Suffix::Type);
    symbol::push_name(&mut ds, method, Suffix::Method);
    assert(symbol::descriptor_views(ds@) =~= symbol::named(views.drop_last(), Suffix::Namespace)
        + symbol::named(tv, Suffix::Type) + symbol::named(seq![method@], Suffix::Method));
    symbol::format_symbol("semanticdb", "maven", package, version, ds)
}

/// The symbol that is emitted for an export.
pub open spec fn export_emission(
    package: Seq<char>,
    version: Seq<char>,
    c_entries: Seq<(Seq<char>, Seq<char>)>,
    e: scan::JniExportView,
) -> companion::EmissionView {
    companion::EmissionView {
        path: e.relative_path,
        symbol: method_symbol(package, version, e.class, e.java_name),
        display_name: e.java_name,
        kind: index::KIND_METHOD,
        target: lookup::least_symbol(c_entries, e.c_name),
        range: Some(companion::span_range(e.name_span)),
    }
}

/// The companion of `input` for some exports.
pub open spec fn java_companion(
    input: index::IndexView,
    package: Seq<char>,
    version: Seq<char>,
    exports: Seq<scan::JniExportView>,
) -> index::IndexView {
    let c_entries = lookup::c_entries(input.documents);
    index::IndexView {
        metadata: companion::inherited(input.metadata, "scip-jni-augment"@),
        documents: companion::documents_of(
            "Java"@,
            exports.map_values(
                |e: scan::JniExportView| export_emission(package, version, c_entries, e),
            ),
        ),
    }
}

/// The companion of `input` for the exports of a scan.
pub fn build_output(input: &Index, java_package: &str, java_version: &str, scan: &ScanResult) -> (r:
    Index)
    ensures
        r@ == java_companion(input@, java_package@, java_version@, scan@),
        companion::are_unsigned(r@.documents),
{
    let table = lookup::CSymbolLookup::from_index(input);
    let ghost all = scan@;
    let ghost c_entries = lookup::c_entries(input@.documents);
    let ghost make = |e: scan::JniExportView|
        export_emission(java_package@, java_version@, c_entries, e);
    let mut es: Vec<Emission> = Vec::new();
    let mut i: usize = 0;
    while i < scan.exports.len()
        invariant
            0 <= i <= scan.exports@.len(),
            all == scan@,
            table@ == c_entries,
            make == (|e: scan::JniExportView|
                export_emission(java_package@, java_version@, c_entries, e)),
            companion::emission_views(es@) =~= all.take(i as int).map_values(make),
        decreases scan.exports.len() - i,
    {
        let e = &scan.exports[i];
        let ghost had = companion::emission_views(es@);
        let target = match table.find(e.c_name.as_str()) {
            Some(s) => Some(s.to_string()),
            None => None,
        };
        let emission = Emission {
            path: e.relative_path.clone(),
            symbol: java_method_symbol(java_package, java_version, &e.class, e.java_name.as_str()),
            display_name: e.java_name.clone(),
            kind: index::KIND_METHOD,
            target,
            range: Some(companion::range_of(e.name_span)),
        };
        let ghost ev = emission@;
        proof {
            assert(all[i as int] == e@);
            assert(ev =~= make(all[i as int]));
        }
        es.push(emission);
        assert(companion::emission_views(es@) =~= had.push(ev));
        i += 1;
    }
    assert(all.take(i as int) =~= all);
    let r = Index {
        metadata: companion::inherit_metadata(&input.metadata, "scip-jni-augment"),
        documents: companion::build_documents("Java", &es),
    };
    r
}

/// The Maven package of the exports: the one given, else the one that
/// `pom.xml` names, else the empty one.
pub open spec fn chosen_package(given: Option<Seq<char>>, pom: Option<pom::PomView>) -> Seq<char> {
    match text::or_else(
        given,
        match pom {
            Some(pom) => pom::maven_name(pom),
            None => None,
        },
    ) {
        Some(name) => name,
        None => Seq::empty(),
    }
}

/// The version of that package: the one given, else the one in `pom.xml`,
/// else the empty one.
pub open spec fn chosen_version(given: Option<Seq<char>>, pom: Option<pom::PomView>) -> Seq<char> {
    match text::or_else(
        given,
        match pom {
            Some(pom) => pom.version,
            None => None,
        },
    ) {
        Some(version) => version,
        None => Seq::empty(),
    }
}

/// The coordinates in an optional `pom.xml`.
pub open spec fn opt_pom(doc: Option<&str>) -> Option<pom::PomView> {
    match doc {
        Some(doc) => Some(pom::pom_of(doc@)),
        None => None,
    }
}

/// Whether the result of an augmentation is the right one; see
/// [`augment_index`].
pub open spec fn is_augmented(
    r: (AugmentOutcome, Option<Vec<u8>>),
    input: index::IndexView,
    scan: Seq<scan::JniExportView>,
    opts: AugmentOptions,
    pom: Option<&str>,
) -> bool {
    if scan.len() == 0 {
        r == (AugmentOutcome::NoExports, None::<Vec<u8>>)
    } else {
        companion::is_written(
            r,
            java_companion(
                input,
                chosen_package(text::opt_view(opts.java_package), opt_pom(pom)),
                chosen_version(text::opt_view(opts.java_version), opt_pom(pom)),
                scan,
            ),
            scan.len(),
        )
    }
}

/// Produces the Java companion of a C or C++ index for the exports of a scan
/// of its sources. `pom` is the text of the source root's `pom.xml`.
///
/// Nothing is produced when the scan found no exports. A missing `pom.xml`
/// only degrades the package to placeholders: the exports carry the fully
/// qualified Java names.
pub fn augment_index(
    input: &Index,
    scan: &ScanResult,
    opts: &AugmentOptions,
    pom: Option<&str>,
) -> (r: (AugmentOutcome, Option<Vec<u8>>))
    ensures
        is_augmented(r, input@, scan@, *opts, pom),
{
    if scan.exports.len() == 0 {
        return (AugmentOutcome::NoExports, None);
    }
    let pom = match pom {
        Some(doc) => Some(parse_pom(doc)),
        None => None,
    };
    let package = match &opts.java_package {
        Some(p) => p.clone(),
        None => match &pom {
            Some(pom) => match pom.package_name() {
                Some(name) => name,
                None => String::new(),
            },
            None => String::new(),
        },
    };
    let version = match &opts.java_version {
        Some(v) => v.clone(),
        None => match &pom {
            Some(pom) => match &pom.version {
                Some(v) => v.clone(),
                None => String::new(),
            },
            None => String::new(),
        },
    };
    companion::finish(
        build_output(input, package.as_str(), version.as_str(), scan),
        scan.exports.len(),
    )
}

/// Produces the Java companion of the index that protobuf bytes hold; see
/// [`augment_index`].
pub fn augment_file(
    input: &[u8],
    scan: &ScanResult,
    opts: &AugmentOptions,
    pom: Option<&str>,
) -> (r: Result<(AugmentOutcome, Option<Vec<u8>>), IndexError>)
    ensures
        index::index_message(input@) is None ==> r == Err::<
            (AugmentOutcome, Option<Vec<u8>>),
            IndexError,
        >(IndexError::Parse),
        index::index_message(input@) matches Some(m) ==> {
            &&& r matches Ok(done)
            &&& is_augmented(done, index::read_part(m), scan@, *opts, pom)
        },
{
    match index::decode(input) {
        Ok(index) => Ok(augment_index(&index, scan, opts, pom)),
        Err(e) => Err(e),
    }
}

/// Each export adds exactly one symbol and its definition to the document of
/// its file. The symbol is linked to the native symbol that is found for the
/// export, if there is one.
pub proof fn law_export_adds_one(
    package: Seq<char>,
    version: Seq<char>,
    c_entries: Seq<(Seq<char>, Seq<char>)>,
    e: scan::JniExportView,
    doc: index::DocumentView,
)
    ensures
        companion::adds_one(
            doc,
            companion::with_emission(doc, export_emission(package, version, c_entries, e)),
            e.java_name,
            e.name_span,
            lookup::least_symbol(c_entries, e.c_name),
        ),
        export_emission(package, version, c_entries, e).path == e.relative_path,
{
    companion::law_emission_adds_one(
        doc,
        export_emission(package, version, c_entries, e),
        e.name_span,
    );
}

/// The companion links to nothing but symbols of the input index.
pub proof fn law_links_native(
    input: index::IndexView,
    package: Seq<char>,
    version: Seq<char>,
    exports: Seq<scan::JniExportView>,
)
    ensures
        companion::all_link_into(
            java_companion(input, package, version, exports).documents,
            lookup::global_symbols(input.documents),
        ),
{
    let entries = lookup::c_entries(input.documents);
    let natives = lookup::global_symbols(input.documents);
    let es = exports.map_values(
        |e: scan::JniExportView| export_emission(package, version, entries, e),
    );
    assert forall|i: int| 0 <= i < es.len() implies ((#[trigger] es[i]).target matches Some(t)
        ==> natives.contains(t)) by {
        lookup::law_c_lookup(input.documents, exports[i].c_name);
    }
    companion::law_links("Java"@, es, natives);
}

} // verus!
