//! Ruby symbols for the Ruby extensions among C and C++ sources.
//!
//! The input index gives the exact symbol strings that scip-clang assigned to
//! each C function, which the Ruby symbols link to. The Ruby names come from
//! the registrations in the sources.

use crate::companion;
use crate::companion::Emission;
use crate::index;
use crate::index::{Index, IndexError};
use crate::lookup;
use crate::paths;
use crate::symbol;
use crate::symbol::{Descriptor, Suffix};
use crate::text;
use scan::{RubyExport, RubyExportKind, ScanResult};
use vstd::prelude::*;

pub mod laws;
pub mod scan;

pub use crate::companion::{AugmentOutcome, AugmentStats};

verus! {

/// Options for [`augment_file`].
#[derive(Debug)]
pub struct AugmentOptions {
    /// Source tree to scan for C and C++ files. Defaults to the input index's
    /// project root.
    pub source_root: Option<String>,
    /// Gem name. Falls back to the `name` attribute of a `*.gemspec` in the
    /// source root.
    pub ruby_gem: Option<String>,
    /// Gem version. Falls back to the gemspec's `version` attribute if it is a
    /// string literal, then to the version of the first package seen in the
    /// input index, then to "0.0.0".
    pub ruby_version: Option<String>,
}

/// Whether a file or directory is hidden, holds build outputs or holds code
/// of other packages.
pub fn is_hidden_or_build(name: &str) -> (r: bool)
    ensures
        r == (name@ == "tmp"@ || name@ == "vendor"@ || paths::hidden_or_build(name@)),
{
    text::str_eq(name, "tmp") || text::str_eq(name, "vendor") || paths::is_hidden_or_build(name)
}

/// Whether a file is a gem specification by its extension.
pub open spec fn is_gemspec(name: Seq<char>) -> bool {
    paths::extension_of(name) == Some("gemspec"@)
}

/// The first gem specification, in the order of their names, among the files
/// of a directory.
pub fn pick_gemspec(names: &Vec<String>) -> (r: Option<String>)
    ensures
        r is None <==> forall|i: int|
            0 <= i < names@.len() ==> !is_gemspec((#[trigger] names@[i])@),
        r matches Some(name) ==> {
            &&& is_gemspec(name@)
            &&& text::strings_view(names@).contains(name@)
            &&& forall|i: int|
                0 <= i < names@.len() && is_gemspec((#[trigger] names@[i])@) ==> !text::precedes(
                    names@[i]@,
                    name@,
                )
        },
{
    let ghost views = text::strings_view(names@);
    let mut best: Option<&String> = None;
    let mut i: usize = 0;
    while i < names.len()
        invariant
            0 <= i <= names@.len(),
            views == text::strings_view(names@),
            best is None <==> forall|j: int|
                0 <= j < i ==> !is_gemspec((#[trigger] names@[j])@),
            best matches Some(b) ==> {
                &&& is_gemspec(b@)
                &&& views.contains(b@)
                &&& forall|j: int|
                    0 <= j < i && is_gemspec((#[trigger] names@[j])@) ==> !text::precedes(
                        names@[j]@,
                        b@,
                    )
            },
        decreases names.len() - i,
    {
        if paths::has_extension(names[i].as_str(), "gemspec") {
            let better = match best {
                Some(b) => text::comes_before(names[i].as_str(), b.as_str()),
                None => true,
            };
            assert(views[i as int] == names@[i as int]@);
            if better {
                let ghost n = names@[i as int]@;
                proof {
                    text::lemma_precedes_total(n, n);
                    assert forall|j: int|
                        0 <= j < i + 1 && is_gemspec((#[trigger] names@[j])@) implies !text::precedes(
                        names@[j]@,
                        n,
                    ) by {
                        if let Some(b) = best {
                            if j < i && text::precedes(names@[j]@, n) {
                                text::lemma_precedes_transitive(names@[j]@, n, b@);
                            }
                        }
                    }
                }
                best = Some(&names[i]);
            }
        }
        i += 1;
    }
    match best {
        Some(b) => Some(b.clone()),
        None => None,
    }
}

/// The value that a line of a gem specification gives an attribute, where
/// `needle` is a dot and the attribute's name: a string literal that is not
/// empty.
pub open spec fn line_value(line: Seq<char>, needle: Seq<char>) -> Option<Seq<char>> {
    let line = text::trimmed(line);
    match text::first_index(line, needle) {
        Some(i) => match text::after_prefix(
            text::trimmed_start(line.skip(i + needle.len())),
            "="@,
        ) {
            Some(rest) => {
                let rest = text::trimmed_start(rest);
                if rest.len() > 0 && (rest[0] == '"' || rest[0] == '\'') {
                    let tail = rest.skip(1);
                    let value = symbol::before_char(tail, rest[0]);
                    if 0 < value.len() < tail.len() {
                        Some(value)
                    } else {
                        None
                    }
                } else {
                    None
                }
            },
            None => None,
        },
        None => None,
    }
}

/// The first value that the lines of a gem specification give an attribute.
pub open spec fn lines_value(lines: Seq<Seq<char>>, needle: Seq<char>) -> Option<Seq<char>>
    decreases lines.len(),
{
    if lines.len() == 0 {
        None
    } else {
        text::or_else(line_value(lines[0], needle), lines_value(lines.skip(1), needle))
    }
}

/// The value that a gem specification gives an attribute. Only string
/// literals count, so that a version that is a constant has none.
pub open spec fn gemspec_attr(doc: Seq<char>, attr: Seq<char>) -> Option<Seq<char>> {
    lines_value(text::lines_of(doc), "."@ + attr)
}

/// The value that a line of a gem specification gives an attribute.
fn extract_from_line(line: &[char], needle: &[char]) -> (r: Option<String>)
    ensures
        text::opt_view(r) == line_value(line@, needle@),
{
    let line = text::trim(line);
    let n: usize = line.len();
    let start = match text::find_chars(line, needle) {
        Some(i) => i + needle.len(),
        None => {
            return None;
        },
    };
    let rest = &line[start..n];
    assert(rest@ =~= line@.skip(start as int));
    let rest = match text::strip_prefix(text::trim_start(rest), "=") {
        Some(rest) => text::trim_start(rest),
        None => {
            return None;
        },
    };
    let m: usize = rest.len();
    if m == 0 || !(rest[0] == '"' || rest[0] == '\'') {
        return None;
    }
    let tail = &rest[1..m];
    assert(tail@ =~= rest@.skip(1));
    let end = symbol::position_of(tail, 0, rest[0]);
    assert(tail@.skip(0) =~= tail@);
    if end == 0 || end >= tail.len() {
        return None;
    }
    let value = &tail[0..end];
    assert(value@ =~= tail@.subrange(0, end as int));
    Some(text::string_of(value))
}

/// The value that a gem specification gives an attribute.
pub fn extract_gemspec_attr(doc: &str, attr: &str) -> (r: Option<String>)
    ensures
        text::opt_view(r) == gemspec_attr(doc@, attr@),
{
    let needle = text::chars_of(text::concat(".", attr).as_str());
    let chars = text::chars_of(doc);
    let lines = text::lines(&chars);
    let ghost all = text::slices_view(lines@);
    let mut i: usize = 0;
    assert(all.skip(0) =~= all);
    while i < lines.len()
        invariant
            0 <= i <= lines@.len(),
            all == text::slices_view(lines@),
            gemspec_attr(doc@, attr@) == lines_value(all.skip(i as int), needle@),
        decreases lines.len() - i,
    {
        assert(all.skip(i as int)[0] == lines@[i as int]@);
        assert(all.skip(i as int).skip(1) =~= all.skip(i + 1));
        let found = extract_from_line(lines[i], &needle);
        if found.is_some() {
            return found;
        }
        i += 1;
    }
    None
}

/// The package that Ruby symbols belong to.
pub open spec fn package_view(gem: Seq<char>, version: Seq<char>) -> symbol::PackageView {
    symbol::PackageView { scheme: "scip-ruby"@, manager: "gem"@, name: gem, version }
}

/// A scip-ruby symbol: namespace components, modules and classes are types
/// (`Foo#Bar#`), methods are methods (`baz().`).
pub open spec fn name_symbol(
    gem: Seq<char>,
    version: Seq<char>,
    namespace: Seq<char>,
    name: Seq<char>,
    is_method: bool,
) -> Seq<char> {
    symbol::formatted(
        package_view(gem, version),
        symbol::named(text::nonempty(text::split_text(namespace, "::"@)), Suffix::Type).push(
            symbol::DescriptorView {
                name,
                suffix: if is_method {
                    Suffix::Method
                } else {
                    Suffix::Type
                },
            },
        ),
    )
}

/// A scip-ruby symbol.
pub fn ruby_symbol(gem: &str, version: &str, namespace: &str, name: &str, is_method: bool) -> (r:
    String)
    ensures
        r@ == name_symbol(gem@, version@, namespace@, name@, is_method),
{
    proof {
        reveal_strlit("::");
    }
    let parts = text::split_nonempty(namespace, "::");
    let ghost views = text::strings_view(parts@);
    let mut ds: Vec<Descriptor> = Vec::new();
    symbol::push_names(&mut ds, &parts, parts.len(), Suffix::Type);
    assert(views.take(views.len() as int) =~= views);
    assert(symbol::descriptor_views(ds@) =~= symbol::named(views, Suffix::Type));
    let suffix = if is_method {
        Suffix::Method
    } else {
        Suffix::Type
    };
    symbol::push_name(&mut ds, name, suffix);
    symbol::format_symbol("scip-ruby", "gem", gem, version, ds)
}

/// Whether an export is a method.
pub open spec fn is_method(kind: RubyExportKind) -> bool {
    kind == RubyExportKind::Method || kind == RubyExportKind::SingletonMethod
}

/// The symbol that is emitted for an export.
pub open spec fn export_emission(
    gem: Seq<char>,
    version: Seq<char>,
    c_entries: Seq<(Seq<char>, Seq<char>)>,
    e: scan::RubyExportView,
) -> companion::EmissionView {
    companion::EmissionView {
        path: e.relative_path,
        symbol: name_symbol(gem, version, e.namespace, e.ruby_name, is_method(e.kind)),
        display_name: e.ruby_name,
        kind: match e.kind {
            RubyExportKind::Module => index::KIND_MODULE,
            RubyExportKind::Class => index::KIND_CLASS,
            RubyExportKind::Method => index::KIND_METHOD,
            RubyExportKind::SingletonMethod => index::KIND_STATIC_METHOD,
        },
        target: if e.c_name.len() > 0 {
            lookup::least_symbol(c_entries, e.c_name)
        } else {
            None
        },
        range: Some(companion::span_range(e.name_span)),
    }
}

/// The companion of `input` for some exports.
pub open spec fn ruby_companion(
    input: index::IndexView,
    gem: Seq<char>,
    version: Seq<char>,
    exports: Seq<scan::RubyExportView>,
) -> index::IndexView {
    let c_entries = lookup::c_entries(input.documents);
    index::IndexView {
        metadata: companion::inherited(input.metadata, "scip-c-ruby-augment"@),
        documents: companion::documents_of(
            "Ruby"@,
            exports.map_values(
                |e: scan::RubyExportView| export_emission(gem, version, c_entries, e),
            ),
        ),
    }
}

/// The symbol that is emitted for an export.
fn emit_export(e: &RubyExport, gem: &str, version: &str, table: &lookup::CSymbolLookup) -> (r:
    Emission)
    ensures
        r@ == export_emission(gem@, version@, table@, e@),
{
    let (kind, method) = match e.kind {
        RubyExportKind::Module => (index::KIND_MODULE, false),
        RubyExportKind::Class => (index::KIND_CLASS, false),
        RubyExportKind::Method => (index::KIND_METHOD, true),
        RubyExportKind::SingletonMethod => (index::KIND_STATIC_METHOD, true),
    };
    let target = if text::is_empty_text(e.c_name.as_str()) {
        None
    } else {
        match table.find(e.c_name.as_str()) {
            Some(s) => Some(s.to_string()),
            None => None,
        }
    };
    let r = Emission {
        path: e.relative_path.clone(),
        symbol: ruby_symbol(gem, version, e.namespace.as_str(), e.ruby_name.as_str(), method),
        display_name: e.ruby_name.clone(),
        kind,
        target,
        range: Some(companion::range_of(e.name_span)),
    };
    assert(r@ =~= export_emission(gem@, version@, table@, e@));
    r
}

/// The companion of `input` for the exports of a scan.
pub fn build_output(input: &Index, ruby_gem: &str, ruby_version: &str, scan: &ScanResult) -> (r:
    Index)
    ensures
        r@ == ruby_companion(input@, ruby_gem@, ruby_version@, scan@),
        companion::are_unsigned(r@.documents),
{
    let table = lookup::CSymbolLookup::from_index(input);
    let ghost all = scan@;
    let ghost c_entries = lookup::c_entries(input@.documents);
    let ghost make = |e: scan::RubyExportView|
        export_emission(ruby_gem@, ruby_version@, c_entries, e);
    let mut es: Vec<Emission> = Vec::new();
    let mut i: usize = 0;
    while i < scan.exports.len()
        invariant
            0 <= i <= scan.exports@.len(),
            all == scan@,
            table@ == c_entries,
            make == (|e: scan::RubyExportView|
                export_emission(ruby_gem@, ruby_version@, c_entries, e)),
            companion::emission_views(es@) =~= all.take(i as int).map_values(make),
        decreases scan.exports.len() - i,
    {
        let ghost had = companion::emission_views(es@);
        assert(all[i as int] == scan.exports@[i as int]@);
        let emission = emit_export(&scan.exports[i], ruby_gem, ruby_version, &table);
        let ghost ev = emission@;
        es.push(emission);
        assert(companion::emission_views(es@) =~= had.push(ev));
        i += 1;
    }
    assert(all.take(i as int) =~= all);
    Index {
        metadata: companion::inherit_metadata(&input.metadata, "scip-c-ruby-augment"),
        documents: companion::build_documents("Ruby", &es),
    }
}

/// An attribute of an optional gem specification.
pub open spec fn opt_attr(doc: Option<&str>, attr: Seq<char>) -> Option<Seq<char>> {
    match doc {
        Some(doc) => gemspec_attr(doc@, attr),
        None => None,
    }
}

/// The version of the gem: the one given, else the one in the gem
/// specification, else that of the first package of the input index, else
/// "0.0.0".
pub open spec fn chosen_version(
    given: Option<Seq<char>>,
    gemspec: Option<&str>,
    docs: Seq<index::DocumentView>,
) -> Seq<char> {
    match text::or_else(
        given,
        text::or_else(
            opt_attr(gemspec, "version"@),
            companion::first_version(docs, true, true),
        ),
    ) {
        Some(version) => version,
        None => "0.0.0"@,
    }
}

/// Whether the result of an augmentation is the right one; see
/// [`augment_index`].
pub open spec fn is_augmented(
    r: (AugmentOutcome, Option<Vec<u8>>),
    input: index::IndexView,
    scan: Seq<scan::RubyExportView>,
    opts: AugmentOptions,
    gemspec: Option<&str>,
) -> bool {
    match text::or_else(text::opt_view(opts.ruby_gem), opt_attr(gemspec, "name"@)) {
        Some(gem) if scan.len() > 0 => companion::is_written(
            r,
            ruby_companion(
                input,
                gem,
                chosen_version(text::opt_view(opts.ruby_version), gemspec, input.documents),
                scan,
            ),
            scan.len(),
        ),
        _ => r == (AugmentOutcome::NoExports, None::<Vec<u8>>),
    }
}

/// Produces the Ruby companion of a C or C++ index for the exports of a scan
/// of its sources. `gemspec` is the text of the source root's gem
/// specification.
///
/// Nothing is produced when the scan found no exports, or when no gem is
/// given or named.
pub fn augment_index(
    input: &Index,
    scan: &ScanResult,
    opts: &AugmentOptions,
    gemspec: Option<&str>,
) -> (r: (AugmentOutcome, Option<Vec<u8>>))
    ensures
        is_augmented(r, input@, scan@, *opts, gemspec),
{
    if scan.exports.len() == 0 {
        return (AugmentOutcome::NoExports, None);
    }
    let gem = match &opts.ruby_gem {
        Some(g) => g.clone(),
        None => {
            let named = match gemspec {
                Some(doc) => extract_gemspec_attr(doc, "name"),
                None => None,
            };
            match named {
                Some(g) => g,
                // A C project that happens to call into Ruby is not
                // necessarily a gem with a name.
                None => {
                    return (AugmentOutcome::NoExports, None);
                },
            }
        },
    };
    let version = match &opts.ruby_version {
        Some(v) => v.clone(),
        None => {
            let named = match gemspec {
                Some(doc) => extract_gemspec_attr(doc, "version"),
                None => None,
            };
            match named {
                Some(v) => v,
                None => match companion::first_package_version(input, true, true) {
                    Some(v) => v,
                    None => "0.0.0".to_string(),
                },
            }
        },
    };
    companion::finish(
        build_output(input, gem.as_str(), version.as_str(), scan),
        scan.exports.len(),
    )
}

/// Produces the Ruby companion of the index that protobuf bytes hold; see
/// [`augment_index`].
pub fn augment_file(
    input: &[u8],
    scan: &ScanResult,
    opts: &AugmentOptions,
    gemspec: Option<&str>,
) -> (r: Result<(AugmentOutcome, Option<Vec<u8>>), IndexError>)
    ensures
        index::index_message(input@) is None ==> r == Err::<
            (AugmentOutcome, Option<Vec<u8>>),
            IndexError,
        >(IndexError::Parse),
        index::index_message(input@) matches Some(m) ==> {
            &&& r matches Ok(done)
            &&& is_augmented(done, index::read_part(m), scan@, *opts, gemspec)
        },
{
    match index::decode(input) {
        Ok(index) => Ok(augment_index(&index, scan, opts, gemspec)),
        Err(e) => Err(e),
    }
}

/// Each export adds exactly one symbol and its definition to the document of
/// its file. The symbol is linked to the native symbol that is found for the
/// export, if there is one.
pub proof fn law_export_adds_one(
    gem: Seq<char>,
    version: Seq<char>,
    c_entries: Seq<(Seq<char>, Seq<char>)>,
    e: scan::RubyExportView,
    doc: index::DocumentView,
)
    ensures
        companion::adds_one(
            doc,
            companion::with_emission(doc, export_emission(gem, version, c_entries, e)),
            e.ruby_name,
            e.name_span,
            if e.c_name.len() > 0 {
                lookup::least_symbol(c_entries, e.c_name)
            } else {
                None
            },
        ),
        export_emission(gem, version, c_entries, e).path == e.relative_path,
{
    companion::law_emission_adds_one(
        doc,
        export_emission(gem, version, c_entries, e),
        e.name_span,
    );
}

/// The companion links to nothing but symbols of the input index.
pub proof fn law_links_native(
    input: index::IndexView,
    gem: Seq<char>,
    version: Seq<char>,
    exports: Seq<scan::RubyExportView>,
)
    ensures
        companion::all_link_into(
            ruby_companion(input, gem, version, exports).documents,
            lookup::global_symbols(input.documents),
        ),
{
    let entries = lookup::c_entries(input.documents);
    let natives = lookup::global_symbols(input.documents);
    let es = exports.map_values(
        |e: scan::RubyExportView| export_emission(gem, version, entries, e),
    );
    assert forall|i: int| 0 <= i < es.len() implies ((#[trigger] es[i]).target matches Some(t)
        ==> natives.contains(t)) by {
        lookup::law_c_lookup(input.documents, exports[i].c_name);
    }
    companion::law_links("Ruby"@, es, natives);
}

} // verus!
