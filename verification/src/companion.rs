//! What the companion indexes have in common.
//!
//! A companion adds, to an index of one language, the symbols under which
//! another language sees the same definitions. Each symbol it defines stands
//! in the document of the file that registers it, and links to the native
//! definition where the input index has it.

use crate::index;
use crate::index::{
    Index, Metadata, Occurrence, Relationship, SourceDocument, SymbolInformation,
};
use crate::symbol;
use crate::text;
use crate::version;
use vstd::prelude::*;

verus! {

/// Summary of an augmentation.
#[derive(Debug, Clone, Copy)]
pub struct AugmentStats {
    pub documents: usize,
    pub exports: usize,
}

/// Outcome of an augmentation.
#[derive(Debug, Clone, Copy)]
pub enum AugmentOutcome {
    /// A companion index was produced.
    Written(AugmentStats),
    /// There is nothing to export, or no package that exports could belong
    /// to; no index was produced.
    NoExports,
}

/// The directory to scan: the one given, else the input's project root.
/// There is none if the input names no root either.
pub open spec fn root_of(given: Option<Seq<char>>, project_root: Seq<char>) -> Option<Seq<char>> {
    match given {
        Some(root) => Some(root),
        None => if project_root.len() == 0 {
            None
        } else {
            match text::after_prefix(project_root, "file://"@) {
                Some(path) => Some(path),
                None => Some(project_root),
            }
        },
    }
}

/// The path of a `file://` address.
pub fn strip_file_scheme(root: &str) -> (r: Option<String>)
    ensures
        text::opt_view(r) == text::after_prefix(root@, "file://"@),
{
    let chars = text::chars_of(root);
    match text::strip_prefix(&chars, "file://") {
        Some(path) => Some(text::string_of(path)),
        None => None,
    }
}

/// The directory to scan.
pub fn source_root(given: &Option<String>, input: &Index) -> (r: Option<String>)
    ensures
        text::opt_view(r) == root_of(text::opt_view(*given), input@.metadata.project_root),
{
    if let Some(root) = given {
        return Some(root.clone());
    }
    let root = &input.metadata.project_root;
    if text::is_empty_text(root.as_str()) {
        return None;
    }
    match strip_file_scheme(root.as_str()) {
        Some(path) => Some(path),
        None => Some(root.clone()),
    }
}

/// A companion's metadata: the input's, but for the tool.
pub open spec fn inherited(input: index::MetadataView, tool: Seq<char>) -> index::MetadataView {
    index::MetadataView {
        version: input.version,
        tool_name: tool,
        tool_version: version::VERSION@,
        project_root: input.project_root,
        text_document_encoding: input.text_document_encoding,
    }
}

/// A companion's metadata.
pub fn inherit_metadata(input: &Metadata, tool: &str) -> (r: Metadata)
    ensures
        r@ == inherited(input@, tool@),
{
    Metadata {
        version: input.version,
        tool_name: tool.to_string(),
        tool_version: version::VERSION.to_string(),
        project_root: input.project_root.clone(),
        text_document_encoding: input.text_document_encoding,
    }
}

/// The links of a symbol to the native definition, if that is known: the
/// symbol implements, references and is defined by it.
pub open spec fn links_to(target: Option<Seq<char>>) -> Seq<index::RelationshipView> {
    match target {
        Some(symbol) => seq![
            index::RelationshipView {
                symbol,
                is_reference: true,
                is_implementation: true,
                is_definition: true,
            },
        ],
        None => Seq::empty(),
    }
}

/// What a companion says of a symbol.
pub open spec fn described(
    symbol: Seq<char>,
    name: Seq<char>,
    kind: i32,
    target: Option<Seq<char>>,
) -> index::SymbolView {
    index::SymbolView {
        symbol,
        display_name: name,
        kind,
        signature: None,
        relationships: links_to(target),
    }
}

/// What a companion says of a symbol.
pub fn describe(symbol: &str, name: &str, kind: i32, target: Option<&str>) -> (r:
    SymbolInformation)
    ensures
        r@ == described(symbol@, name@, kind, text::opt_str_view(target)),
{
    let mut relationships: Vec<Relationship> = Vec::new();
    if let Some(target) = target {
        relationships.push(
            Relationship {
                symbol: target.to_string(),
                is_reference: true,
                is_implementation: true,
                is_definition: true,
            },
        );
    }
    let r = SymbolInformation {
        symbol: symbol.to_string(),
        display_name: name.to_string(),
        kind,
        signature: None,
        relationships,
    };
    assert(r@.relationships =~= links_to(text::opt_str_view(target)));
    r
}

/// Whether no symbol of a document has a signature.
pub open spec fn is_unsigned(d: index::DocumentView) -> bool {
    forall|i: int| 0 <= i < d.symbols.len() ==> (#[trigger] d.symbols[i]).signature is None
}

/// Whether no symbol of the documents has a signature.
pub open spec fn are_unsigned(v: Seq<index::DocumentView>) -> bool {
    forall|i: int| 0 <= i < v.len() ==> is_unsigned(#[trigger] v[i])
}

/// Whether protobuf bytes hold an index, as far as protobuf can count them.
pub open spec fn bytes_hold(bytes: Seq<u8>, index: index::IndexView) -> bool {
    bytes.len() <= i32::MAX ==> index::index_message(bytes) == Some(index)
}

/// Whether the result of an augmentation is the companion `index` with its
/// counts.
pub open spec fn is_written(
    r: (AugmentOutcome, Option<Vec<u8>>),
    index: index::IndexView,
    exports: nat,
) -> bool {
    match r {
        (AugmentOutcome::Written(stats), Some(bytes)) => {
            &&& stats.documents == index.documents.len()
            &&& stats.exports == exports
            &&& bytes_hold(bytes@, index)
        },
        _ => false,
    }
}

/// The protobuf bytes of an index without signatures.
pub fn encode_unsigned(index: Index) -> (r: Vec<u8>)
    requires
        are_unsigned(index@.documents),
    ensures
        bytes_hold(r@, index@),
{
    let ghost all = index@;
    proof {
        assert forall|i: int| 0 <= i < all.documents.len() implies #[trigger] index::written_document(
            all.documents[i],
        ) == all.documents[i] by {
            let d = all.documents[i];
            assert(is_unsigned(d));
            assert(index::written_document(d).symbols =~= d.symbols);
        }
        assert(index::written_part(all).documents =~= all.documents);
    }
    index::encode(index)
}

/// The result of an augmentation that produced `index`.
pub fn finish(index: Index, exports: usize) -> (r: (AugmentOutcome, Option<Vec<u8>>))
    requires
        are_unsigned(index@.documents),
    ensures
        is_written(r, index@, exports as nat),
{
    let documents = index.documents.len();
    let bytes = encode_unsigned(index);
    (AugmentOutcome::Written(AugmentStats { documents, exports }), Some(bytes))
}

/// The different texts of a list, in the order in which they first appear.
pub open spec fn distinct(v: Seq<Seq<char>>) -> Seq<Seq<char>>
    decreases v.len(),
{
    if v.len() == 0 {
        Seq::empty()
    } else {
        let before = distinct(v.drop_last());
        if before.contains(v.last()) {
            before
        } else {
            before.push(v.last())
        }
    }
}

/// `distinct` holds the texts of the list, each once.
pub proof fn lemma_distinct(v: Seq<Seq<char>>)
    ensures
        forall|s: Seq<char>| distinct(v).contains(s) <==> v.contains(s),
        distinct(v).no_duplicates(),
    decreases v.len(),
{
    if v.len() > 0 {
        let front = v.drop_last();
        let before = distinct(front);
        lemma_distinct(front);
        assert(v =~= front.push(v.last()));
        assert forall|s: Seq<char>| distinct(v).contains(s) <==> v.contains(s) by {
            if front.contains(s) {
                assert(v[front.index_of(s)] == s);
            }
            if before.contains(s) {
                assert(before.push(v.last())[before.index_of(s)] == s);
            }
            if s == v.last() {
                assert(v[v.len() - 1] == s);
                assert(before.push(v.last())[before.len() as int] == s);
            }
            if v.contains(s) && s != v.last() {
                let i = v.index_of(s);
                assert(front[i] == s);
            }
        }
    }
}

/// Whether a version tells something: it is not empty and not one of the
/// placeholders that count, a dot for an empty field and a dollar sign for
/// scip-clang's unversioned packages.
pub open spec fn is_version(v: Seq<char>, dots: bool, dollars: bool) -> bool {
    v.len() > 0 && !(dots && v == "."@) && !(dollars && v == "$"@)
}

/// The first version among symbols.
pub open spec fn first_version_in(
    v: Seq<index::SymbolView>,
    dots: bool,
    dollars: bool,
) -> Option<Seq<char>>
    decreases v.len(),
{
    if v.len() == 0 {
        None
    } else {
        match symbol::version_of(v[0].symbol) {
            Some(found) => if is_version(found, dots, dollars) {
                Some(found)
            } else {
                first_version_in(v.skip(1), dots, dollars)
            },
            None => first_version_in(v.skip(1), dots, dollars),
        }
    }
}

/// The first version among the symbols that documents describe.
pub open spec fn first_version(
    v: Seq<index::DocumentView>,
    dots: bool,
    dollars: bool,
) -> Option<Seq<char>>
    decreases v.len(),
{
    if v.len() == 0 {
        None
    } else {
        match first_version_in(v[0].symbols, dots, dollars) {
            Some(found) => Some(found),
            None => first_version(v.skip(1), dots, dollars),
        }
    }
}

/// The first version among the symbols of a document.
fn document_version(d: &SourceDocument, dots: bool, dollars: bool) -> (r: Option<String>)
    ensures
        text::opt_view(r) == first_version_in(d@.symbols, dots, dollars),
{
    let ghost all = d@.symbols;
    let mut i: usize = 0;
    assert(all.skip(0) =~= all);
    while i < d.symbols.len()
        invariant
            0 <= i <= d.symbols@.len(),
            all == index::symbol_views(d.symbols@),
            first_version_in(all, dots, dollars) == first_version_in(
                all.skip(i as int),
                dots,
                dollars,
            ),
        decreases d.symbols.len() - i,
    {
        assert(all[i as int] == d.symbols@[i as int]@);
        assert(all.skip(i as int).skip(1) =~= all.skip(i + 1));
        if let Some(v) = symbol::symbol_version(d.symbols[i].symbol.as_str()) {
            if !text::is_empty_text(v.as_str()) && !(dots && text::str_eq(v.as_str(), ".")) && !(dollars
                && text::str_eq(v.as_str(), "$")) {
                return Some(v);
            }
        }
        i += 1;
    }
    None
}

/// The version of the first package that an index has symbols of.
pub fn first_package_version(input: &Index, dots: bool, dollars: bool) -> (r: Option<String>)
    ensures
        text::opt_view(r) == first_version(input@.documents, dots, dollars),
{
    let ghost all = input@.documents;
    let mut i: usize = 0;
    assert(all.skip(0) =~= all);
    while i < input.documents.len()
        invariant
            0 <= i <= input.documents@.len(),
            all == index::document_views(input.documents@),
            first_version(all, dots, dollars) == first_version(all.skip(i as int), dots, dollars),
        decreases input.documents.len() - i,
    {
        assert(all[i as int] == input.documents@[i as int]@);
        assert(all.skip(i as int).skip(1) =~= all.skip(i + 1));
        let found = document_version(&input.documents[i], dots, dollars);
        if found.is_some() {
            return found;
        }
        i += 1;
    }
    None
}

/// Whether a list holds a string.
pub fn holds(v: &Vec<String>, s: &str) -> (r: bool)
    ensures
        r == text::strings_view(v@).contains(s@),
{
    let ghost views = text::strings_view(v@);
    let mut i: usize = 0;
    while i < v.len()
        invariant
            0 <= i <= v@.len(),
            views == text::strings_view(v@),
            forall|j: int| 0 <= j < i ==> #[trigger] views[j] != s@,
        decreases v.len() - i,
    {
        assert(views[i as int] == v@[i as int]@);
        if text::str_eq(v[i].as_str(), s) {
            return true;
        }
        i += 1;
    }
    false
}

/// Adds `s` to a list of different strings, unless it is there.
pub fn add_distinct(v: &mut Vec<String>, s: &str)
    ensures
        text::strings_view(final(v)@) == (if text::strings_view(old(v)@).contains(s@) {
            text::strings_view(old(v)@)
        } else {
            text::strings_view(old(v)@).push(s@)
        }),
{
    if !holds(v, s) {
        let ghost before = text::strings_view(v@);
        v.push(s.to_string());
        assert(text::strings_view(v@) =~= before.push(s@));
    }
}

/// A symbol that a companion is to define.
#[derive(Debug)]
pub struct Emission {
    /// The document to define it in.
    pub path: String,
    pub symbol: String,
    pub display_name: String,
    pub kind: i32,
    /// The native symbol that it stands for, where that is known.
    pub target: Option<String>,
    /// Where it is defined, if there is such a place.
    pub range: Option<Vec<i32>>,
}

/// What an [`Emission`] holds.
#[verifier::ext_equal]
pub struct EmissionView {
    pub path: Seq<char>,
    pub symbol: Seq<char>,
    pub display_name: Seq<char>,
    pub kind: i32,
    pub target: Option<Seq<char>>,
    pub range: Option<Seq<i32>>,
}

/// The numbers of an optional range.
pub open spec fn range_view(r: Option<Vec<i32>>) -> Option<Seq<i32>> {
    match r {
        Some(r) => Some(r@),
        None => None,
    }
}

impl View for Emission {
    type V = EmissionView;

    open spec fn view(&self) -> EmissionView {
        EmissionView {
            path: self.path@,
            symbol: self.symbol@,
            display_name: self.display_name@,
            kind: self.kind,
            target: text::opt_view(self.target),
            range: range_view(self.range),
        }
    }
}

/// What each emission of a list holds.
pub open spec fn emission_views(v: Seq<Emission>) -> Seq<EmissionView> {
    v.map_values(|e: Emission| e@)
}

/// A range as an index holds it: line, first column and column after the
/// last.
pub open spec fn span_range(span: (u32, u32, u32)) -> Seq<i32> {
    seq![span.0 as i32, span.1 as i32, span.2 as i32]
}

/// A range as an index holds it.
pub fn range_of(span: (u32, u32, u32)) -> (r: Vec<i32>)
    ensures
        r@ == span_range(span),
{
    let mut range: Vec<i32> = Vec::new();
    range.push(
        #[verifier::truncate]
        (span.0 as i32),
    );
    range.push(
        #[verifier::truncate]
        (span.1 as i32),
    );
    range.push(
        #[verifier::truncate]
        (span.2 as i32),
    );
    assert(range@ =~= span_range(span));
    range
}

/// What a companion says of an emitted symbol.
pub open spec fn emitted_symbol(e: EmissionView) -> index::SymbolView {
    described(e.symbol, e.display_name, e.kind, e.target)
}

/// The definition of an emitted symbol at a range.
pub open spec fn definition_at(symbol: Seq<char>, range: Seq<i32>) -> index::OccurrenceView {
    index::OccurrenceView { symbol, symbol_roles: index::ROLE_DEFINITION, range }
}

/// A document with one more symbol, and its definition where it has one.
pub open spec fn with_emission(d: index::DocumentView, e: EmissionView) -> index::DocumentView {
    index::DocumentView {
        symbols: d.symbols.push(emitted_symbol(e)),
        occurrences: match e.range {
            Some(range) => d.occurrences.push(definition_at(e.symbol, range)),
            None => d.occurrences,
        },
        ..d
    }
}

/// The document of `path`: the symbols emitted for it, in order.
pub open spec fn document_of(
    language: Seq<char>,
    path: Seq<char>,
    es: Seq<EmissionView>,
) -> index::DocumentView
    decreases es.len(),
{
    if es.len() == 0 {
        index::DocumentView { language, relative_path: path, ..index::empty_document() }
    } else {
        let before = document_of(language, path, es.drop_last());
        if es.last().path == path {
            with_emission(before, es.last())
        } else {
            before
        }
    }
}

/// The paths that symbols are emitted for, in order and each once.
pub open spec fn emitted_paths(es: Seq<EmissionView>) -> Seq<Seq<char>> {
    distinct(es.map_values(|e: EmissionView| e.path))
}

/// The documents of emitted symbols: one for each path, in the order in
/// which the paths first appear.
pub open spec fn documents_of(language: Seq<char>, es: Seq<EmissionView>) -> Seq<
    index::DocumentView,
> {
    emitted_paths(es).map_values(|p: Seq<char>| document_of(language, p, es))
}

/// Adds an emitted symbol to a document.
fn emit(doc: &mut SourceDocument, e: &Emission)
    ensures
        final(doc)@ == with_emission(old(doc)@, e@),
        is_unsigned(old(doc)@) ==> is_unsigned(final(doc)@),
{
    let ghost before = doc@;
    let target = match &e.target {
        Some(t) => Some(t.as_str()),
        None => None,
    };
    let info = describe(e.symbol.as_str(), e.display_name.as_str(), e.kind, target);
    let ghost iv = info@;
    doc.symbols.push(info);
    assert(doc@.symbols =~= before.symbols.push(iv));
    if let Some(at) = &e.range {
        let mut range: Vec<i32> = Vec::new();
        range.extend_from_slice(at.as_slice());
        assert(range@ =~= at@);
        let occurrence = Occurrence {
            symbol: e.symbol.clone(),
            symbol_roles: index::ROLE_DEFINITION,
            range,
        };
        let ghost ov = occurrence@;
        doc.occurrences.push(occurrence);
        assert(doc@.occurrences =~= before.occurrences.push(ov));
    }
}

/// The document of `path`.
fn build_document(language: &str, path: &str, es: &Vec<Emission>) -> (r: SourceDocument)
    ensures
        r@ == document_of(language@, path@, emission_views(es@)),
        is_unsigned(r@),
{
    let ghost all = emission_views(es@);
    let mut doc = SourceDocument::titled(language, path);
    let mut i: usize = 0;
    while i < es.len()
        invariant
            0 <= i <= es@.len(),
            all == emission_views(es@),
            doc@ == document_of(language@, path@, all.take(i as int)),
            is_unsigned(doc@),
        decreases es.len() - i,
    {
        assert(all[i as int] == es@[i as int]@);
        assert(all.take(i + 1).drop_last() =~= all.take(i as int));
        if text::str_eq(es[i].path.as_str(), path) {
            emit(&mut doc, &es[i]);
        }
        i += 1;
    }
    assert(all.take(i as int) =~= all);
    doc
}

/// The documents of emitted symbols.
pub fn build_documents(language: &str, es: &Vec<Emission>) -> (r: Vec<SourceDocument>)
    ensures
        index::document_views(r@) == documents_of(language@, emission_views(es@)),
        are_unsigned(index::document_views(r@)),
{
    let ghost all = emission_views(es@);
    let ghost all_paths = all.map_values(|e: EmissionView| e.path);
    let mut paths: Vec<String> = Vec::new();
    let mut i: usize = 0;
    assert(text::strings_view(paths@) =~= distinct(all_paths.take(0)));
    while i < es.len()
        invariant
            0 <= i <= es@.len(),
            all == emission_views(es@),
            all_paths == all.map_values(|e: EmissionView| e.path),
            text::strings_view(paths@) == distinct(all_paths.take(i as int)),
        decreases es.len() - i,
    {
        assert(all_paths[i as int] == es@[i as int].path@);
        assert(all_paths.take(i + 1).drop_last() =~= all_paths.take(i as int));
        add_distinct(&mut paths, es[i].path.as_str());
        i += 1;
    }
    assert(all_paths.take(i as int) =~= all_paths);
    let ghost pv = text::strings_view(paths@);
    let ghost make = |p: Seq<char>| document_of(language@, p, all);
    let mut docs: Vec<SourceDocument> = Vec::new();
    let mut k: usize = 0;
    while k < paths.len()
        invariant
            0 <= k <= paths@.len(),
            all == emission_views(es@),
            pv == text::strings_view(paths@),
            make == (|p: Seq<char>| document_of(language@, p, all)),
            index::document_views(docs@) =~= pv.take(k as int).map_values(make),
            are_unsigned(index::document_views(docs@)),
        decreases paths.len() - k,
    {
        let ghost had = index::document_views(docs@);
        assert(pv[k as int] == paths@[k as int]@);
        let doc = build_document(language, paths[k].as_str(), es);
        let ghost dv = doc@;
        docs.push(doc);
        assert(index::document_views(docs@) =~= had.push(dv));
        k += 1;
        assert(pv.take(k as int).map_values(make) =~= pv.take(k - 1).map_values(make).push(
            make(pv[k - 1]),
        ));
    }
    assert(pv.take(k as int) =~= pv);
    docs
}

/// Whether `after` is the document `before` with one more symbol and its
/// definition: the symbol of an export that is called `name`, registered at
/// `span`, and that the native symbol `target` is known to implement, if any.
pub open spec fn adds_one(
    before: index::DocumentView,
    after: index::DocumentView,
    name: Seq<char>,
    span: (u32, u32, u32),
    target: Option<Seq<char>>,
) -> bool {
    let s = after.symbols.last();
    let o = after.occurrences.last();
    &&& after.language == before.language
    &&& after.relative_path == before.relative_path
    &&& after.symbols.len() == before.symbols.len() + 1
    &&& after.symbols.drop_last() == before.symbols
    &&& after.occurrences.len() == before.occurrences.len() + 1
    &&& after.occurrences.drop_last() == before.occurrences
    &&& s.display_name == name
    &&& o.symbol == s.symbol
    &&& o.symbol_roles == index::ROLE_DEFINITION
    &&& o.range == seq![span.0 as i32, span.1 as i32, span.2 as i32]
    &&& target is None ==> s.relationships.len() == 0
    &&& target matches Some(native) ==> {
        &&& s.relationships.len() == 1
        &&& s.relationships[0].symbol == native
        &&& s.relationships[0].is_reference
        &&& s.relationships[0].is_implementation
        &&& s.relationships[0].is_definition
    }
}

/// An emitted symbol that has a place adds exactly itself and its definition
/// to a document, with at most one link, which is of every kind.
pub proof fn law_emission_adds_one(
    before: index::DocumentView,
    e: EmissionView,
    span: (u32, u32, u32),
)
    requires
        e.range == Some(span_range(span)),
    ensures
        adds_one(before, with_emission(before, e), e.display_name, span, e.target),
{
    let after = with_emission(before, e);
    assert(after.symbols.drop_last() =~= before.symbols);
    assert(after.occurrences.drop_last() =~= before.occurrences);
}

/// One more emitted symbol goes to the document of its path and leaves every
/// other document as it is.
pub proof fn law_emissions_in_turn(
    language: Seq<char>,
    path: Seq<char>,
    es: Seq<EmissionView>,
    e: EmissionView,
)
    ensures
        document_of(language, path, es.push(e)) == (if e.path == path {
            with_emission(document_of(language, path, es), e)
        } else {
            document_of(language, path, es)
        }),
{
    assert(es.push(e).drop_last() =~= es);
}

/// How many of the symbols are emitted for `path`.
pub open spec fn count_at(es: Seq<EmissionView>, path: Seq<char>) -> nat
    decreases es.len(),
{
    if es.len() == 0 {
        0
    } else {
        count_at(es.drop_last(), path) + if es.last().path == path {
            1nat
        } else {
            0nat
        }
    }
}

/// A document has as many symbols as are emitted for its path, and each of
/// those with its definition.
pub proof fn law_document_symbols(
    language: Seq<char>,
    path: Seq<char>,
    es: Seq<EmissionView>,
    e: EmissionView,
)
    ensures
        document_of(language, path, es).symbols.len() == count_at(es, path),
        es.contains(e) && e.path == path ==> document_of(language, path, es).symbols.contains(
            emitted_symbol(e),
        ),
        es.contains(e) && e.path == path && e.range is Some ==> document_of(
            language,
            path,
            es,
        ).occurrences.contains(definition_at(e.symbol, e.range.unwrap())),
        document_of(language, path, es).relative_path == path,
        document_of(language, path, es).language == language,
    decreases es.len(),
{
    if es.len() > 0 {
        let front = es.drop_last();
        let before = document_of(language, path, front);
        let after = document_of(language, path, es);
        law_document_symbols(language, path, front, e);
        if es.contains(e) && e.path == path {
            let i = es.index_of(e);
            if i < front.len() {
                assert(front[i] == e);
                let k = before.symbols.index_of(emitted_symbol(e));
                assert(after.symbols[k] == emitted_symbol(e));
                if e.range is Some {
                    let d = definition_at(e.symbol, e.range.unwrap());
                    let k = before.occurrences.index_of(d);
                    assert(after.occurrences[k] == d);
                }
            } else {
                assert(after.symbols[before.symbols.len() as int] == emitted_symbol(e));
                if e.range is Some {
                    let d = definition_at(e.symbol, e.range.unwrap());
                    assert(after.occurrences[before.occurrences.len() as int] == d);
                }
            }
        }
    }
}

/// Every emitted symbol stands in exactly one document: the one of its path.
/// Each document is of a path that a symbol is emitted for, so none is empty.
pub proof fn law_documents_cover(language: Seq<char>, es: Seq<EmissionView>)
    ensures
        forall|i: int|
            0 <= i < es.len() ==> exists|k: int|
                0 <= k < documents_of(language, es).len() && (#[trigger] documents_of(
                    language,
                    es,
                )[k]).relative_path == (#[trigger] es[i]).path && documents_of(
                    language,
                    es,
                )[k].symbols.contains(emitted_symbol(es[i])),
        forall|j: int, k: int|
            0 <= j < k < documents_of(language, es).len() ==> (#[trigger] documents_of(
                language,
                es,
            )[j]).relative_path != (#[trigger] documents_of(language, es)[k]).relative_path,
        forall|k: int|
            0 <= k < documents_of(language, es).len() ==> (#[trigger] documents_of(
                language,
                es,
            )[k]).symbols.len() > 0,
{
    let paths = es.map_values(|e: EmissionView| e.path);
    let docs = documents_of(language, es);
    lemma_distinct(paths);
    assert forall|k: int| 0 <= k < docs.len() implies (#[trigger] docs[k]).relative_path
        == emitted_paths(es)[k] && docs[k].symbols.len() > 0 by {
        let p = emitted_paths(es)[k];
        assert(distinct(paths).contains(p));
        assert(paths.contains(p));
        let i = paths.index_of(p);
        assert(paths[i] == es[i].path);
        law_document_symbols(language, p, es, es[i]);
        assert(es.contains(es[i]));
        assert(docs[k].symbols.contains(emitted_symbol(es[i])));
    }
    assert forall|i: int| 0 <= i < es.len() implies exists|k: int|
        0 <= k < docs.len() && (#[trigger] docs[k]).relative_path == (#[trigger] es[i]).path
            && docs[k].symbols.contains(emitted_symbol(es[i])) by {
        let p = es[i].path;
        assert(paths[i] == p);
        assert(paths.contains(p));
        let k = distinct(paths).index_of(p);
        law_document_symbols(language, p, es, es[i]);
        assert(es.contains(es[i]));
        assert(docs[k].relative_path == p);
    }
}

/// Whether a symbol is one that is emitted for `path`.
pub open spec fn is_emitted(es: Seq<EmissionView>, path: Seq<char>, s: index::SymbolView) -> bool {
    exists|i: int| 0 <= i < es.len() && (#[trigger] es[i]).path == path && s == emitted_symbol(es[i])
}

/// Whether an occurrence is the definition of a symbol that is emitted for
/// `path`, at the range that the symbol is emitted with.
pub open spec fn is_placed(
    es: Seq<EmissionView>,
    path: Seq<char>,
    o: index::OccurrenceView,
) -> bool {
    exists|i: int|
        0 <= i < es.len() && (#[trigger] es[i]).path == path && es[i].range is Some && o
            == definition_at(es[i].symbol, es[i].range.unwrap())
}

/// A document holds nothing but symbols that are emitted for its path, and
/// their definitions.
pub proof fn law_document_sources(language: Seq<char>, path: Seq<char>, es: Seq<EmissionView>)
    ensures
        forall|k: int|
            0 <= k < document_of(language, path, es).symbols.len() ==> is_emitted(
                es,
                path,
                #[trigger] document_of(language, path, es).symbols[k],
            ),
        forall|k: int|
            0 <= k < document_of(language, path, es).occurrences.len() ==> is_placed(
                es,
                path,
                #[trigger] document_of(language, path, es).occurrences[k],
            ),
    decreases es.len(),
{
    if es.len() > 0 {
        let front = es.drop_last();
        let before = document_of(language, path, front);
        let after = document_of(language, path, es);
        law_document_sources(language, path, front);
        assert forall|k: int| 0 <= k < after.symbols.len() implies is_emitted(
            es,
            path,
            #[trigger] after.symbols[k],
        ) by {
            if k < before.symbols.len() {
                assert(is_emitted(front, path, before.symbols[k]));
                let i = choose|i: int|
                    0 <= i < front.len() && (#[trigger] front[i]).path == path && before.symbols[k]
                        == emitted_symbol(front[i]);
                assert(es[i] == front[i]);
            } else {
                assert(es[es.len() - 1].path == path);
            }
        }
        assert forall|k: int| 0 <= k < after.occurrences.len() implies is_placed(
            es,
            path,
            #[trigger] after.occurrences[k],
        ) by {
            if k < before.occurrences.len() {
                assert(is_placed(front, path, before.occurrences[k]));
                let i = choose|i: int|
                    0 <= i < front.len() && (#[trigger] front[i]).path == path
                        && front[i].range is Some && before.occurrences[k] == definition_at(
                        front[i].symbol,
                        front[i].range.unwrap(),
                    );
                assert(es[i] == front[i]);
            } else {
                assert(es[es.len() - 1].path == path);
            }
        }
    }
}

/// Whether a symbol is linked to nothing but the given symbols.
pub open spec fn links_into(s: index::SymbolView, natives: Seq<Seq<char>>) -> bool {
    forall|r: int|
        0 <= r < s.relationships.len() ==> natives.contains(
            (#[trigger] s.relationships[r]).symbol,
        )
}

/// Whether the symbols of a document are linked to nothing but the given
/// symbols.
pub open spec fn document_links_into(d: index::DocumentView, natives: Seq<Seq<char>>) -> bool {
    forall|k: int| 0 <= k < d.symbols.len() ==> links_into(#[trigger] d.symbols[k], natives)
}

/// Whether the symbols of documents are linked to nothing but the given
/// symbols.
pub open spec fn all_link_into(
    docs: Seq<index::DocumentView>,
    natives: Seq<Seq<char>>,
) -> bool {
    forall|i: int| 0 <= i < docs.len() ==> document_links_into(#[trigger] docs[i], natives)
}

/// Whether the targets of emitted symbols are among the given symbols.
pub open spec fn targets_in(es: Seq<EmissionView>, natives: Seq<Seq<char>>) -> bool {
    forall|i: int|
        0 <= i < es.len() ==> ((#[trigger] es[i]).target matches Some(t) ==> natives.contains(t))
}

/// Where the targets of the emitted symbols are among the native symbols, the
/// documents link to nothing else.
pub proof fn law_links(language: Seq<char>, es: Seq<EmissionView>, natives: Seq<Seq<char>>)
    requires
        targets_in(es, natives),
    ensures
        all_link_into(documents_of(language, es), natives),
{
    let docs = documents_of(language, es);
    assert forall|i: int| 0 <= i < docs.len() implies document_links_into(
        #[trigger] docs[i],
        natives,
    ) by {
        let path = emitted_paths(es)[i];
        law_document_sources(language, path, es);
        assert(docs[i] == document_of(language, path, es));
        assert forall|k: int| 0 <= k < docs[i].symbols.len() implies links_into(
            #[trigger] docs[i].symbols[k],
            natives,
        ) by {
            let s = docs[i].symbols[k];
            assert(is_emitted(es, path, s));
            let e = choose|e: int|
                0 <= e < es.len() && (#[trigger] es[e]).path == path && s == emitted_symbol(es[e]);
            assert(s.relationships == links_to(es[e].target));
        }
    }
}

} // verus!
