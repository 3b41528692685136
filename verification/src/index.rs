//! The part of a SCIP index that the augments read and write.
//!
//! An index comes in and goes out as protobuf bytes. Here it is a tree of
//! plain values; `decode` and `encode` convert.

use crate::text;
use scip::types as message;
use vstd::prelude::*;

verus! {

/// The bit of `symbol_roles` that marks a definition.
pub const ROLE_DEFINITION: i32 = 1;

/// Whether the roles of an occurrence mark a definition.
pub open spec fn is_definition(roles: i32) -> bool {
    roles & ROLE_DEFINITION != 0
}

/// Whether the roles of an occurrence mark a definition.
pub fn defines(roles: i32) -> (r: bool)
    ensures
        r == is_definition(roles),
{
    roles & ROLE_DEFINITION != 0
}

/// Symbol kinds, numbered as in the SCIP schema.
pub const KIND_CLASS: i32 = 7;

pub const KIND_FUNCTION: i32 = 17;

pub const KIND_METHOD: i32 = 26;

pub const KIND_MODULE: i32 = 29;

pub const KIND_STATIC_METHOD: i32 = 80;

/// An index.
#[derive(Debug)]
pub struct Index {
    pub metadata: Metadata,
    pub documents: Vec<SourceDocument>,
}

/// What an index says of itself.
#[derive(Debug)]
pub struct Metadata {
    pub version: i32,
    pub tool_name: String,
    pub tool_version: String,
    pub project_root: String,
    pub text_document_encoding: i32,
}

/// The symbols of one source file.
#[derive(Debug)]
pub struct SourceDocument {
    pub language: String,
    pub relative_path: String,
    pub occurrences: Vec<Occurrence>,
    pub symbols: Vec<SymbolInformation>,
}

/// A place in a source file where a symbol stands.
#[derive(Debug)]
pub struct Occurrence {
    pub symbol: String,
    pub symbol_roles: i32,
    pub range: Vec<i32>,
}

/// What an index says of a symbol.
#[derive(Debug)]
pub struct SymbolInformation {
    pub symbol: String,
    pub display_name: String,
    pub kind: i32,
    /// The text of the signature, where the index has one.
    pub signature: Option<String>,
    pub relationships: Vec<Relationship>,
}

/// A link from one symbol to another.
#[derive(Debug)]
pub struct Relationship {
    pub symbol: String,
    pub is_reference: bool,
    pub is_implementation: bool,
    pub is_definition: bool,
}

/// What an [`Index`] holds.
#[verifier::ext_equal]
pub struct IndexView {
    pub metadata: MetadataView,
    pub documents: Seq<DocumentView>,
}

/// What a [`Metadata`] holds.
#[verifier::ext_equal]
pub struct MetadataView {
    pub version: i32,
    pub tool_name: Seq<char>,
    pub tool_version: Seq<char>,
    pub project_root: Seq<char>,
    pub text_document_encoding: i32,
}

/// What a [`SourceDocument`] holds.
#[verifier::ext_equal]
pub struct DocumentView {
    pub language: Seq<char>,
    pub relative_path: Seq<char>,
    pub occurrences: Seq<OccurrenceView>,
    pub symbols: Seq<SymbolView>,
}

/// What an [`Occurrence`] holds.
#[verifier::ext_equal]
pub struct OccurrenceView {
    pub symbol: Seq<char>,
    pub symbol_roles: i32,
    pub range: Seq<i32>,
}

/// What a [`SymbolInformation`] holds.
#[verifier::ext_equal]
pub struct SymbolView {
    pub symbol: Seq<char>,
    pub display_name: Seq<char>,
    pub kind: i32,
    pub signature: Option<Seq<char>>,
    pub relationships: Seq<RelationshipView>,
}

/// What a [`Relationship`] holds.
#[verifier::ext_equal]
pub struct RelationshipView {
    pub symbol: Seq<char>,
    pub is_reference: bool,
    pub is_implementation: bool,
    pub is_definition: bool,
}

impl View for Relationship {
    type V = RelationshipView;

    open spec fn view(&self) -> RelationshipView {
        RelationshipView {
            symbol: self.symbol@,
            is_reference: self.is_reference,
            is_implementation: self.is_implementation,
            is_definition: self.is_definition,
        }
    }
}

impl View for SymbolInformation {
    type V = SymbolView;

    open spec fn view(&self) -> SymbolView {
        SymbolView {
            symbol: self.symbol@,
            display_name: self.display_name@,
            kind: self.kind,
            signature: text::opt_view(self.signature),
            relationships: self.relationships@.map_values(|r: Relationship| r@),
        }
    }
}

impl View for Occurrence {
    type V = OccurrenceView;

    open spec fn view(&self) -> OccurrenceView {
        OccurrenceView {
            symbol: self.symbol@,
            symbol_roles: self.symbol_roles,
            range: self.range@,
        }
    }
}

/// What each occurrence of a list holds.
pub open spec fn occurrence_views(v: Seq<Occurrence>) -> Seq<OccurrenceView> {
    v.map_values(|o: Occurrence| o@)
}

/// What each symbol of a list holds.
pub open spec fn symbol_views(v: Seq<SymbolInformation>) -> Seq<SymbolView> {
    v.map_values(|s: SymbolInformation| s@)
}

impl View for SourceDocument {
    type V = DocumentView;

    open spec fn view(&self) -> DocumentView {
        DocumentView {
            language: self.language@,
            relative_path: self.relative_path@,
            occurrences: occurrence_views(self.occurrences@),
            symbols: symbol_views(self.symbols@),
        }
    }
}

/// What each document of a list holds.
pub open spec fn document_views(v: Seq<SourceDocument>) -> Seq<DocumentView> {
    v.map_values(|d: SourceDocument| d@)
}

impl View for Metadata {
    type V = MetadataView;

    open spec fn view(&self) -> MetadataView {
        MetadataView {
            version: self.version,
            tool_name: self.tool_name@,
            tool_version: self.tool_version@,
            project_root: self.project_root@,
            text_document_encoding: self.text_document_encoding,
        }
    }
}

impl View for Index {
    type V = IndexView;

    open spec fn view(&self) -> IndexView {
        IndexView { metadata: self.metadata@, documents: document_views(self.documents@) }
    }
}

impl Index {
    /// An index with no documents.
    pub fn new() -> (r: Self)
        ensures
            r@ == (IndexView {
                metadata: MetadataView {
                    version: 0,
                    tool_name: Seq::empty(),
                    tool_version: Seq::empty(),
                    project_root: Seq::empty(),
                    text_document_encoding: 0,
                },
                documents: Seq::empty(),
            }),
    {
        let r = Index {
            metadata: Metadata {
                version: 0,
                tool_name: String::new(),
                tool_version: String::new(),
                project_root: String::new(),
                text_document_encoding: 0,
            },
            documents: Vec::new(),
        };
        assert(r@.documents =~= Seq::empty());
        r
    }
}

/// A document with no symbols.
pub open spec fn empty_document() -> DocumentView {
    DocumentView {
        language: Seq::empty(),
        relative_path: Seq::empty(),
        occurrences: Seq::empty(),
        symbols: Seq::empty(),
    }
}

impl SourceDocument {
    /// A document with no symbols.
    pub fn new() -> (r: Self)
        ensures
            r@ == empty_document(),
    {
        let r = SourceDocument {
            language: String::new(),
            relative_path: String::new(),
            occurrences: Vec::new(),
            symbols: Vec::new(),
        };
        assert(r@ =~= empty_document());
        r
    }

    /// A document of `path` in `language` with no symbols.
    pub fn titled(language: &str, path: &str) -> (r: Self)
        ensures
            r@ == (DocumentView { language: language@, relative_path: path@, ..empty_document() }),
    {
        let r = SourceDocument {
            language: language.to_string(),
            relative_path: path.to_string(),
            occurrences: Vec::new(),
            symbols: Vec::new(),
        };
        assert(r@ =~= DocumentView { language: language@, relative_path: path@, ..empty_document() });
        r
    }
}

impl SymbolInformation {
    /// A symbol of which nothing is known.
    pub fn new() -> (r: Self)
        ensures
            r@ == (SymbolView {
                symbol: Seq::empty(),
                display_name: Seq::empty(),
                kind: 0,
                signature: None,
                relationships: Seq::empty(),
            }),
    {
        let r = SymbolInformation {
            symbol: String::new(),
            display_name: String::new(),
            kind: 0,
            signature: None,
            relationships: Vec::new(),
        };
        assert(r@.relationships =~= Seq::empty());
        r
    }
}

/// The message that protobuf bytes hold as a SCIP index, if they hold one.
pub uninterp spec fn index_message(bytes: Seq<u8>) -> Option<IndexView>;

/// What a SCIP document message holds.
pub uninterp spec fn document_message(d: message::Document) -> DocumentView;

/// protobuf's error, carried through and never looked into.
#[verifier::external_type_specification]
#[verifier::external_body]
pub struct ExProtobufError(protobuf::Error);

/// A SCIP document as protobuf holds it.
#[verifier::external_type_specification]
#[verifier::external_body]
pub struct ExDocument(scip::types::Document);

/// A symbol as it comes out of a message: its string, display name, kind and
/// signature.
pub type SymbolRow = (String, String, i32, Option<String>);

/// An occurrence as it comes out of a message: symbol, roles and range.
pub type OccurrenceRow = (String, i32, Vec<i32>);

/// A document as it comes out of a message: path, occurrences and symbols.
pub type DocumentRow = (String, Vec<OccurrenceRow>, Vec<SymbolRow>);

/// An occurrence of a message holds what its row says.
pub open spec fn occurrence_agrees(row: OccurrenceRow, o: OccurrenceView) -> bool {
    o == OccurrenceView { symbol: row.0@, symbol_roles: row.1, range: row.2@ }
}

/// A symbol of a message holds what its row says.
pub open spec fn symbol_agrees(row: SymbolRow, s: SymbolView) -> bool {
    &&& s.symbol == row.0@
    &&& s.display_name == row.1@
    &&& s.kind == row.2
    &&& s.signature == text::opt_view(row.3)
}

/// A document of a message holds what its row says.
pub open spec fn document_agrees(row: DocumentRow, d: DocumentView) -> bool {
    &&& d.relative_path == row.0@
    &&& d.occurrences.len() == row.1@.len()
    &&& forall|i: int|
        0 <= i < row.1@.len() ==> occurrence_agrees(#[trigger] row.1@[i], d.occurrences[i])
    &&& d.symbols.len() == row.2@.len()
    &&& forall|i: int| 0 <= i < row.2@.len() ==> symbol_agrees(#[trigger] row.2@[i], d.symbols[i])
}

/// `protobuf::Message::parse_from_bytes` on a SCIP index: it fails exactly
/// when the bytes hold no such message, and what comes out are the message's
/// protocol version, project root and text encoding, and of each document the
/// path, the occurrences and the symbols.
#[verifier::external_body]
fn parse_index(bytes: &[u8]) -> (r: Result<
    (i32, String, i32, Vec<DocumentRow>),
    protobuf::Error,
>)
    ensures
        r is Err <==> index_message(bytes@) is None,
        r matches Ok(row) ==> {
            &&& index_message(bytes@) matches Some(m)
            &&& m.metadata.version == row.0
            &&& m.metadata.project_root == row.1@
            &&& m.metadata.text_document_encoding == row.2
            &&& m.documents.len() == row.3@.len()
            &&& forall|i: int|
                0 <= i < row.3@.len() ==> document_agrees(#[trigger] row.3@[i], m.documents[i])
        },
{
    let index = <message::Index as protobuf::Message>::parse_from_bytes(bytes)?;
    let rows = index.documents.into_iter().map(|d| (
        d.relative_path,
        d.occurrences.into_iter().map(|o| (o.symbol, o.symbol_roles, o.range)).collect(),
        d.symbols.into_iter().map(|s| {
            let signature = s.signature_documentation.into_option().map(|g| g.text);
            (s.symbol, s.display_name, s.kind.value(), signature)
        }).collect(),
    )).collect();
    let head = index.metadata.unwrap_or_default();
    Ok((head.version.value(), head.project_root, head.text_document_encoding.value(), rows))
}

/// A SCIP document message made of plain values: `scip::types::Document` and
/// the messages in it, every other field left at its default.
#[verifier::external_body]
fn make_document(d: SourceDocument) -> (r: message::Document)
    ensures
        document_message(r) == (DocumentView {
            symbols: d@.symbols.map_values(|s: SymbolView| SymbolView { signature: None, ..s }),
            ..d@
        }),
{
    message::Document {
        language: d.language, relative_path: d.relative_path,
        occurrences: d.occurrences.into_iter().map(|o| message::Occurrence {
            symbol: o.symbol, symbol_roles: o.symbol_roles, range: o.range, ..Default::default()
        }).collect(),
        symbols: d.symbols.into_iter().map(|s| message::SymbolInformation {
            symbol: s.symbol, display_name: s.display_name,
            kind: protobuf::EnumOrUnknown::from_i32(s.kind),
            relationships: s.relationships.into_iter().map(|r| message::Relationship {
                symbol: r.symbol, is_reference: r.is_reference, is_definition: r.is_definition,
                is_implementation: r.is_implementation, ..Default::default()
            }).collect(), ..Default::default()
        }).collect(), ..Default::default()
    }
}

/// `protobuf::Message::write_to_bytes` on a SCIP index made of its metadata
/// and its documents. It does not fail: the message has no required fields and
/// the bytes go to a vector. Parsing the bytes gives the message back, unless
/// they are too many for protobuf's 32-bit lengths.
#[verifier::external_body]
fn write_index(head: &Metadata, documents: Vec<message::Document>) -> (r: Result<
    Vec<u8>,
    protobuf::Error,
>)
    ensures
        r is Ok,
        r matches Ok(bytes) ==> bytes@.len() <= i32::MAX ==> index_message(bytes@) == Some(
            IndexView {
                metadata: head@,
                documents: documents@.map_values(|d: message::Document| document_message(d)),
            },
        ),
{
    let tool = message::ToolInfo {
        name: head.tool_name.clone(), version: head.tool_version.clone(), ..Default::default()
    };
    let metadata = message::Metadata {
        version: protobuf::EnumOrUnknown::from_i32(head.version),
        tool_info: protobuf::MessageField::some(tool),
        project_root: head.project_root.clone(),
        text_document_encoding: protobuf::EnumOrUnknown::from_i32(head.text_document_encoding),
        ..Default::default()
    };
    let metadata = protobuf::MessageField::some(metadata);
    let index = message::Index { metadata, documents, ..Default::default() };
    protobuf::Message::write_to_bytes(&index)
}

/// Why an index could not be read.
#[derive(Debug, Clone, Copy, PartialEq, Eq, Structural)]
pub enum IndexError {
    /// The bytes hold no SCIP index.
    Parse,
}

/// The part of a document message that [`decode`] reads.
pub open spec fn read_document(m: DocumentView) -> DocumentView {
    DocumentView {
        language: Seq::empty(),
        relative_path: m.relative_path,
        occurrences: m.occurrences,
        symbols: m.symbols.map_values(
            |s: SymbolView| SymbolView { relationships: Seq::empty(), ..s },
        ),
    }
}

/// The part of an index message that [`decode`] reads.
pub open spec fn read_part(m: IndexView) -> IndexView {
    IndexView {
        metadata: MetadataView {
            tool_name: Seq::empty(),
            tool_version: Seq::empty(),
            ..m.metadata
        },
        documents: m.documents.map_values(|d: DocumentView| read_document(d)),
    }
}

/// The part of a document that [`encode`] writes: all but the signatures.
pub open spec fn written_document(d: DocumentView) -> DocumentView {
    DocumentView {
        symbols: d.symbols.map_values(|s: SymbolView| SymbolView { signature: None, ..s }),
        ..d
    }
}

/// The part of an index that [`encode`] writes.
pub open spec fn written_part(index: IndexView) -> IndexView {
    IndexView {
        metadata: index.metadata,
        documents: index.documents.map_values(|d: DocumentView| written_document(d)),
    }
}

/// The document that a row stands for.
fn document_of(row: &DocumentRow, Ghost(m): Ghost<DocumentView>) -> (r: SourceDocument)
    requires
        document_agrees(*row, m),
    ensures
        r@ == read_document(m),
{
    let mut occurrences: Vec<Occurrence> = Vec::new();
    let mut i: usize = 0;
    while i < row.1.len()
        invariant
            0 <= i <= row.1@.len(),
            document_agrees(*row, m),
            occurrence_views(occurrences@) =~= m.occurrences.take(i as int),
        decreases row.1.len() - i,
    {
        let o = &row.1[i];
        let ghost had = occurrence_views(occurrences@);
        assert(occurrence_agrees(row.1@[i as int], m.occurrences[i as int]));
        let mut range: Vec<i32> = Vec::new();
        range.extend_from_slice(o.2.as_slice());
        assert(range@ =~= o.2@);
        let occurrence = Occurrence { symbol: o.0.clone(), symbol_roles: o.1, range };
        assert(occurrence@ =~= m.occurrences[i as int]);
        occurrences.push(occurrence);
        assert(occurrence_views(occurrences@) =~= had.push(occurrence@));
        i += 1;
    }
    let mut symbols: Vec<SymbolInformation> = Vec::new();
    let ghost bare = |s: SymbolView| SymbolView { relationships: Seq::empty(), ..s };
    let mut k: usize = 0;
    while k < row.2.len()
        invariant
            0 <= k <= row.2@.len(),
            document_agrees(*row, m),
            bare == (|s: SymbolView| SymbolView { relationships: Seq::empty(), ..s }),
            symbol_views(symbols@) =~= m.symbols.take(k as int).map_values(bare),
        decreases row.2.len() - k,
    {
        let s = &row.2[k];
        let ghost had = symbol_views(symbols@);
        assert(symbol_agrees(row.2@[k as int], m.symbols[k as int]));
        let signature = match &s.3 {
            Some(text) => Some(text.clone()),
            None => None,
        };
        let symbol = SymbolInformation {
            symbol: s.0.clone(),
            display_name: s.1.clone(),
            kind: s.2,
            signature,
            relationships: Vec::new(),
        };
        assert(symbol@.relationships =~= Seq::empty());
        assert(symbol@ =~= bare(m.symbols[k as int]));
        symbols.push(symbol);
        assert(symbol_views(symbols@) =~= had.push(symbol@));
        k += 1;
    }
    let r = SourceDocument {
        language: String::new(),
        relative_path: row.0.clone(),
        occurrences,
        symbols,
    };
    assert(m.occurrences.take(i as int) =~= m.occurrences);
    assert(m.symbols.take(k as int) =~= m.symbols);
    assert(r@ =~= read_document(m));
    r
}

/// The index that protobuf bytes hold.
pub fn decode(bytes: &[u8]) -> (r: Result<Index, IndexError>)
    ensures
        index_message(bytes@) is None ==> r == Err::<Index, IndexError>(IndexError::Parse),
        index_message(bytes@) matches Some(m) ==> {
            &&& r matches Ok(index)
            &&& index@ == read_part(m)
        },
{
    let (version, project_root, text_document_encoding, rows) = match parse_index(bytes) {
        Ok(row) => row,
        Err(_) => {
            return Err(IndexError::Parse);
        },
    };
    let ghost m = index_message(bytes@).unwrap();
    let ghost read = |d: DocumentView| read_document(d);
    let mut documents: Vec<SourceDocument> = Vec::new();
    let mut i: usize = 0;
    while i < rows.len()
        invariant
            0 <= i <= rows@.len(),
            m.documents.len() == rows@.len(),
            read == (|d: DocumentView| read_document(d)),
            forall|j: int|
                0 <= j < rows@.len() ==> document_agrees(#[trigger] rows@[j], m.documents[j]),
            document_views(documents@) =~= m.documents.take(i as int).map_values(read),
        decreases rows.len() - i,
    {
        let ghost had = document_views(documents@);
        let d = document_of(&rows[i], Ghost(m.documents[i as int]));
        let ghost dv = d@;
        documents.push(d);
        assert(document_views(documents@) =~= had.push(dv));
        i += 1;
    }
    assert(m.documents.take(i as int) =~= m.documents);
    let index = Index {
        metadata: Metadata {
            version,
            tool_name: String::new(),
            tool_version: String::new(),
            project_root,
            text_document_encoding,
        },
        documents,
    };
    assert(index@ =~= read_part(m));
    Ok(index)
}

/// The protobuf bytes of an index. They hold all of it but the signatures,
/// unless they are too many for protobuf's 32-bit lengths.
pub fn encode(index: Index) -> (r: Vec<u8>)
    ensures
        r@.len() <= i32::MAX ==> index_message(r@) == Some(written_part(index@)),
{
    let Index { metadata, documents } = index;
    let ghost all = document_views(documents@);
    let ghost write = |d: DocumentView| written_document(d);
    let ghost hold = |d: message::Document| document_message(d);
    let ghost docs = documents@;
    let mut messages: Vec<message::Document> = Vec::new();
    for d in it: documents
        invariant
            it.seq() == docs,
            all == document_views(docs),
            messages@.len() == it.index(),
            forall|j: int|
                0 <= j < messages@.len() ==> document_message(#[trigger] messages@[j])
                    == written_document(all[j]),
    {
        assert(all[it.index() as int] == d@);
        let m = make_document(d);
        messages.push(m);
    }
    assert(messages@.map_values(hold) =~= all.map_values(write));
    write_index(&metadata, messages).unwrap()
}

/// Reading back bytes that were written gives the index that was written, but
/// for what is not written (signatures) and what is not read (the tool, the
/// languages and the relationships).
pub proof fn law_read_back(index: IndexView)
    ensures
        read_part(written_part(index)).metadata == (MetadataView {
            tool_name: Seq::empty(),
            tool_version: Seq::empty(),
            ..index.metadata
        }),
        read_part(written_part(index)).documents.len() == index.documents.len(),
        forall|i: int|
            0 <= i < index.documents.len() ==> {
                let d = #[trigger] index.documents[i];
                let r = read_part(written_part(index)).documents[i];
                &&& r.relative_path == d.relative_path
                &&& r.occurrences == d.occurrences
                &&& r.symbols.len() == d.symbols.len()
                &&& forall|k: int|
                    0 <= k < d.symbols.len() ==> {
                        &&& (#[trigger] r.symbols[k]).symbol == d.symbols[k].symbol
                        &&& r.symbols[k].display_name == d.symbols[k].display_name
                        &&& r.symbols[k].kind == d.symbols[k].kind
                    }
            },
{
}

} // verus!
