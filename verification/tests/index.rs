use protobuf::{EnumOrUnknown, Message, MessageField};
use scip::types as message;
use ultrascip::index::{
    decode, defines, encode, Index, IndexError, Occurrence, Relationship, SourceDocument,
    SymbolInformation, KIND_CLASS, KIND_FUNCTION, KIND_METHOD, KIND_MODULE, KIND_STATIC_METHOD,
    ROLE_DEFINITION,
};

fn sample() -> Index {
    let mut index = Index::new();
    index.metadata.version = 0;
    index.metadata.tool_name = "tool".to_string();
    index.metadata.tool_version = "1.2".to_string();
    index.metadata.project_root = "file:///src".to_string();
    index.metadata.text_document_encoding = 1;
    let mut doc = SourceDocument::titled("C", "a/b.c");
    doc.occurrences.push(Occurrence {
        symbol: "cxx . . $ f().".to_string(),
        symbol_roles: ROLE_DEFINITION,
        range: vec![3, 4, 5],
    });
    let mut si = SymbolInformation::new();
    si.symbol = "cxx . . $ f().".to_string();
    si.display_name = "f".to_string();
    si.kind = KIND_FUNCTION;
    si.signature = Some("not written".to_string());
    si.relationships.push(Relationship {
        symbol: "other".to_string(),
        is_reference: true,
        is_implementation: false,
        is_definition: true,
    });
    doc.symbols.push(si);
    index.documents.push(doc);
    index
}

#[test]
fn encoded_index_is_read_back() {
    let index = decode(&encode(sample())).unwrap();
    assert_eq!(index.metadata.project_root, "file:///src");
    assert_eq!(index.metadata.text_document_encoding, 1);
    assert_eq!(index.metadata.tool_name, "");
    assert_eq!(index.documents.len(), 1);
    let doc = &index.documents[0];
    assert_eq!(doc.relative_path, "a/b.c");
    assert_eq!(doc.occurrences.len(), 1);
    assert_eq!(doc.occurrences[0].symbol, "cxx . . $ f().");
    assert_eq!(doc.occurrences[0].symbol_roles, 1);
    assert_eq!(doc.occurrences[0].range, vec![3, 4, 5]);
    assert_eq!(doc.symbols.len(), 1);
    assert_eq!(doc.symbols[0].symbol, "cxx . . $ f().");
    assert_eq!(doc.symbols[0].display_name, "f");
    assert_eq!(doc.symbols[0].kind, KIND_FUNCTION);
    assert_eq!(doc.symbols[0].signature, None);
    assert!(doc.symbols[0].relationships.is_empty());
}

#[test]
fn encoded_index_is_a_scip_message() {
    let m = message::Index::parse_from_bytes(&encode(sample())).unwrap();
    assert_eq!(m.metadata.tool_info.name, "tool");
    assert_eq!(m.metadata.tool_info.version, "1.2");
    assert_eq!(m.metadata.project_root, "file:///src");
    assert_eq!(
        m.metadata.text_document_encoding.enum_value_or_default(),
        message::TextEncoding::UTF8
    );
    assert_eq!(m.documents.len(), 1);
    assert_eq!(m.documents[0].language, "C");
    assert_eq!(m.documents[0].relative_path, "a/b.c");
    let si = &m.documents[0].symbols[0];
    assert_eq!(
        si.kind.enum_value_or_default(),
        message::symbol_information::Kind::Function
    );
    assert!(si.signature_documentation.is_none());
    assert_eq!(si.relationships.len(), 1);
    assert_eq!(si.relationships[0].symbol, "other");
    assert!(si.relationships[0].is_reference);
    assert!(!si.relationships[0].is_implementation);
    assert!(si.relationships[0].is_definition);
    assert!(m.external_symbols.is_empty());
}

#[test]
fn decode_reads_a_scip_message() {
    let mut si = message::SymbolInformation::new();
    si.symbol = "rust-analyzer cargo x 1.0.0 f().".to_string();
    si.display_name = "f".to_string();
    si.kind = message::symbol_information::Kind::Function.into();
    let mut sig = message::Signature::new();
    sig.language = "rust".to_string();
    sig.text = "pub fn f()".to_string();
    si.signature_documentation = MessageField::some(sig);
    let mut plain = message::SymbolInformation::new();
    plain.symbol = "local 1".to_string();
    let mut occ = message::Occurrence::new();
    occ.symbol = "local 1".to_string();
    occ.symbol_roles = 9;
    occ.range = vec![1, 2, 3, 4];
    let mut doc = message::Document::new();
    doc.language = "rust".to_string();
    doc.relative_path = "src/lib.rs".to_string();
    doc.symbols = vec![si, plain];
    doc.occurrences = vec![occ];
    let mut meta = message::Metadata::new();
    meta.version = EnumOrUnknown::from_i32(7);
    meta.project_root = "/src".to_string();
    let mut m = message::Index::new();
    m.metadata = MessageField::some(meta);
    m.documents = vec![doc];

    let index = decode(&m.write_to_bytes().unwrap()).unwrap();
    assert_eq!(index.metadata.version, 7);
    assert_eq!(index.metadata.project_root, "/src");
    let doc = &index.documents[0];
    assert_eq!(doc.language, "");
    assert_eq!(doc.relative_path, "src/lib.rs");
    assert_eq!(doc.symbols[0].symbol, "rust-analyzer cargo x 1.0.0 f().");
    assert_eq!(doc.symbols[0].kind, 17);
    assert_eq!(doc.symbols[0].signature, Some("pub fn f()".to_string()));
    assert_eq!(doc.symbols[1].signature, None);
    assert_eq!(doc.symbols[1].kind, 0);
    assert_eq!(doc.occurrences[0].symbol_roles, 9);
    assert_eq!(doc.occurrences[0].range, vec![1, 2, 3, 4]);
}

#[test]
fn decode_of_nothing_is_empty() {
    let index = decode(&[]).unwrap();
    assert!(index.documents.is_empty());
    assert_eq!(index.metadata.project_root, "");
    assert_eq!(index.metadata.version, 0);
}

#[test]
fn decode_rejects_other_bytes() {
    assert!(matches!(decode(&[0xff, 0xff, 0xff]), Err(IndexError::Parse)));
    assert!(matches!(decode(b"not protobuf"), Err(IndexError::Parse)));
}

#[test]
fn kinds_are_those_of_scip() {
    assert_eq!(KIND_CLASS, message::symbol_information::Kind::Class as i32);
    assert_eq!(
        KIND_FUNCTION,
        message::symbol_information::Kind::Function as i32
    );
    assert_eq!(
        KIND_METHOD,
        message::symbol_information::Kind::Method as i32
    );
    assert_eq!(
        KIND_MODULE,
        message::symbol_information::Kind::Module as i32
    );
    assert_eq!(
        KIND_STATIC_METHOD,
        message::symbol_information::Kind::StaticMethod as i32
    );
    assert_eq!(ROLE_DEFINITION, message::SymbolRole::Definition as i32);
}

#[test]
fn definition_is_the_lowest_role_bit() {
    assert!(defines(1));
    assert!(defines(9));
    assert!(defines(-1));
    assert!(!defines(0));
    assert!(!defines(8));
}
