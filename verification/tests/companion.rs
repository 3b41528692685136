use ultrascip::companion::{
    build_documents, describe, first_package_version, inherit_metadata, range_of, source_root,
    strip_file_scheme, Emission,
};
use ultrascip::index::{Index, SourceDocument, SymbolInformation, KIND_METHOD};

fn emission(path: &str, symbol: &str, range: Option<Vec<i32>>) -> Emission {
    Emission {
        path: path.to_string(),
        symbol: symbol.to_string(),
        display_name: "n".to_string(),
        kind: KIND_METHOD,
        target: Some("native".to_string()),
        range,
    }
}

fn index_of(symbols: &[&str]) -> Index {
    let mut doc = SourceDocument::new();
    for s in symbols {
        let mut si = SymbolInformation::new();
        si.symbol = s.to_string();
        doc.symbols.push(si);
    }
    let mut index = Index::new();
    index.documents.push(doc);
    index
}

#[test]
fn file_scheme_is_stripped() {
    assert_eq!(strip_file_scheme("file:///a/b"), Some("/a/b".to_string()));
    assert_eq!(strip_file_scheme("/a/b"), None);
}

#[test]
fn source_root_is_given_or_recorded() {
    let mut index = Index::new();
    assert_eq!(source_root(&None, &index), None);
    index.metadata.project_root = "file:///a".to_string();
    assert_eq!(source_root(&None, &index), Some("/a".to_string()));
    index.metadata.project_root = "/b".to_string();
    assert_eq!(source_root(&None, &index), Some("/b".to_string()));
    assert_eq!(
        source_root(&Some("/c".to_string()), &index),
        Some("/c".to_string())
    );
}

#[test]
fn placeholders_are_no_versions() {
    let index = index_of(&["local 1", "cxx . . $ f().", "a b c . d", "s m p 1.5 d", "s m p 2 d"]);
    assert_eq!(
        first_package_version(&index, true, true),
        Some("1.5".to_string())
    );
    assert_eq!(
        first_package_version(&index, true, false),
        Some("$".to_string())
    );
    assert_eq!(
        first_package_version(&index_of(&["a b c . d", "s m p 3 d"]), false, false),
        Some(".".to_string())
    );
    assert_eq!(first_package_version(&index_of(&["a b c  d"]), false, false), None);
}

#[test]
fn metadata_is_inherited_but_for_the_tool() {
    let mut index = Index::new();
    index.metadata.version = 3;
    index.metadata.tool_name = "old".to_string();
    index.metadata.project_root = "r".to_string();
    index.metadata.text_document_encoding = 2;
    let m = inherit_metadata(&index.metadata, "new");
    assert_eq!(m.version, 3);
    assert_eq!(m.tool_name, "new");
    assert_eq!(m.tool_version, "0.1.0");
    assert_eq!(m.project_root, "r");
    assert_eq!(m.text_document_encoding, 2);
}

#[test]
fn a_symbol_links_to_its_target() {
    let si = describe("s", "n", 5, Some("t"));
    assert_eq!(si.symbol, "s");
    assert_eq!(si.display_name, "n");
    assert_eq!(si.kind, 5);
    assert_eq!(si.relationships.len(), 1);
    assert_eq!(si.relationships[0].symbol, "t");
    assert!(si.relationships[0].is_reference);
    assert!(si.relationships[0].is_implementation);
    assert!(si.relationships[0].is_definition);
    assert!(describe("s", "n", 5, None).relationships.is_empty());
}

#[test]
fn symbols_are_grouped_by_path() {
    let docs = build_documents(
        "Java",
        &vec![
            emission("b.c", "s1", Some(vec![1, 2, 3])),
            emission("a.c", "s2", None),
            emission("b.c", "s3", Some(vec![4, 5, 6])),
        ],
    );
    assert_eq!(docs.len(), 2);
    assert_eq!(docs[0].relative_path, "b.c");
    assert_eq!(docs[0].language, "Java");
    assert_eq!(docs[0].symbols.len(), 2);
    assert_eq!(docs[0].symbols[1].symbol, "s3");
    assert_eq!(docs[0].occurrences.len(), 2);
    assert_eq!(docs[0].occurrences[0].range, vec![1, 2, 3]);
    assert_eq!(docs[0].occurrences[0].symbol_roles, 1);
    assert_eq!(docs[1].relative_path, "a.c");
    assert_eq!(docs[1].symbols.len(), 1);
    assert!(docs[1].occurrences.is_empty());
}

#[test]
fn each_symbol_comes_with_one_definition() {
    let mut emissions = vec![emission("a.c", "s1", Some(vec![1, 2, 3]))];
    let before = build_documents("Java", &emissions);
    emissions.push(emission("a.c", "s2", Some(vec![4, 5, 6])));
    let after = build_documents("Java", &emissions);
    assert_eq!(after.len(), before.len());
    assert_eq!(after[0].symbols.len(), before[0].symbols.len() + 1);
    assert_eq!(after[0].occurrences.len(), before[0].occurrences.len() + 1);
    assert_eq!(after[0].symbols[0].symbol, before[0].symbols[0].symbol);
    let link = &after[0].symbols[1].relationships;
    assert_eq!(link.len(), 1);
    assert!(link[0].is_reference && link[0].is_implementation && link[0].is_definition);
    assert_eq!(after[0].occurrences[1].symbol, "s2");
    assert_eq!(after[0].occurrences[1].symbol_roles, 1);
}

#[test]
fn spans_become_ranges() {
    assert_eq!(range_of((1, 2, 3)), vec![1, 2, 3]);
    assert_eq!(range_of((u32::MAX, 0, 0)), vec![-1, 0, 0]);
}
