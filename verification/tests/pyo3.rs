use ultrascip::index::{decode, Index, SourceDocument, SymbolInformation};
use ultrascip::pyo3::rust::{extract_name_argument, is_name_key, pick_name};
use ultrascip::pyo3::scan::{scan_file, PyExportKind, ScanResult};
use ultrascip::pyo3::{
    augment_file, extract_setup_py_package, AugmentError, AugmentOptions, AugmentOutcome,
};
use ultrascip::python::{extract_pyproject_name, py_function_symbol, py_module_symbol};
use ultrascip::symbol::terminal_descriptor_name;

fn scan_str(src: &str) -> ScanResult {
    let mut r = ScanResult::new();
    assert!(scan_file(src, "t.rs", &mut r));
    r
}

#[test]
fn finds_pyfunction() {
    let src = r#"
            use pyo3::prelude::*;
            #[pyfunction]
            fn _is_tree() -> bool { true }
        "#;
    let r = scan_str(src);
    assert_eq!(r.exports.len(), 1);
    assert_eq!(r.exports[0].rust_name, "_is_tree");
    assert_eq!(r.exports[0].python_name, "_is_tree");
    assert!(matches!(r.exports[0].kind, PyExportKind::Function));
}

#[test]
fn finds_pymodule() {
    let src = r#"
            use pyo3::prelude::*;
            #[pymodule]
            fn _diff_tree(_py: pyo3::Python, m: &pyo3::Bound<pyo3::types::PyModule>) -> pyo3::PyResult<()> { Ok(()) }
        "#;
    let r = scan_str(src);
    assert_eq!(r.exports.len(), 1);
    assert_eq!(r.exports[0].rust_name, "_diff_tree");
    assert!(matches!(r.exports[0].kind, PyExportKind::Module));
}

#[test]
fn honours_pyo3_name_override() {
    let src = r#"
            #[pyfunction]
            #[pyo3(name = "count_blocks")]
            fn _count_blocks() {}
        "#;
    let r = scan_str(src);
    assert_eq!(r.exports.len(), 1);
    assert_eq!(r.exports[0].rust_name, "_count_blocks");
    assert_eq!(r.exports[0].python_name, "count_blocks");
}

#[test]
fn finds_pyclass_and_methods() {
    let src = r#"
            use pyo3::prelude::*;
            #[pyclass]
            struct Repo;
            #[pymethods]
            impl Repo {
                fn head(&self) -> String { String::new() }
            }
        "#;
    let r = scan_str(src);
    let kinds: Vec<_> = r.exports.iter().map(|e| (&e.rust_name, &e.kind)).collect();
    assert!(kinds
        .iter()
        .any(|(n, k)| n.as_str() == "Repo" && matches!(k, PyExportKind::Class)));
    assert!(kinds.iter().any(|(n, k)| n.as_str() == "head"
        && matches!(k, PyExportKind::Method { class } if class == "Repo")));
}

#[test]
fn lib_parses_pyproject_name() {
    let text = r#"
[build-system]
requires = ["setuptools"]

[project]
name = "dulwich"
description = "Python Git Library"
"#;
    assert_eq!(extract_pyproject_name(text), Some("dulwich".to_string()));
}

#[test]
fn parses_setup_py_rust_extension() {
    let text = r#"
        rust_extensions = [
            RustExtension(
                "dulwich._objects",
                "crates/objects/Cargo.toml",
"#;
    assert_eq!(extract_setup_py_package(text), Some("dulwich".to_string()));
}

#[test]
fn terminal_descriptor_returns_last_name() {
    let sym = "rust-analyzer cargo x 1.0.0 crate/mod/_count_blocks().";
    assert_eq!(
        terminal_descriptor_name(sym, true),
        Some("_count_blocks".to_string())
    );
}

#[test]
fn lib_python_function_symbol_shape() {
    let s = py_function_symbol("dulwich", "1.2.5", "dulwich._diff_tree", "_count_blocks");
    assert!(s.starts_with("scip-python python dulwich 1.2.5 "));
    assert!(s.ends_with("_count_blocks()."), "got: {}", s);
    assert!(s.contains("dulwich/_diff_tree/"), "got: {}", s);
}

#[test]
fn lib_python_module_symbol_shape() {
    let s = py_module_symbol("dulwich", "1.2.5", "dulwich._pack");
    assert_eq!(
        s,
        "scip-python python dulwich 1.2.5 dulwich/_pack/__init__:"
    );
}

#[test]
fn spans_are_zero_based() {
    let r = scan_str("#[pyfunction]\n  fn f_g() {}\n");
    assert_eq!(r.exports[0].name_span, (1, 5, 8));
    assert_eq!(r.exports[0].relative_path, "t.rs");
}

#[test]
fn modules_are_searched() {
    let r = scan_str("mod a { mod b { #[pyfunction] fn deep() {} } }\nmod elsewhere;");
    assert_eq!(r.exports.len(), 1);
    assert_eq!(r.exports[0].rust_name, "deep");
}

#[test]
fn class_names_can_be_given() {
    let r = scan_str(
        "use pyo3; #[pyclass(frozen, name = \"A\")] struct S;\n\
         #[pyclass] #[pyo3(name = \"B\")] enum E { X }\n\
         #[pyclass] struct T;\n\
         struct Plain;",
    );
    let names: Vec<&str> = r.exports.iter().map(|e| e.python_name.as_str()).collect();
    assert_eq!(names, vec!["A", "B", "T"]);
}

#[test]
fn the_last_given_name_counts() {
    let r = scan_str(
        "#[pyo3(name = \"a\")] #[pyfunction] #[pyo3(name = \"b\")] #[pyo3(signature)] fn f() {}",
    );
    assert_eq!(r.exports[0].python_name, "b");
    // A value that is no string gives no name. The arguments are read up to the
    // first other one with a value.
    let r = scan_str("#[pyfunction] #[pyo3(name = 3)] fn f() {}");
    assert_eq!(r.exports[0].python_name, "f");
    let r = scan_str("#[pyfunction] #[pyo3(signature = (a), name = \"c\")] fn f() {}");
    assert_eq!(r.exports[0].python_name, "f");
}

#[test]
fn names_are_picked_from_pairs() {
    let s = |t: &str| Some(t.to_string());
    let pairs = vec![(s("name"), s("a")), (s("frozen"), None), (s("name"), s("b"))];
    assert_eq!(pick_name(&pairs), s("b"));
    let pairs = vec![(s("name"), s("a")), (s("name"), None), (s("other"), s("b")), (None, s("c"))];
    assert_eq!(pick_name(&pairs), s("a"));
    assert_eq!(pick_name(&vec![]), None);
    assert!(is_name_key(&s("name")));
    assert!(!is_name_key(&s("names")));
    assert!(!is_name_key(&None));
    assert_eq!(extract_name_argument("frozen, name = \"A\""), s("A"));
    assert_eq!(extract_name_argument("name = \"A\", name = \"B\""), s("B"));
    assert_eq!(extract_name_argument("frozen"), None);
    assert_eq!(extract_name_argument(""), None);
}

#[test]
fn scanning_many_files_keeps_places() {
    // Places are counted anew in each file.
    let mut r = ScanResult::new();
    for _ in 0..3 {
        assert!(scan_file("#[pyfunction]\nfn f() {}\n", "a.rs", &mut r));
    }
    assert_eq!(r.exports.len(), 3);
    assert!(r.exports.iter().all(|e| e.name_span == (1, 3, 4)));
}

#[test]
fn methods_belong_to_the_last_path_segment() {
    let r = scan_str(
        "use pyo3; #[pymethods] impl a::B { const N: u8 = 0; #[pyo3(name = \"g\")] fn f() {} }\n\
         impl C { fn h() {} }",
    );
    assert_eq!(r.exports.len(), 1);
    assert_eq!(r.exports[0].python_name, "g");
    assert!(matches!(&r.exports[0].kind, PyExportKind::Method { class } if class == "B"));
}

#[test]
fn only_text_that_mentions_pyo3_is_parsed() {
    let mut r = ScanResult::new();
    assert!(scan_file("not rust at all {", "a.rs", &mut r));
    assert!(!scan_file("pyo3 not rust at all {", "a.rs", &mut r));
    assert!(scan_file("fn f() {} // pyo3", "a.rs", &mut r));
    assert!(r.exports.is_empty());
}

fn rust_index() -> Vec<u8> {
    let mut si = SymbolInformation::new();
    si.symbol = "rust-analyzer cargo x 1.0.0 crate/f().".to_string();
    let mut doc = SourceDocument::new();
    doc.symbols.push(si);
    let mut index = Index::new();
    index.documents.push(doc);
    ultrascip::index::encode(index)
}

fn options(python_package: Option<&str>) -> AugmentOptions {
    AugmentOptions {
        source_root: None,
        python_package: python_package.map(|s| s.to_string()),
        python_version: None,
    }
}

const EXTENSION: &str = "#[pyfunction] fn f() {}\n#[pymodule] fn m() {}\n\
                         #[pyclass] struct C;\n#[pymethods] impl C { fn g() {} }\n";

#[test]
fn python_companion_of_a_rust_index() {
    let scan = scan_str(EXTENSION);
    let (outcome, bytes) =
        augment_file(&rust_index(), &scan, &options(Some("pkg")), None, None).unwrap();
    match outcome {
        AugmentOutcome::Written(stats) => assert_eq!((stats.documents, stats.exports), (1, 4)),
        AugmentOutcome::NoExports => unreachable!(),
    }
    let m: scip::types::Index = protobuf::Message::parse_from_bytes(&bytes.unwrap()).unwrap();
    assert_eq!(m.metadata.tool_info.name, "scip-pyo3-augment");
    let symbols: Vec<&str> = m.documents[0].symbols.iter().map(|s| s.symbol.as_str()).collect();
    assert_eq!(
        symbols,
        vec![
            "scip-python python pkg 1.0.0 pkg/m/f().",
            "scip-python python pkg 1.0.0 pkg/m/__init__:",
            "scip-python python pkg 1.0.0 pkg/m/C#",
            "scip-python python pkg 1.0.0 pkg/m/C#g().",
        ]
    );
    assert_eq!(
        m.documents[0].symbols[0].relationships[0].symbol,
        "rust-analyzer cargo x 1.0.0 crate/f()."
    );
    assert!(m.documents[0].symbols[1].relationships.is_empty());
}

#[test]
fn first_export_names_the_module_otherwise() {
    let scan = scan_str("#[pyfunction] fn f() {}");
    let setup = "RustExtension('named._x')";
    let (_, bytes) =
        augment_file(&rust_index(), &scan, &options(None), None, Some(setup)).unwrap();
    let index = decode(&bytes.unwrap()).unwrap();
    assert_eq!(
        index.documents[0].symbols[0].symbol,
        "scip-python python named 1.0.0 named/f/f()."
    );
}

#[test]
fn a_package_is_needed_for_exports() {
    let scan = scan_str(EXTENSION);
    assert!(matches!(
        augment_file(&rust_index(), &scan, &options(None), None, None),
        Err(AugmentError::NoPackage)
    ));
    assert!(matches!(
        augment_file(&[0xff], &scan, &options(None), None, None),
        Err(AugmentError::Parse)
    ));
    assert!(matches!(
        augment_file(&rust_index(), &ScanResult::new(), &options(None), None, None),
        Ok((AugmentOutcome::NoExports, None))
    ));
}

#[test]
fn setup_py_search() {
    assert_eq!(
        extract_setup_py_package("RustExtension(x) RustExtension('a.b')"),
        Some("a".to_string())
    );
    assert_eq!(
        extract_setup_py_package("RustExtension('.b') RustExtension(\"c\")"),
        Some("c".to_string())
    );
    assert_eq!(extract_setup_py_package("RustExtension('a RustExtension(\"c\")"), None);
    assert_eq!(extract_setup_py_package("RustExtension(  "), None);
    assert_eq!(extract_setup_py_package("setup()"), None);
}

#[test]
fn every_export_attribute_makes_a_file_worth_reading() {
    let mut r = ScanResult::new();
    assert!(scan_file("#[pyclass] struct A;", "a.rs", &mut r));
    assert!(scan_file("#[pymethods] impl A { fn m(&self) {} }", "b.rs", &mut r));
    let names: Vec<&str> = r.exports.iter().map(|e| e.python_name.as_str()).collect();
    assert_eq!(names, vec!["A", "m"]);
}
