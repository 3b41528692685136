use ultrascip::c_python::scan::{scan_file, CExportKind, ScanResult};
use ultrascip::c_python::{augment_file, AugmentOptions, AugmentOutcome};
use ultrascip::index::{decode, Index, SourceDocument, SymbolInformation};
use ultrascip::python::{extract_pyproject_name, py_function_symbol, py_module_symbol};
use ultrascip::symbol::c_symbol_name;

fn scan_str(src: &str) -> ScanResult {
    let mut r = ScanResult::new();
    scan_file(src, "t.c", &mut r).unwrap();
    r
}

#[test]
fn extracts_pymethod_and_module() {
    let src = r#"
            #include <Python.h>

            static PyObject *py_is_tree(PyObject *self, PyObject *args) { return NULL; }

            static PyMethodDef methods[] = {
                { "_is_tree", (PyCFunction)py_is_tree, METH_VARARGS, NULL },
                { NULL, NULL, 0, NULL }
            };

            static PyObject *moduleinit(void) {
                static struct PyModuleDef moduledef = {
                    PyModuleDef_HEAD_INIT,
                    "_mymod",
                    NULL, -1,
                    methods,
                    NULL, NULL, NULL, NULL,
                };
                return PyModule_Create(&moduledef);
            }

            PyMODINIT_FUNC PyInit__mymod(void) { return moduleinit(); }
        "#;
    let r = scan_str(src);
    let names: Vec<_> = r.exports.iter().map(|e| e.python_name.clone()).collect();
    assert!(names.contains(&"_mymod".to_string()), "got: {:?}", names);
    assert!(names.contains(&"_is_tree".to_string()), "got: {:?}", names);
    // The function entry should carry the C name too.
    let fun = r
        .exports
        .iter()
        .find(|e| e.python_name == "_is_tree")
        .unwrap();
    assert_eq!(fun.c_name, "py_is_tree");
    assert_eq!(fun.kind, CExportKind::Function);
}

#[test]
fn falls_back_to_pyinit_when_no_moduledef() {
    // Rare / synthetic: methods array with a PyInit_ but no ModuleDef in
    // the same file (e.g. the ModuleDef is in another TU).
    let src = r#"
            #include <Python.h>
            static PyMethodDef methods[] = {
                { "hello", (PyCFunction)c_hello, METH_VARARGS, NULL },
                { NULL, NULL, 0, NULL }
            };
            PyMODINIT_FUNC PyInit__mymod(void) { return NULL; }
        "#;
    let r = scan_str(src);
    let names: Vec<_> = r.exports.iter().map(|e| e.python_name.clone()).collect();
    assert!(names.contains(&"_mymod".to_string()));
    assert!(names.contains(&"hello".to_string()));
}

#[test]
fn ignores_null_sentinel_entry() {
    let src = r#"
            #include <Python.h>
            static PyMethodDef methods[] = {
                { NULL, NULL, 0, NULL }
            };
            static struct PyModuleDef moduledef = {
                PyModuleDef_HEAD_INIT, "_empty", NULL, -1, methods,
            };
        "#;
    let r = scan_str(src);
    let names: Vec<_> = r.exports.iter().map(|e| e.python_name.clone()).collect();
    assert_eq!(names, vec!["_empty"]);
}

#[test]
fn c_symbol_name_handles_scip_clang() {
    assert_eq!(
        c_symbol_name("cxx . . $ py_is_tree(134650f196314f84)."),
        Some("py_is_tree".to_string())
    );
}

#[test]
fn c_symbol_name_handles_globals() {
    assert_eq!(
        c_symbol_name("cxx . . $ py_diff_tree_methods."),
        Some("py_diff_tree_methods".to_string())
    );
}

#[test]
fn c_symbol_name_rejects_local() {
    // (local symbols are filtered before c_symbol_name is called, but the
    // parser itself should still return something sensible if handed one)
    assert_eq!(c_symbol_name("local 3"), None);
}

#[test]
fn parses_pyproject_name() {
    let text = r#"
[project]
name = "dulwich"
"#;
    assert_eq!(extract_pyproject_name(text), Some("dulwich".to_string()));
}

#[test]
fn python_module_symbol_shape() {
    let s = py_module_symbol("dulwich", "0.21.7", "dulwich._diff_tree");
    assert_eq!(
        s,
        "scip-python python dulwich 0.21.7 dulwich/_diff_tree/__init__:"
    );
}

#[test]
fn python_function_symbol_shape() {
    let s = py_function_symbol("dulwich", "0.21.7", "dulwich._diff_tree", "_is_tree");
    assert!(s.ends_with("_is_tree()."));
    assert!(s.contains("dulwich/_diff_tree/"));
}

const EXTENSION: &str = r#"
static PyMethodDef methods[] = {
    { "_is_tree", (PyCFunction)py_is_tree, METH_VARARGS, NULL },
    { NULL, NULL, 0, NULL }
};
static struct PyModuleDef moduledef = {
    PyModuleDef_HEAD_INIT, "_mymod", NULL, -1, methods,
};
PyMODINIT_FUNC PyInit__mymod(void) { return NULL; }
"#;

fn options(python_package: Option<&str>) -> AugmentOptions {
    AugmentOptions {
        source_root: None,
        python_package: python_package.map(|s| s.to_string()),
        python_version: None,
    }
}

fn c_index() -> Vec<u8> {
    let mut si = SymbolInformation::new();
    si.symbol = "cxx . . $ py_is_tree(12).".to_string();
    let mut doc = SourceDocument::new();
    doc.symbols.push(si);
    let mut index = Index::new();
    index.documents.push(doc);
    ultrascip::index::encode(index)
}

#[test]
fn spans_point_into_the_literals() {
    let r = scan_str(EXTENSION);
    let e = r
        .exports
        .iter()
        .find(|e| e.python_name == "_is_tree")
        .unwrap();
    assert_eq!(e.name_span, (2, 7, 15));
    assert_eq!(e.relative_path, "t.c");
}

#[test]
fn scanning_only_adds() {
    let mut r = scan_str("PyMODINIT_FUNC PyInit__a(void) { return 0; }");
    let before = r.exports.len();
    assert_eq!(before, 1);
    scan_file("PyMODINIT_FUNC PyInit__b(void) { return 0; }", "u.c", &mut r).unwrap();
    assert_eq!(r.exports[0].python_name, "_a");
    assert_eq!(r.exports[0].relative_path, "t.c");
    assert_eq!(r.exports.len(), 2);
    assert_eq!(r.exports[1].relative_path, "u.c");
}

#[test]
fn unrelated_c_has_no_python_exports() {
    assert!(scan_str("int main(void) { return 0; }").exports.is_empty());
}

#[test]
fn python_companion_of_a_c_index() {
    let scan = scan_str(EXTENSION);
    let (outcome, bytes) = augment_file(
        &c_index(),
        &scan,
        &options(None),
        Some("[project]\nname = 'pkg'\n"),
    )
    .unwrap();
    match outcome {
        AugmentOutcome::Written(stats) => assert_eq!((stats.documents, stats.exports), (1, 2)),
        AugmentOutcome::NoExports => unreachable!(),
    }
    let m: scip::types::Index = protobuf::Message::parse_from_bytes(&bytes.unwrap()).unwrap();
    assert_eq!(m.metadata.tool_info.name, "scip-c-python-augment");
    let doc = &m.documents[0];
    assert_eq!((doc.language.as_str(), doc.relative_path.as_str()), ("Python", "t.c"));
    let f = doc.symbols.iter().find(|s| s.display_name == "_is_tree").unwrap();
    // scip-clang's placeholder counts as a version.
    assert_eq!(f.symbol, "scip-python python pkg $ pkg/_mymod/_is_tree().");
    assert_eq!(f.relationships[0].symbol, "cxx . . $ py_is_tree(12).");
    let module = doc.symbols.iter().find(|s| s.display_name == "_mymod").unwrap();
    assert_eq!(module.symbol, "scip-python python pkg $ pkg/_mymod/__init__:");
    assert!(module.relationships.is_empty());
    assert_eq!(doc.occurrences.len(), 2);
}

#[test]
fn no_python_companion_without_a_name_or_exports() {
    let scan = scan_str(EXTENSION);
    let (outcome, bytes) = augment_file(&c_index(), &scan, &options(None), None).unwrap();
    assert!(matches!(outcome, AugmentOutcome::NoExports));
    assert!(bytes.is_none());
    let nothing = ScanResult::new();
    let (outcome, bytes) = augment_file(&c_index(), &nothing, &options(Some("p")), None).unwrap();
    assert!(matches!(outcome, AugmentOutcome::NoExports));
    assert!(bytes.is_none());
    assert!(augment_file(&[0xff], &scan, &options(Some("p")), None).is_err());
    assert!(decode(&[0xff]).is_err());
}

#[test]
fn pyproject_name_needs_its_table() {
    assert_eq!(extract_pyproject_name("name = 'x'\n"), None);
    assert_eq!(
        extract_pyproject_name("[tool]\nname='a'\n[project]\nname='b'\n"),
        Some("b".to_string())
    );
    assert_eq!(extract_pyproject_name("[project]\nname = \"\"\nname='c'"), Some("c".to_string()));
    assert_eq!(
        extract_pyproject_name("[project]\nnames\nname='c'"),
        Some("c".to_string())
    );
    assert_eq!(
        extract_pyproject_name("[project]\nnamespaces = true\nname = \"dulwich\"\n"),
        Some("dulwich".to_string())
    );
    assert_eq!(extract_pyproject_name("[project]\nnamespaces = true\n"), None);
}
