use ultrascip::index::{decode, Index, SourceDocument, SymbolInformation};
use ultrascip::node_addon::scan::{scan_file, JsExportKind, ScanResult};
use ultrascip::node_addon::{
    augment_file, extract_json_field, is_hidden_or_build, js_export_symbol, js_module_symbol,
    symbol_lookup_keys, AugmentOptions, AugmentOutcome, CSymbolLookup,
};

fn scan_str_with_ext(src: &str, ext: &str) -> ScanResult {
    let path = format!("t.{}", ext);
    let mut r = ScanResult::new();
    scan_file(src, &path, &path, &mut r).unwrap();
    r
}

#[test]
fn extracts_nan_set_prototype_method() {
    let src = r#"
            #include "nan.h"
            NAN_MODULE_INIT(Init) {
                Nan::SetPrototypeMethod(tpl, "$connect", Connection::Connect);
                Nan::SetPrototypeMethod(tpl, "$finish", Connection::Finish);
            }
            NODE_MODULE(addon, Init)
        "#;
    let r = scan_str_with_ext(src, "cc");
    let subs: Vec<_> = r
        .exports
        .iter()
        .map(|e| (e.js_name.clone(), e.c_name.clone()))
        .collect();
    assert!(subs.contains(&("$connect".to_string(), "Connection::Connect".to_string())));
    assert!(subs.contains(&("$finish".to_string(), "Connection::Finish".to_string())));
    assert_eq!(r.module_name.as_deref(), Some("addon"));
    assert_eq!(r.module_init.as_deref(), Some("Init"));
}

#[test]
fn extracts_nan_set_method_flat() {
    let src = r#"
            #include "nan.h"
            void Init(v8::Local<v8::Object> target) {
                Nan::SetMethod(target, "hello", hello_impl);
            }
            NODE_MODULE(mod, Init)
        "#;
    let r = scan_str_with_ext(src, "cc");
    let f = r.exports.iter().find(|e| e.js_name == "hello").unwrap();
    assert_eq!(f.c_name, "hello_impl");
    assert_eq!(f.kind, JsExportKind::Function);
}

#[test]
fn extracts_napi_module_name() {
    let src = r#"
            #include <node_api.h>
            napi_value init(napi_env env, napi_value exports) { return exports; }
            NAPI_MODULE(mymod, init)
        "#;
    let r = scan_str_with_ext(src, "c");
    assert_eq!(r.module_name.as_deref(), Some("mymod"));
    assert_eq!(r.module_init.as_deref(), Some("init"));
}

#[test]
fn extracts_napi_set_named_property() {
    let src = r#"
            #include <node_api.h>
            void wire(napi_env env, napi_value exports) {
                napi_value fn;
                napi_create_function(env, "hello", NAPI_AUTO_LENGTH, hello_impl, NULL, &fn);
                napi_set_named_property(env, exports, "hello", fn);
            }
            NAPI_MODULE(m, wire)
        "#;
    let r = scan_str_with_ext(src, "c");
    // The create_function AND the set_named_property both name "hello";
    // we expect at least one export named it.
    assert!(r.exports.iter().any(|e| e.js_name == "hello"));
}

#[test]
fn extracts_property_descriptor_designated() {
    let src = r#"
            #include <node_api.h>
            napi_property_descriptor props[] = {
                { .utf8name = "foo", .method = foo_impl },
                { .utf8name = "bar", .method = bar_impl },
                { 0 }
            };
        "#;
    let r = scan_str_with_ext(src, "c");
    let names: Vec<_> = r.exports.iter().map(|e| e.js_name.clone()).collect();
    assert!(names.contains(&"foo".to_string()));
    assert!(names.contains(&"bar".to_string()));
}

#[test]
fn extracts_node_addon_api_exports_set() {
    // node-addon-api C++ pattern.
    let src = r#"
            #include <napi.h>
            Napi::Object Init(Napi::Env env, Napi::Object exports) {
                exports.Set("hello", Napi::Function::New(env, HelloImpl));
                return exports;
            }
        "#;
    let r = scan_str_with_ext(src, "cc");
    let f = r.exports.iter().find(|e| e.js_name == "hello").unwrap();
    assert_eq!(f.c_name, "HelloImpl");
}

#[test]
fn skips_unrelated_files() {
    let src = "int main(void) { return 0; }";
    let r = scan_str_with_ext(src, "c");
    assert!(r.exports.is_empty());
    assert!(r.module_name.is_none());
}

#[test]
fn extracts_json_field() {
    let text = r#"{ "name": "node-libpq", "version": "1.10.0", "dependencies": {} }"#;
    assert_eq!(
        extract_json_field(text, "name"),
        Some("node-libpq".to_string())
    );
    assert_eq!(
        extract_json_field(text, "version"),
        Some("1.10.0".to_string())
    );
    assert_eq!(extract_json_field(text, "missing"), None);
}

#[test]
fn js_module_symbol_shape() {
    let s = js_module_symbol("node-libpq", "1.10.0", "addon");
    assert_eq!(s, "scip-typescript npm node-libpq 1.10.0 addon/__init__:");
}

#[test]
fn js_export_symbol_shape() {
    let s = js_export_symbol("node-libpq", "1.10.0", "addon", "$connect");
    assert!(s.starts_with("scip-typescript npm node-libpq 1.10.0 "));
    assert!(s.contains("addon/"));
    assert!(s.ends_with("$connect()."));
}

#[test]
fn symbol_lookup_keys_include_bare_and_qualified() {
    let keys = symbol_lookup_keys("cxx . . $ Connection#Connect(abc).");
    assert!(keys.contains(&"Connection#Connect".to_string()));
    assert!(keys.contains(&"Connection::Connect".to_string()));
    assert!(keys.contains(&"Connect".to_string()));
}

#[test]
fn symbol_lookup_keys_free_function() {
    let keys = symbol_lookup_keys("cxx . . $ init(abc).");
    assert!(keys.contains(&"init".to_string()));
}

#[test]
fn c_symbol_lookup_finds_qualified() {
    let mut index = Index::new();
    let mut doc = SourceDocument::new();
    let mut si = SymbolInformation::new();
    si.symbol = "cxx . . $ Connection#Connect(abcd).".to_string();
    doc.symbols.push(si);
    index.documents.push(doc);
    let lookup = CSymbolLookup::from_index(&index);
    assert_eq!(
        lookup.find("Connection::Connect"),
        Some("cxx . . $ Connection#Connect(abcd).")
    );
}

#[test]
fn methods_are_found_in_every_spelling() {
    let method = "cxx . . $ Connection#Connect(abcd).";
    assert_eq!(
        symbol_lookup_keys(method),
        vec!["Connection#Connect", "Connection::Connect", "Connect"]
    );
    let mut index = Index::new();
    let mut doc = SourceDocument::new();
    let mut si = SymbolInformation::new();
    si.symbol = method.to_string();
    doc.symbols.push(si);
    let mut global = SymbolInformation::new();
    global.symbol = "cxx . . $ counter.".to_string();
    doc.symbols.push(global);
    index.documents.push(doc);
    let lookup = CSymbolLookup::from_index(&index);
    for name in ["Connection#Connect", "Connection::Connect", "Connect"] {
        assert_eq!(lookup.find(name), Some(method));
    }
    assert_eq!(lookup.find("counter"), Some("cxx . . $ counter."));
    assert_eq!(lookup.find("Other"), None);
}

const ADDON: &str = r#"
#include "nan.h"
void Init(v8::Local<v8::Object> target) {
    Nan::SetMethod(target, "hello", Greeter::Hello);
}
NODE_MODULE(addon, Init)
"#;

fn c_index() -> Vec<u8> {
    let mut index = Index::new();
    for s in ["cxx . . $ Greeter#Hello(12).", "cxx . . $ Init(34)."] {
        let mut si = SymbolInformation::new();
        si.symbol = s.to_string();
        let mut doc = SourceDocument::new();
        doc.symbols.push(si);
        index.documents.push(doc);
    }
    ultrascip::index::encode(index)
}

fn options(js_package: Option<&str>) -> AugmentOptions {
    AugmentOptions {
        source_root: None,
        js_package: js_package.map(|s| s.to_string()),
        js_version: None,
    }
}

#[test]
fn js_companion_of_a_c_index() {
    let scan = scan_str_with_ext(ADDON, "cc");
    let json = r#"{"name": "pkg", "version": "2.0"}"#;
    let (outcome, bytes) = augment_file(&c_index(), &scan, &options(None), Some(json)).unwrap();
    match outcome {
        AugmentOutcome::Written(stats) => assert_eq!((stats.documents, stats.exports), (1, 1)),
        AugmentOutcome::NoExports => unreachable!(),
    }
    let m: scip::types::Index = protobuf::Message::parse_from_bytes(&bytes.unwrap()).unwrap();
    let doc = &m.documents[0];
    assert_eq!(doc.language, "JavaScript");
    assert_eq!(doc.symbols.len(), 2);
    assert_eq!(doc.symbols[0].symbol, "scip-typescript npm pkg 2.0 addon/__init__:");
    assert_eq!(doc.symbols[0].relationships[0].symbol, "cxx . . $ Init(34).");
    assert_eq!(doc.symbols[1].symbol, "scip-typescript npm pkg 2.0 addon/hello().");
    assert_eq!(doc.symbols[1].relationships[0].symbol, "cxx . . $ Greeter#Hello(12).");
    // The module has no place of its own.
    assert_eq!(doc.occurrences.len(), 1);
}

#[test]
fn module_without_exports_gets_a_document() {
    let scan = scan_str_with_ext("NAPI_MODULE(m, wire)", "c");
    let (outcome, bytes) = augment_file(&c_index(), &scan, &options(Some("p")), None).unwrap();
    match outcome {
        AugmentOutcome::Written(stats) => assert_eq!((stats.documents, stats.exports), (1, 0)),
        AugmentOutcome::NoExports => unreachable!(),
    }
    let index = decode(&bytes.unwrap()).unwrap();
    assert_eq!(index.documents[0].relative_path, "m.js");
    assert_eq!(
        index.documents[0].symbols[0].symbol,
        "scip-typescript npm p 0.0.0 m/__init__:"
    );
}

#[test]
fn no_js_companion_without_a_name_or_exports() {
    let scan = scan_str_with_ext(ADDON, "cc");
    let (outcome, bytes) = augment_file(&c_index(), &scan, &options(None), None).unwrap();
    assert!(matches!(outcome, AugmentOutcome::NoExports));
    assert!(bytes.is_none());
    let (outcome, _) =
        augment_file(&c_index(), &ScanResult::new(), &options(Some("p")), None).unwrap();
    assert!(matches!(outcome, AugmentOutcome::NoExports));
    assert!(augment_file(&[0xff], &scan, &options(Some("p")), None).is_err());
}

#[test]
fn lookup_falls_back_to_the_bare_name() {
    let index = decode(&c_index()).unwrap();
    let lookup = CSymbolLookup::from_index(&index);
    assert_eq!(lookup.find("Hello"), Some("cxx . . $ Greeter#Hello(12)."));
    assert_eq!(lookup.find("Other::Hello"), Some("cxx . . $ Greeter#Hello(12)."));
    assert_eq!(lookup.find("Missing"), None);
}

#[test]
fn installed_packages_are_left_out() {
    assert!(is_hidden_or_build("node_modules"));
    assert!(is_hidden_or_build("deps"));
    assert!(is_hidden_or_build("third_party"));
    assert!(is_hidden_or_build("target"));
    assert!(!is_hidden_or_build("src"));
}

#[test]
fn methods_are_told_from_functions() {
    let src = r#"
        #include "nan.h"
        void Init() { Nan::SetPrototypeMethod(tpl, "m", C::M); }
    "#;
    let r = scan_str_with_ext(src, "cc");
    assert_eq!(r.exports[0].kind, JsExportKind::Method);
    assert_eq!(r.exports[0].name_span, (2, 52, 53));
}
