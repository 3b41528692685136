use ultrascip::c_abi::{augment_file, c_function_symbol, collect_exports, is_c_abi_export};
use ultrascip::index::{
    decode, Index, Occurrence, SourceDocument, SymbolInformation, KIND_FUNCTION, ROLE_DEFINITION,
};
use ultrascip::symbol::terminal_descriptor_name;

fn make_si_with_sig(sig_text: &str) -> SymbolInformation {
    let mut si = SymbolInformation::new();
    si.symbol = "rust-analyzer cargo x 1.0.0 mod/f().".to_string();
    si.display_name = "f".to_string();
    si.kind = KIND_FUNCTION;
    si.signature = Some(sig_text.to_string());
    si
}

#[test]
fn detects_pub_extern_c_fn() {
    let si = make_si_with_sig("pub extern \"C\" fn foo(x: i32)");
    assert!(is_c_abi_export(&si));
}

#[test]
fn detects_pub_extern_fn_without_abi() {
    // `pub extern fn` defaults to `extern "C"` and is still a C-ABI fn.
    let si = make_si_with_sig("pub extern fn foo()");
    assert!(is_c_abi_export(&si));
}

#[test]
fn detects_pub_unsafe_extern_c_fn() {
    let si = make_si_with_sig("pub unsafe extern \"C\" fn foo()");
    assert!(is_c_abi_export(&si));
}

#[test]
fn detects_c_unwind_abi() {
    let si = make_si_with_sig("pub extern \"C-unwind\" fn foo()");
    assert!(is_c_abi_export(&si));
}

#[test]
fn rejects_non_pub_extern_c_fn() {
    let si = make_si_with_sig("extern \"C\" fn foo()");
    assert!(!is_c_abi_export(&si));
}

#[test]
fn rejects_pub_extern_rust_abi() {
    // `extern "Rust"` isn't a C ABI.
    let si = make_si_with_sig("pub extern \"Rust\" fn foo()");
    assert!(!is_c_abi_export(&si));
}

#[test]
fn rejects_pub_extern_system_abi() {
    // `extern "system"` is Windows-only stdcall-alike; not the C ABI.
    let si = make_si_with_sig("pub extern \"system\" fn foo()");
    assert!(!is_c_abi_export(&si));
}

#[test]
fn rejects_plain_rust_fn() {
    let si = make_si_with_sig("pub fn foo()");
    assert!(!is_c_abi_export(&si));
}

#[test]
fn rejects_non_fn_kind() {
    let mut si = make_si_with_sig("pub extern \"C\" fn foo()");
    si.kind = 49;
    assert!(!is_c_abi_export(&si));
}

#[test]
fn c_function_symbol_shape() {
    // Matches scip-clang's `cxx . . $ <name>().` shape for a global-
    // namespace C function.
    let s = c_function_symbol("rure_free");
    assert_eq!(s, "cxx . . $ rure_free().");
}

#[test]
fn terminal_descriptor_extracts_name() {
    assert_eq!(
        terminal_descriptor_name("rust-analyzer cargo rure 0.2.2 rure/rure_free().", false),
        Some("rure_free".to_string())
    );
}

fn rust_index() -> Vec<u8> {
    let mut sig = scip::types::Signature::new();
    sig.text = "pub unsafe extern \"C\" fn zed()".to_string();
    let mut zed = scip::types::SymbolInformation::new();
    zed.symbol = "rust-analyzer cargo x 1.0.0 lib/zed().".to_string();
    zed.kind = scip::types::symbol_information::Kind::Function.into();
    zed.signature_documentation = protobuf::MessageField::some(sig);
    let mut alpha = zed.clone();
    alpha.symbol = "rust-analyzer cargo x 1.0.0 lib/alpha().".to_string();
    alpha.display_name = "alpha_c".to_string();
    let mut local = zed.clone();
    local.symbol = "local 7".to_string();
    let mut occ = scip::types::Occurrence::new();
    occ.symbol = zed.symbol.clone();
    occ.symbol_roles = ROLE_DEFINITION;
    occ.range = vec![4, 5, 8];
    let mut first = scip::types::Document::new();
    first.relative_path = "src/lib.rs".to_string();
    first.symbols = vec![zed.clone(), alpha, local];
    let mut second = scip::types::Document::new();
    second.relative_path = "src/mac.rs".to_string();
    second.symbols = vec![zed];
    second.occurrences = vec![occ];
    let mut index = scip::types::Index::new();
    index.documents = vec![first, second];
    protobuf::Message::write_to_bytes(&index).unwrap()
}

#[test]
fn exports_are_sorted_and_placed() {
    let exports = collect_exports(&decode(&rust_index()).unwrap());
    assert_eq!(exports.len(), 2);
    assert_eq!(exports[0].export_name, "alpha_c");
    assert_eq!(exports[0].relative_path, "src/lib.rs");
    assert_eq!(exports[0].definition_range, None);
    assert_eq!(exports[1].export_name, "zed");
    assert_eq!(exports[1].relative_path, "src/mac.rs");
    assert_eq!(exports[1].definition_range, Some(vec![4, 5, 8]));
}

#[test]
fn the_last_definition_counts() {
    let mut si = make_si_with_sig("pub extern \"C\" fn f()");
    si.symbol = "s m p v f().".to_string();
    let mut doc = SourceDocument::titled("", "a.rs");
    for range in [vec![1, 0, 1], vec![2, 0, 1]] {
        doc.occurrences.push(Occurrence {
            symbol: si.symbol.clone(),
            symbol_roles: ROLE_DEFINITION,
            range,
        });
    }
    doc.symbols.push(si);
    let mut index = Index::new();
    index.documents.push(doc);
    let exports = collect_exports(&index);
    assert_eq!(exports[0].definition_range, Some(vec![2, 0, 1]));
}

#[test]
fn c_companion_links_to_rust() {
    let (stats, bytes) = augment_file(&rust_index()).unwrap();
    assert_eq!((stats.documents, stats.exports, stats.external_symbols), (2, 2, 0));
    let m: scip::types::Index = protobuf::Message::parse_from_bytes(&bytes).unwrap();
    assert_eq!(m.metadata.tool_info.name, "scip-c-abi-augment");
    assert_eq!(m.metadata.tool_info.version, "0.1.0");
    assert_eq!(m.documents[0].relative_path, "src/lib.rs");
    assert_eq!(m.documents[0].language, "C");
    assert_eq!(m.documents[0].symbols[0].symbol, "cxx . . $ alpha_c().");
    assert!(m.documents[0].occurrences.is_empty());
    let zed = &m.documents[1].symbols[0];
    assert_eq!(zed.symbol, "cxx . . $ zed().");
    assert_eq!(
        zed.relationships[0].symbol,
        "rust-analyzer cargo x 1.0.0 lib/zed()."
    );
    assert_eq!(m.documents[1].occurrences[0].range, vec![4, 5, 8]);
}

#[test]
fn c_companion_of_no_index() {
    assert!(augment_file(&[0xff]).is_err());
    let (stats, _) = augment_file(&[]).unwrap();
    assert_eq!((stats.documents, stats.exports), (0, 0));
}

#[test]
fn modifiers_are_skipped_in_any_order() {
    assert!(is_c_abi_export(&make_si_with_sig(
        "pub unsafe  async const extern fn f()"
    )));
    assert!(is_c_abi_export(&make_si_with_sig(
        "pub const unsafe extern \"C\" fn foo()"
    )));
    assert!(is_c_abi_export(&make_si_with_sig("pub async unsafe extern fn f()")));
    assert!(!is_c_abi_export(&make_si_with_sig("pub const unsafe fn f()")));
    assert!(!is_c_abi_export(&make_si_with_sig("pub(crate) extern fn f()")));
    let mut none = make_si_with_sig("");
    none.signature = None;
    assert!(!is_c_abi_export(&none));
}
