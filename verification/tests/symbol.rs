use ultrascip::python::{py_class_symbol, py_method_symbol, py_module_symbol};
use ultrascip::symbol::{
    c_symbol_name, descriptor_text, local_symbol, strip_descriptor_trailer, symbol_version,
    terminal_descriptor_name,
};

#[test]
fn class_and_method_symbols() {
    assert_eq!(
        py_class_symbol("pkg", "1.0", "pkg.mod", "Repo"),
        "scip-python python pkg 1.0 pkg/mod/Repo#"
    );
    assert_eq!(
        py_method_symbol("pkg", "1.0", "pkg.mod", "Repo", "head"),
        "scip-python python pkg 1.0 pkg/mod/Repo#head()."
    );
}

#[test]
fn empty_package_parts_become_dots() {
    assert_eq!(
        py_module_symbol("", "", "m"),
        "scip-python python . . m/__init__:"
    );
}

#[test]
fn other_names_are_quoted() {
    assert_eq!(
        py_class_symbol("p", "1", "m", "a b"),
        "scip-python python p 1 m/`a b`#"
    );
    assert_eq!(
        py_class_symbol("p", "1", "m", "a`b"),
        "scip-python python p 1 m/`a``b`#"
    );
    assert_eq!(
        py_class_symbol("p", "1", "m", "a_b+c-d$e9"),
        "scip-python python p 1 m/a_b+c-d$e9#"
    );
    assert_eq!(
        py_class_symbol("p", "1", "m", "gr\u{fc}n"),
        "scip-python python p 1 m/`gr\u{fc}n`#"
    );
}

#[test]
fn empty_modules_are_left_out() {
    assert_eq!(
        py_module_symbol("p", "1", "a..b."),
        "scip-python python p 1 a/b/__init__:"
    );
}

#[test]
fn version_is_the_fourth_field() {
    assert_eq!(
        symbol_version("rust-analyzer cargo x 1.0.0 f()."),
        Some("1.0.0".to_string())
    );
    assert_eq!(symbol_version("a b c  d"), Some("".to_string()));
    assert_eq!(symbol_version("a b c"), None);
    assert_eq!(symbol_version("local 1 2 3"), None);
    assert!(local_symbol("local 1"));
    assert!(!local_symbol("locals"));
}

#[test]
fn descriptors_are_what_is_left() {
    assert_eq!(
        descriptor_text("cxx . . $ f(a b)."),
        Some("f(a b).".to_string())
    );
    assert_eq!(
        descriptor_text("cxx . . 1 $ f()."),
        Some("f().".to_string())
    );
    assert_eq!(descriptor_text("cxx . . $"), None);
    assert_eq!(c_symbol_name("cxx . . $ (f)"), None);
    assert_eq!(c_symbol_name("cxx . . $ f(1)"), Some("f".to_string()));
    // Only C's global namespace holds C identifiers.
    assert_eq!(c_symbol_name("rust-analyzer cargo x 1.0.0 foo/bar()."), None);
    assert_eq!(c_symbol_name("cxx . . 1 $ f[T]"), None);
    assert_eq!(c_symbol_name("cxx . . $ ns/f()."), None);
    assert_eq!(c_symbol_name("cxx . . $ T#"), None);
    assert_eq!(c_symbol_name("cxx . . $ f"), None);
}

#[test]
fn terminal_name_of_parameters() {
    // A parameter's name counts only in the Rust lookup.
    let s = "rust-analyzer cargo x 1.0.0 a/f().(arg)";
    assert_eq!(
        terminal_descriptor_name(s, true),
        Some("arg".to_string())
    );
    assert_eq!(
        terminal_descriptor_name("s m p v a#[T]", true),
        Some("T".to_string())
    );
    assert_eq!(
        terminal_descriptor_name("s m p v a#[T]", false),
        Some("T".to_string())
    );
    assert_eq!(
        terminal_descriptor_name("s m p v f(+1).", false),
        Some("f".to_string())
    );
    // What stands in brackets is a descriptor of its own.
    let method = "rust-analyzer cargo x 1.0.0 impl#[Repo]head().";
    assert_eq!(terminal_descriptor_name(method, true), Some("head".to_string()));
    assert_eq!(terminal_descriptor_name(method, false), Some("head".to_string()));
    assert_eq!(terminal_descriptor_name("s m p v name", true), None);
    assert_eq!(terminal_descriptor_name("s m p v", true), None);
}

#[test]
fn scheme_and_package_do_not_matter() {
    for d in ["a/b#c().", "a#[T]", "a#[T]m().", "x/(p)", "a", "", "$ f(12)."] {
        for params in [true, false] {
            let name = terminal_descriptor_name(&format!("s m p v {}", d), params);
            let other = terminal_descriptor_name(&format!("cxx . . $ {}", d), params);
            assert_eq!(name, other);
            if let Some(name) = name {
                assert!(!name.is_empty() && d.contains(&name));
            }
        }
    }
    assert_eq!(terminal_descriptor_name("s m p f().", true), None);
    assert_eq!(terminal_descriptor_name("local 3", false), None);
    assert_eq!(descriptor_text("local 3"), None);
}

#[test]
fn trailers_are_stripped() {
    assert_eq!(strip_descriptor_trailer("f(abc)."), "f");
    assert_eq!(strip_descriptor_trailer("A#f(a(b)c)."), "A#f");
    assert_eq!(strip_descriptor_trailer("g."), "g");
    assert_eq!(strip_descriptor_trailer("A#"), "A");
    assert_eq!(strip_descriptor_trailer("g"), "g");
    assert_eq!(strip_descriptor_trailer(""), "");
    assert_eq!(strip_descriptor_trailer("..g"), "g");
}
