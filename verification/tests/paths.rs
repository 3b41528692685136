use ultrascip::paths::{
    extension, is_cpp_source, is_hidden, is_hidden_or_target, is_makefile, is_native_source,
    is_po_file, makefile_step, po_step, skips_makefiles, EntryKind, Step,
};

#[test]
fn test_is_makefile() {
    assert!(is_makefile("Makefile"));
    assert!(is_makefile("makefile"));
    assert!(is_makefile("GNUmakefile"));
    assert!(is_makefile("sub/Makefile"));
    assert!(is_makefile("rules.mk"));
    assert!(is_makefile("a/b/config.mk"));
    // debian/rules is not a Makefile by name; caller adds it explicitly.
    assert!(!is_makefile("debian/rules"));
    assert!(!is_makefile("README.md"));
    assert!(!is_makefile("Cargo.toml"));
}

#[test]
fn extensions_follow_the_last_dot() {
    assert_eq!(extension("a/b.c"), Some("c".to_string()));
    assert_eq!(extension("a.tar.gz"), Some("gz".to_string()));
    assert_eq!(extension(".bashrc"), None);
    assert_eq!(extension("a."), Some("".to_string()));
    assert_eq!(extension("a.d/b"), None);
    assert_eq!(extension("a.c/"), Some("c".to_string()));
    assert_eq!(extension(".."), None);
}

#[test]
fn sources_by_extension() {
    assert!(is_cpp_source("x.hpp"));
    assert!(!is_cpp_source("x.c"));
    assert!(is_native_source("x.c"));
    assert!(is_native_source("x.cxx"));
    assert!(!is_native_source("x.h"));
    assert!(is_po_file("de.po"));
    assert!(is_po_file("x.pot"));
    assert!(!is_po_file("po"));
}

#[test]
fn hidden_names() {
    assert!(is_hidden(".git"));
    assert!(!is_hidden("git"));
    assert!(is_hidden_or_target("target"));
    assert!(!is_hidden_or_target("build"));
    assert!(skips_makefiles("node_modules"));
    assert!(!skips_makefiles("src"));
}

#[test]
fn searches_enter_and_take() {
    assert_eq!(makefile_step("sub", EntryKind::Directory), Step::Enter);
    assert_eq!(makefile_step(".git", EntryKind::Directory), Step::Skip);
    assert_eq!(makefile_step("rules.mk", EntryKind::File), Step::Take);
    assert_eq!(makefile_step("README.md", EntryKind::File), Step::Skip);
    assert_eq!(makefile_step("Makefile", EntryKind::Other), Step::Skip);
    assert_eq!(po_step("target", EntryKind::Directory), Step::Enter);
    assert_eq!(po_step(".git", EntryKind::Directory), Step::Skip);
    assert_eq!(po_step("de.po", EntryKind::File), Step::Take);
    assert_eq!(po_step("de.mo", EntryKind::File), Step::Skip);
}
