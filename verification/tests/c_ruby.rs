use ultrascip::c_ruby::scan::{
    receiver_from_convention, scan_file, RubyExport, RubyExportKind, ScanResult,
};
use ultrascip::c_ruby::{
    augment_file, extract_gemspec_attr, is_hidden_or_build, pick_gemspec, ruby_symbol,
    AugmentOptions, AugmentOutcome,
};
use ultrascip::index::{decode, Index, SourceDocument, SymbolInformation};
use ultrascip::symbol::c_symbol_name;

fn scan_str(src: &str) -> ScanResult {
    let mut r = ScanResult::new();
    scan_file(src, "t", "t", &mut r).unwrap();
    r
}

fn find<'a>(r: &'a ScanResult, name: &str) -> &'a RubyExport {
    r.exports
        .iter()
        .find(|e| e.ruby_name == name)
        .unwrap_or_else(|| panic!("no export {name}: {:?}", r.exports))
}

#[test]
fn extracts_module_and_method() {
    let src = r#"
            #include <ruby.h>

            static VALUE foo_bar(VALUE self) { return Qnil; }

            void Init_foo(void) {
                VALUE mFoo = rb_define_module("Foo");
                rb_define_method(mFoo, "bar", foo_bar, 0);
            }
        "#;
    let r = scan_str(src);
    let module = find(&r, "Foo");
    assert_eq!(module.kind, RubyExportKind::Module);
    assert_eq!(module.namespace, "");
    assert_eq!(module.c_name, "Init_foo");
    let method = find(&r, "bar");
    assert_eq!(method.kind, RubyExportKind::Method);
    assert_eq!(method.namespace, "Foo");
    assert_eq!(method.c_name, "foo_bar");
}

#[test]
fn tracks_nested_namespaces() {
    let src = r#"
            void Init_foo(void) {
                VALUE mFoo = rb_define_module("Foo");
                VALUE cBar = rb_define_class_under(mFoo, "Bar", rb_cObject);
                rb_define_method(cBar, "baz", bar_baz, 1);
                rb_define_singleton_method(cBar, "make", bar_make, 0);
            }
        "#;
    let r = scan_str(src);
    let class = find(&r, "Bar");
    assert_eq!(class.kind, RubyExportKind::Class);
    assert_eq!(class.namespace, "Foo");
    let method = find(&r, "baz");
    assert_eq!(method.namespace, "Foo::Bar");
    let singleton = find(&r, "make");
    assert_eq!(singleton.kind, RubyExportKind::SingletonMethod);
    assert_eq!(singleton.namespace, "Foo::Bar");
}

#[test]
fn resolves_builtin_and_conventional_receivers() {
    let src = r#"
            void Init_ext(void) {
                rb_define_method(rb_cObject, "blank?", obj_blank, 0);
                rb_define_method(cString, "shuffle", str_shuffle, 0);
            }
        "#;
    let r = scan_str(src);
    assert_eq!(find(&r, "blank?").namespace, "Object");
    assert_eq!(find(&r, "shuffle").namespace, "String");
}

#[test]
fn global_function_lands_on_kernel() {
    let src = r#"
            void Init_ext(void) {
                rb_define_global_function("frobnicate", ext_frobnicate, -1);
            }
        "#;
    let r = scan_str(src);
    let f = find(&r, "frobnicate");
    assert_eq!(f.namespace, "Kernel");
    assert_eq!(f.c_name, "ext_frobnicate");
}

#[test]
fn unwraps_method_func_casts() {
    let src = r#"
            void Init_ext(void) {
                VALUE c = rb_define_class("Thing", rb_cObject);
                rb_define_method(c, "a", RUBY_METHOD_FUNC(thing_a), 0);
                rb_define_method(c, "b", (VALUE (*)(ANYARGS))thing_b, 2);
            }
        "#;
    let r = scan_str(src);
    assert_eq!(find(&r, "a").c_name, "thing_a");
    assert_eq!(find(&r, "b").c_name, "thing_b");
    assert_eq!(find(&r, "a").namespace, "Thing");
}

#[test]
fn assignment_without_declaration() {
    let src = r#"
            static VALUE mFoo;
            void Init_foo(void) {
                mFoo = rb_define_module("Foo");
                rb_define_module_function(mFoo, "go", foo_go, 0);
            }
        "#;
    let r = scan_str(src);
    let f = find(&r, "go");
    assert_eq!(f.namespace, "Foo");
    assert_eq!(f.kind, RubyExportKind::SingletonMethod);
}

#[test]
fn ignores_unrelated_calls() {
    let src = r#"
            void setup(void) {
                printf("rb_define_method");
                other_call(x, "name", fn, 0);
            }
        "#;
    let r = scan_str(src);
    assert!(r.exports.is_empty(), "got: {:?}", r.exports);
}

#[test]
fn lib_c_symbol_name_handles_scip_clang() {
    assert_eq!(
        c_symbol_name("cxx . . $ foo_bar(134650f196314f84)."),
        Some("foo_bar".to_string())
    );
}

#[test]
fn parses_gemspec_attrs() {
    let text = r#"
Gem::Specification.new do |s|
  s.name = "nokogiri"
  s.version = '1.16.0'
  s.summary = "HTML and XML parser"
end
"#;
    assert_eq!(
        extract_gemspec_attr(text, "name"),
        Some("nokogiri".to_string())
    );
    assert_eq!(
        extract_gemspec_attr(text, "version"),
        Some("1.16.0".to_string())
    );
}

#[test]
fn gemspec_constant_version_yields_none() {
    let text = "s.version = Nokogiri::VERSION\n";
    assert_eq!(extract_gemspec_attr(text, "version"), None);
}

#[test]
fn ruby_method_symbol_shape() {
    let s = ruby_symbol("mygem", "1.2.3", "Foo::Bar", "baz", true);
    assert_eq!(s, "scip-ruby gem mygem 1.2.3 Foo#Bar#baz().");
}

#[test]
fn ruby_class_symbol_shape() {
    let s = ruby_symbol("mygem", "1.2.3", "Foo", "Bar", false);
    assert_eq!(s, "scip-ruby gem mygem 1.2.3 Foo#Bar#");
    }

    #[test]
    fn ruby_operator_method_is_escaped() {
        let s = ruby_symbol("mygem", "1.2.3", "Foo", "==", true);
        assert_eq!(s, "scip-ruby gem mygem 1.2.3 Foo#`==`().");
    }

const EXTENSION: &str = r#"
void Init_foo(void) {
    VALUE mFoo = rb_define_module("Foo");
    rb_define_method(mFoo, "bar", foo_bar, 0);
}
"#;

fn c_index() -> Vec<u8> {
    let mut index = Index::new();
    for s in ["cxx . . $ foo_bar(12).", "cxx . . 7.1 g()."] {
        let mut si = SymbolInformation::new();
        si.symbol = s.to_string();
        let mut doc = SourceDocument::new();
        doc.symbols.push(si);
        index.documents.push(doc);
    }
    ultrascip::index::encode(index)
}

fn options(ruby_gem: Option<&str>) -> AugmentOptions {
    AugmentOptions {
        source_root: None,
        ruby_gem: ruby_gem.map(|s| s.to_string()),
        ruby_version: None,
    }
}

#[test]
fn ruby_companion_of_a_c_index() {
    let scan = scan_str(EXTENSION);
    let (outcome, bytes) = augment_file(&c_index(), &scan, &options(Some("foo")), None).unwrap();
    match outcome {
        AugmentOutcome::Written(stats) => assert_eq!((stats.documents, stats.exports), (1, 2)),
        AugmentOutcome::NoExports => unreachable!(),
    }
    let m: scip::types::Index = protobuf::Message::parse_from_bytes(&bytes.unwrap()).unwrap();
    let doc = &m.documents[0];
    assert_eq!(doc.language, "Ruby");
    let bar = doc.symbols.iter().find(|s| s.display_name == "bar").unwrap();
    assert_eq!(bar.symbol, "scip-ruby gem foo 7.1 Foo#bar().");
    assert_eq!(bar.relationships[0].symbol, "cxx . . $ foo_bar(12).");
    assert_eq!(
        bar.kind.enum_value_or_default(),
        scip::types::symbol_information::Kind::Method
    );
}

#[test]
fn gemspec_gives_name_and_version() {
    let scan = scan_str(EXTENSION);
    let spec = "s.name = 'named'\ns.version = '9'\n";
    let (_, bytes) = augment_file(&c_index(), &scan, &options(None), Some(spec)).unwrap();
    let index = decode(&bytes.unwrap()).unwrap();
    assert_eq!(
        index.documents[0].symbols[0].symbol,
        "scip-ruby gem named 9 Foo#"
    );
    let (outcome, _) = augment_file(&c_index(), &scan, &options(None), None).unwrap();
    assert!(matches!(outcome, AugmentOutcome::NoExports));
    let (outcome, _) =
        augment_file(&c_index(), &ScanResult::new(), &options(None), Some(spec)).unwrap();
    assert!(matches!(outcome, AugmentOutcome::NoExports));
    assert!(augment_file(&[0xff], &scan, &options(None), Some(spec)).is_err());
}

#[test]
fn first_gemspec_by_name() {
    let names = vec!["z.gemspec".to_string(), "README".to_string(), "a.gemspec".to_string()];
    assert_eq!(pick_gemspec(&names), Some("a.gemspec".to_string()));
    assert_eq!(pick_gemspec(&vec!["Gemfile".to_string()]), None);
}

#[test]
fn convention_needs_a_capital() {
    assert_eq!(receiver_from_convention("cFoo"), Some("Foo".to_string()));
    assert_eq!(receiver_from_convention("mFoo"), Some("Foo".to_string()));
    assert_eq!(receiver_from_convention("c\u{c9}t\u{e9}"), Some("\u{c9}t\u{e9}".to_string()));
    assert_eq!(receiver_from_convention("count"), None);
    assert_eq!(receiver_from_convention("c"), None);
}

#[test]
fn other_packages_are_left_out() {
    assert!(is_hidden_or_build("vendor"));
    assert!(is_hidden_or_build("tmp"));
    assert!(is_hidden_or_build("build"));
    assert!(is_hidden_or_build(".git"));
    assert!(!is_hidden_or_build("ext"));
}
