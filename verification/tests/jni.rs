use ultrascip::index::{decode, Index, SourceDocument, SymbolInformation};
use ultrascip::jni::name::{demangle_jni, JniName};
use ultrascip::jni::scan::{scan_file, ScanResult};
use ultrascip::jni::{
    augment_file, extract_xml_tag, java_method_symbol, parse_pom, strip_xml_block, AugmentOptions,
    AugmentOutcome,
};

fn scan_str(src: &str) -> ScanResult {
    let mut r = ScanResult::new();
    scan_file(src, "t", "t", &mut r).unwrap();
    r
}

#[test]
fn demangles_plain_name() {
    assert_eq!(
        demangle_jni("Java_com_example_Foo_bar"),
        Some(JniName {
            class: vec!["com".into(), "example".into(), "Foo".into()],
            method: "bar".into(),
        })
    );
}

#[test]
fn demangles_default_package() {
    assert_eq!(
        demangle_jni("Java_Foo_bar"),
        Some(JniName {
            class: vec!["Foo".into()],
            method: "bar".into(),
        })
    );
}

#[test]
fn demangles_underscore_escape() {
    assert_eq!(
        demangle_jni("Java_com_example_Foo_do_1stuff"),
        Some(JniName {
            class: vec!["com".into(), "example".into(), "Foo".into()],
            method: "do_stuff".into(),
        })
    );
}

#[test]
fn demangles_nested_class() {
    assert_eq!(
        demangle_jni("Java_com_example_Foo_00024Inner_bar"),
        Some(JniName {
            class: vec!["com".into(), "example".into(), "Foo$Inner".into()],
            method: "bar".into(),
        })
    );
}

#[test]
fn strips_overload_signature() {
    assert_eq!(
        demangle_jni("Java_com_example_Foo_get__I"),
        Some(JniName {
            class: vec!["com".into(), "example".into(), "Foo".into()],
            method: "get".into(),
        })
    );
}

#[test]
fn rejects_non_jni_names() {
    assert_eq!(demangle_jni("Java_"), None);
    assert_eq!(demangle_jni("Java_foo"), None);
    assert_eq!(demangle_jni("Javax_foo_bar"), None);
}

#[test]
fn extracts_exported_function() {
    let src = r#"
            #include <jni.h>

            JNIEXPORT jint JNICALL
            Java_com_example_Counter_increment(JNIEnv *env, jobject obj, jint by) {
                return by + 1;
            }
        "#;
    let r = scan_str(src);
    assert_eq!(r.exports.len(), 1, "got: {:?}", r.exports);
    let e = &r.exports[0];
    assert_eq!(e.java_name, "increment");
    assert_eq!(e.class, vec!["com", "example", "Counter"]);
    assert_eq!(e.c_name, "Java_com_example_Counter_increment");
}

#[test]
fn extracts_native_method_table() {
    let src = r#"
            #include <jni.h>

            static jint native_add(JNIEnv *env, jobject obj, jint a, jint b) {
                return a + b;
            }

            static const JNINativeMethod methods[] = {
                { "add", "(II)I", (void *)native_add },
            };

            jint JNI_OnLoad(JavaVM *vm, void *reserved) {
                JNIEnv *env;
                jclass cls = (*env)->FindClass(env, "com/example/Calc");
                (*env)->RegisterNatives(env, cls, methods, 1);
                return JNI_VERSION_1_6;
            }
        "#;
    let r = scan_str(src);
    assert_eq!(r.exports.len(), 1, "got: {:?}", r.exports);
    let e = &r.exports[0];
    assert_eq!(e.java_name, "add");
    assert_eq!(e.class, vec!["com", "example", "Calc"]);
    assert_eq!(e.c_name, "native_add");
}

#[test]
fn table_without_findclass_is_dropped() {
    let src = r#"
            static const JNINativeMethod methods[] = {
                { "add", "(II)I", (void *)native_add },
            };
        "#;
    let r = scan_str(src);
    assert!(r.exports.is_empty(), "got: {:?}", r.exports);
}

#[test]
fn cpp_findclass_receiver() {
    let src = r#"
                static const JNINativeMethod methods[] = {
                    { "mul", "(II)I", (void *)native_mul },
                };
                void reg(JNIEnv *env) {
                    jclass cls = env->FindClass("com/example/Calc");
                    env->RegisterNatives(cls, methods, 1);
                }
            "#;
    let mut r = ScanResult::new();
    scan_file(src, "t.cc", "t.cc", &mut r).unwrap();
    assert_eq!(r.exports.len(), 1, "got: {:?}", r.exports);
    assert_eq!(r.exports[0].class, vec!["com", "example", "Calc"]);
}

#[test]
fn java_symbol_shape() {
    let s = java_method_symbol(
        "maven/com.example/calc",
        "1.0.0",
        &vec!["com".into(), "example".into(), "Calc".into()],
        "add",
    );
    assert_eq!(
        s,
        "semanticdb maven maven/com.example/calc 1.0.0 com/example/Calc#add()."
    );
}

#[test]
fn java_symbol_placeholder_package() {
    let s = java_method_symbol("", "", &vec!["Foo".into()], "bar");
    assert_eq!(s, "semanticdb maven . . Foo#bar().");
}

#[test]
fn java_symbol_nested_class() {
    let s = java_method_symbol("", "", &vec!["com".into(), "Foo$Inner".into()], "bar");
    assert_eq!(s, "semanticdb maven . . com/Foo#Inner#bar().");
}

#[test]
fn parses_pom_coordinates() {
    let text = r#"
<project>
  <parent>
    <groupId>org.parent</groupId>
    <artifactId>parent-pom</artifactId>
    <version>7</version>
  </parent>
  <groupId>com.example</groupId>
  <artifactId>calc</artifactId>
  <version>1.0.0</version>
</project>
"#;
    let own = strip_xml_block(text, "parent");
    assert_eq!(
        extract_xml_tag(&own, "groupId"),
        Some("com.example".to_string())
    );
    assert_eq!(
        extract_xml_tag(&own, "artifactId"),
        Some("calc".to_string())
    );
    assert_eq!(extract_xml_tag(&own, "version"), Some("1.0.0".to_string()));
}

#[test]
fn pom_inherits_group_and_version_from_parent() {
    let text = r#"
<project>
  <parent>
    <groupId>org.parent</groupId>
    <artifactId>parent-pom</artifactId>
    <version>7</version>
  </parent>
  <artifactId>calc</artifactId>
</project>
"#;
    let own = strip_xml_block(text, "parent");
    assert_eq!(extract_xml_tag(&own, "groupId"), None);
    assert_eq!(
        extract_xml_tag(text, "groupId"),
        Some("org.parent".to_string())
    );
}

#[test]
fn unicode_escapes() {
    let name = demangle_jni("Java_a_000e9_b").unwrap();
    assert_eq!(name.class, vec!["a\u{e9}"]);
    assert_eq!(name.method, "b");
    let name = demangle_jni("Java_A_b_2c_3").unwrap();
    assert_eq!(name.method, "b;c[");
    // A surrogate is no character, and four digits are needed.
    assert_eq!(demangle_jni("Java_A_0d800_b"), None);
    assert_eq!(demangle_jni("Java_A_b_012"), None);
    assert_eq!(demangle_jni("Java_A_b_0xyzw"), None);
    assert_eq!(demangle_jni("Java_A_b_0+024"), None);
    assert_eq!(demangle_jni("Java_A_"), None);
}

const LIBRARY: &str = "JNIEXPORT jint JNICALL Java_com_Foo_bar(JNIEnv *env) { return 1; }";

fn c_index() -> Vec<u8> {
    let mut si = SymbolInformation::new();
    si.symbol = "cxx . . $ Java_com_Foo_bar(12).".to_string();
    let mut doc = SourceDocument::new();
    doc.symbols.push(si);
    let mut index = Index::new();
    index.documents.push(doc);
    ultrascip::index::encode(index)
}

fn options(java_package: Option<&str>) -> AugmentOptions {
    AugmentOptions {
        source_root: None,
        java_package: java_package.map(|s| s.to_string()),
        java_version: None,
    }
}

#[test]
fn java_companion_of_a_c_index() {
    let scan = scan_str(LIBRARY);
    let (outcome, bytes) = augment_file(&c_index(), &scan, &options(None), None).unwrap();
    match outcome {
        AugmentOutcome::Written(stats) => assert_eq!((stats.documents, stats.exports), (1, 1)),
        AugmentOutcome::NoExports => unreachable!(),
    }
    let m: scip::types::Index = protobuf::Message::parse_from_bytes(&bytes.unwrap()).unwrap();
    let doc = &m.documents[0];
    assert_eq!(doc.language, "Java");
    assert_eq!(doc.symbols[0].symbol, "semanticdb maven . . com/Foo#bar().");
    assert_eq!(doc.symbols[0].relationships[0].symbol, "cxx . . $ Java_com_Foo_bar(12).");
    assert_eq!(doc.occurrences[0].range, vec![0, 23, 39]);
}

#[test]
fn pom_gives_package_and_version() {
    let pom = "<project><parent><groupId>org.p</groupId><version>7</version></parent>\
               <artifactId>calc</artifactId></project>";
    let parsed = parse_pom(pom);
    assert_eq!(parsed.package_name(), Some("maven/org.p/calc".to_string()));
    assert_eq!(parsed.version, Some("7".to_string()));
    let scan = scan_str(LIBRARY);
    let (_, bytes) = augment_file(&c_index(), &scan, &options(None), Some(pom)).unwrap();
    let index = decode(&bytes.unwrap()).unwrap();
    assert_eq!(
        index.documents[0].symbols[0].symbol,
        "semanticdb maven maven/org.p/calc 7 com/Foo#bar()."
    );
    let (_, bytes) = augment_file(&c_index(), &scan, &options(Some("own")), Some(pom)).unwrap();
    let index = decode(&bytes.unwrap()).unwrap();
    assert_eq!(
        index.documents[0].symbols[0].symbol,
        "semanticdb maven own 7 com/Foo#bar()."
    );
    assert_eq!(parse_pom("<groupId>g</groupId>").package_name(), None);
}

#[test]
fn coordinates_are_the_projects_own() {
    let pom = parse_pom(
        "<project><parent><groupId>org.parent</groupId><artifactId>pp</artifactId>\
         <version>7</version></parent><artifactId>calc</artifactId>\
         <dependencies><dependency><groupId>junit</groupId><artifactId>junit</artifactId>\
         <version>4.13</version></dependency></dependencies></project>",
    );
    assert_eq!(pom.group_id, Some("org.parent".to_string()));
    assert_eq!(pom.artifact_id, Some("calc".to_string()));
    assert_eq!(pom.version, Some("7".to_string()));
    let pom = parse_pom(
        "<project><build><plugins><plugin><artifactId>p</artifactId></plugin></plugins></build>\
         <properties><version>9</version></properties><groupId>g</groupId></project>",
    );
    assert_eq!(pom.group_id, Some("g".to_string()));
    assert_eq!(pom.artifact_id, None);
    assert_eq!(pom.version, None);
}

#[test]
fn comments_open_and_close_nothing() {
    let version = |doc: &str| parse_pom(doc).version;
    let one = Some("1".to_string());
    assert_eq!(
        version("<project><!-- <build> --><version>1</version><build></build></project>"),
        one
    );
    assert_eq!(
        version("<project><!-- <parent> --><version>1</version><!-- </parent> --></project>"),
        one
    );
    assert_eq!(
        version(
            "<project><build><!-- </build> --><version>3</version></build>\
             <version>1</version></project>"
        ),
        one
    );
    assert_eq!(
        version("<project><!-- <version>3</version> --><version>1</version></project>"),
        one
    );
    assert_eq!(
        version(
            "<?xml version='1.0'?><project><description><![CDATA[<build>]]></description>\
             <version>1</version><build><version>3</version></build></project>"
        ),
        one
    );
    // What is not closed is text.
    assert_eq!(version("<project><!-- <build><version>1</version></project>"), one);
    // An element that holds more than text has no value.
    assert_eq!(version("<project><version>1<!-- x --></version></project>"), None);
}

#[test]
fn own_coordinates_stand_outside_other_elements() {
    let pom = parse_pom(
        "<project><properties><build>5</build><version>9</version></properties>\
         <build><parent><version>8</version></parent><artifactId>plugin</artifactId></build>\
         <dependencies><dependency><groupId>d</groupId></dependency></dependencies>\
         <parent><groupId>p</groupId><version>7</version></parent>\
         <artifactId> calc </artifactId>\
         <profiles><profile><build><version>6</version></build></profile></profiles></project>",
    );
    assert_eq!(pom.group_id, Some("p".to_string()));
    assert_eq!(pom.artifact_id, Some("calc".to_string()));
    assert_eq!(pom.version, Some("7".to_string()));
}

#[test]
fn scanning_adds_java_exports() {
    let mut r = scan_str(LIBRARY);
    scan_file("JNIEXPORT void JNICALL Java_A_b(JNIEnv *env) {}", "u", "u", &mut r).unwrap();
    assert_eq!(r.exports.len(), 2);
    assert_eq!(r.exports[0].java_name, "bar");
    assert_eq!(r.exports[0].relative_path, "t");
    assert_eq!(r.exports[1].java_name, "b");
    assert_eq!(r.exports[1].relative_path, "u");
}

#[test]
fn no_java_companion_without_exports() {
    let (outcome, bytes) =
        augment_file(&c_index(), &ScanResult::new(), &options(None), None).unwrap();
    assert!(matches!(outcome, AugmentOutcome::NoExports));
    assert!(bytes.is_none());
    assert!(augment_file(&[0xff], &ScanResult::new(), &options(None), None).is_err());
}

#[test]
fn xml_values_hold_no_tags() {
    assert_eq!(extract_xml_tag("<a> x </a>", "a"), Some("x".to_string()));
    assert_eq!(extract_xml_tag("<a><b/></a>", "a"), None);
    assert_eq!(extract_xml_tag("<a> </a>", "a"), None);
    assert_eq!(extract_xml_tag("</a><a>", "a"), None);
    assert_eq!(strip_xml_block("1<a>2</a>3", "a"), "13");
    assert_eq!(strip_xml_block("</a><a>", "a"), "</a><a>");
}
