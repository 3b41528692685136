use ultrascip::manifest::{Generators, IndexEntry, IndexFailure, IndexKind, Manifest, ScipReport};
use ultrascip::version::augment_version;

/// A manifest with one index of each kind, versions filled in.
fn sample_manifest() -> Manifest {
    let mut manifest = Manifest {
        ultrascip_version: "0.1.0",
        generators: Generators::new(),
        indexes: vec![
            IndexEntry::language(
                "rust.scip".to_string(),
                "rust",
                "cargo",
                "rust-analyzer",
                Some("1.95.0".to_string()),
            ),
            IndexEntry::companion(
                "rust-c-abi.scip".to_string(),
                "cargo",
                "scip-c-abi-augment",
                3,
                7,
            ),
            IndexEntry::post_pass("debian.scip", "debian-lsp", Some("0.1.10".to_string())),
            // A generator that could not report a version.
            IndexEntry::post_pass("shell.scip", "scip-shell", None),
        ],
        failures: vec![IndexFailure {
            build_system: "gradle".to_string(),
            error: "boom".to_string(),
        }],
    };
    manifest.collect_generators();
    manifest
}

#[test]
fn test_collect_generators() {
    let manifest = sample_manifest();
    // Every generator that produced an index is listed, including the one
    // whose version is unknown: a missing key means "did not run", a null
    // means "ran, version unknown". Those must not be conflated.
    assert_eq!(
        manifest.generators,
        Generators::from(vec![
            ("rust-analyzer".to_string(), Some("1.95.0".to_string())),
            ("debian-lsp".to_string(), Some("0.1.10".to_string())),
            (
                "scip-c-abi-augment".to_string(),
                augment_version()
            ),
            ("scip-shell".to_string(), None),
        ])
    );
}

#[test]
fn test_collect_generators_dedupes_one_tool_many_indexes() {
    // scip-clang indexes both cmake and meson in the same project. It is
    // one binary, so it collapses to a single generators entry.
    let mut manifest = Manifest::new();
    manifest.indexes = vec![
        IndexEntry::language(
            "cpp.scip".to_string(),
            "cpp",
            "cmake",
            "scip-clang",
            Some("0.4.0".to_string()),
        ),
        IndexEntry::language(
            "cpp-meson.scip".to_string(),
            "cpp",
            "meson",
            "scip-clang",
            Some("0.4.0".to_string()),
        ),
    ];
    manifest.collect_generators();
    assert_eq!(
        manifest.generators,
        Generators::from(vec![("scip-clang".to_string(), Some("0.4.0".to_string()))])
    );
}

#[test]
fn generators_are_kept_in_order() {
    let mut g = Generators::new();
    g.insert("b".to_string(), None);
    g.insert("a".to_string(), Some("1".to_string()));
    g.insert("c".to_string(), None);
    g.insert("b".to_string(), Some("2".to_string()));
    assert_eq!(g.len(), 3);
    assert_eq!(g.get(0), ("a", Some("1")));
    assert_eq!(g.get(1), ("b", Some("2")));
    assert_eq!(g.get(2), ("c", None));
}

#[test]
fn entries_by_kind() {
    let manifest = sample_manifest();
    let language = &manifest.indexes[0];
    assert_eq!(language.kind, IndexKind::Language);
    assert_eq!(language.language, Some("rust".to_string()));
    assert_eq!(language.build_system, Some("cargo".to_string()));
    assert_eq!(language.documents, None);
    let companion = &manifest.indexes[1];
    assert_eq!(companion.kind, IndexKind::Companion);
    assert_eq!(companion.language, None);
    assert_eq!(companion.indexer_version, augment_version());
    assert_eq!((companion.documents, companion.exports), (Some(3), Some(7)));
    let pass = &manifest.indexes[2];
    assert_eq!(pass.kind, IndexKind::PostPass);
    assert_eq!(pass.file, "debian.scip");
    assert_eq!(pass.build_system, None);
}

#[test]
fn new_records_are_empty() {
    let manifest = Manifest::new();
    assert_eq!(manifest.ultrascip_version, "0.1.0");
    assert_eq!(manifest.generators, Generators::new());
    assert!(manifest.indexes.is_empty() && manifest.failures.is_empty());
    let report = ScipReport::new();
    assert!(report.indexes.is_empty() && report.failures.is_empty());
}
