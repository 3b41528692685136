use ultrascip::version::{augment_version, host_version, normalize, strip_tag_prefix};

#[test]
fn test_normalize_prefixed() {
    // rust-analyzer prints its own name first.
    assert_eq!(
        normalize("rust-analyzer", "rust-analyzer 1.95.0\n"),
        Some("1.95.0".to_string())
    );
}

#[test]
fn test_normalize_bare() {
    // scip-python prints a bare version.
    assert_eq!(
        normalize("scip-python", "0.6.6\n"),
        Some("0.6.6".to_string())
    );
}

#[test]
fn test_normalize_v_prefix() {
    assert_eq!(
        normalize("scip-go", "scip-go v0.2.7\n"),
        Some("0.2.7".to_string())
    );
    assert_eq!(normalize("scip-go", "v0.2.7\n"), Some("0.2.7".to_string()));
}

#[test]
fn test_normalize_trailing_detail() {
    // Extra build metadata after the version is dropped.
    assert_eq!(
        normalize("scip-java", "scip-java 0.12.3 (build abc123)\n"),
        Some("0.12.3".to_string())
    );
}

#[test]
fn test_normalize_skips_blank_lines() {
    assert_eq!(
        normalize("debian-lsp", "\n\ndebian-lsp 0.1.10\n"),
        Some("0.1.10".to_string())
    );
}

#[test]
fn test_strip_tag_prefix() {
    // A release tag and a --version string must normalize to the same
    // thing, or a consumer diffing manifests sees a spurious change when
    // an indexer switches from downloaded to preinstalled.
    assert_eq!(strip_tag_prefix("v0.12.3"), "0.12.3");
    assert_eq!(strip_tag_prefix("0.12.3"), "0.12.3");
}

#[test]
fn test_normalize_rejects_non_version() {
    // A tool with no --version flag prints usage (or nothing) instead;
    // recording "Usage:" as a version would be worse than recording
    // nothing, because a consumer would compare it and see no change.
    assert_eq!(normalize("makefile-lsp", "Usage: makefile-lsp\n"), None);
    assert_eq!(normalize("makefile-lsp", ""), None);
    assert_eq!(normalize("makefile-lsp", "\n  \n"), None);
}

#[test]
fn either_stream_can_hold_the_version() {
    assert_eq!(
        host_version("t", true, "t 1.0\n", "t 2.0\n"),
        Some("1.0".to_string())
    );
    assert_eq!(
        host_version("t", true, "usage\n", "t 2.0\n"),
        Some("2.0".to_string())
    );
    assert_eq!(host_version("t", true, "", ""), None);
    assert_eq!(host_version("t", false, "t 1.0\n", ""), None);
}

#[test]
fn tags_and_reports_agree() {
    for version in ["0.12.3", "1", "10.0-rc.1"] {
        let tag = format!("v{}", version);
        let line = format!("scip-go {}\n", tag);
        assert_eq!(normalize("scip-go", &line), Some(strip_tag_prefix(&tag)));
    }
}

#[test]
fn augments_have_this_version() {
    assert_eq!(augment_version(), Some("0.1.0".to_string()));
}
