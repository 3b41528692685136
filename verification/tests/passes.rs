use ultrascip::manifest::{IndexFailure, IndexKind, Manifest};
use ultrascip::passes::{
    applies, arguments, finish_pass, is_excluded_index, output, plan, program, run_end, Disabled,
    Pass, PassEnd, RunEnd, Tree, Word,
};

const NONE_OFF: Disabled = Disabled {
    debian: false,
    makefile: false,
    shell: false,
    po: false,
    tree_sitter: false,
};

fn show(words: Vec<Word>) -> Vec<String> {
    words
        .into_iter()
        .map(|w| match w {
            Word::Text(s) => s,
            Word::Source => "SRC".to_string(),
            Word::Output => "OUT".to_string(),
            Word::File(i) => format!("F{}", i),
        })
        .collect()
}

#[test]
fn passes_run_in_a_fixed_order() {
    assert_eq!(
        plan(&NONE_OFF),
        vec![
            Pass::Debian,
            Pass::Makefile,
            Pass::Shell,
            Pass::Po,
            Pass::TreeSitter
        ]
    );
    let off = Disabled {
        debian: true,
        po: true,
        ..NONE_OFF
    };
    assert_eq!(
        plan(&off),
        vec![Pass::Makefile, Pass::Shell, Pass::TreeSitter]
    );
}

#[test]
fn programs_and_outputs() {
    let all = plan(&NONE_OFF);
    let programs: Vec<&str> = all.iter().map(|p| program(*p)).collect();
    assert_eq!(
        programs,
        vec!["debian-lsp", "makefile-lsp", "scip-shell", "scip-po", "scip-tree-sitter"]
    );
    let outputs: Vec<&str> = all.iter().map(|p| output(*p)).collect();
    assert_eq!(
        outputs,
        vec!["debian.scip", "makefile.scip", "shell.scip", "po.scip", "tree-sitter.scip"]
    );
}

#[test]
fn passes_without_work_do_not_apply() {
    let empty = Tree {
        has_debian: false,
        makefiles: 0,
        has_po: false,
    };
    assert!(!applies(Pass::Debian, &empty));
    assert!(!applies(Pass::Makefile, &empty));
    assert!(applies(Pass::Shell, &empty));
    assert!(!applies(Pass::Po, &empty));
    assert!(applies(Pass::TreeSitter, &empty));
    let full = Tree {
        has_debian: true,
        makefiles: 1,
        has_po: true,
    };
    assert!(applies(Pass::Debian, &full));
    assert!(applies(Pass::Makefile, &full));
    assert!(applies(Pass::Po, &full));
}

#[test]
fn command_lines() {
    assert_eq!(
        show(arguments(Pass::Debian, None, None, 0)),
        vec!["scip", "--output", "OUT", "SRC"]
    );
    assert_eq!(
        show(arguments(Pass::Makefile, None, None, 2)),
        vec!["scip", "--project-root", "SRC", "--output", "OUT", "F0", "F1"]
    );
    assert_eq!(
        show(arguments(Pass::Shell, Some("pkg"), Some("1.0"), 0)),
        vec![
            "--project-root",
            "SRC",
            "--output",
            "OUT",
            "--package-name",
            "pkg",
            "--package-version",
            "1.0",
            "SRC"
        ]
    );
    assert_eq!(
        show(arguments(Pass::Po, None, Some("1.0"), 0)),
        vec!["--project-root", "SRC", "--output", "OUT", "--package-version", "1.0", "SRC"]
    );
    assert_eq!(
        show(arguments(Pass::TreeSitter, Some("ignored"), None, 2)),
        vec![
            "--root",
            "SRC",
            "--output",
            "OUT",
            "--exclude-scip",
            "F0",
            "--exclude-scip",
            "F1"
        ]
    );
}

#[test]
fn catch_all_defers_to_other_indexes() {
    assert!(is_excluded_index("rust.scip"));
    assert!(is_excluded_index("debian.scip"));
    assert!(!is_excluded_index("tree-sitter.scip"));
    assert!(!is_excluded_index("notes.json"));
    assert!(!is_excluded_index(".scip"));
}

#[test]
fn written_indexes_are_recorded() {
    let mut manifest = Manifest::new();
    assert!(finish_pass(&mut manifest, Pass::Debian, PassEnd::Skipped));
    assert!(manifest.indexes.is_empty());
    assert!(finish_pass(
        &mut manifest,
        Pass::Shell,
        PassEnd::Written(Some("0.3".to_string()))
    ));
    assert!(!finish_pass(&mut manifest, Pass::Po, PassEnd::Failed));
    assert_eq!(manifest.indexes.len(), 1);
    let e = &manifest.indexes[0];
    assert_eq!(e.file, "shell.scip");
    assert_eq!(e.indexer, "scip-shell");
    assert_eq!(e.indexer_version, Some("0.3".to_string()));
    assert_eq!(e.kind, IndexKind::PostPass);
}

#[test]
fn the_hardest_failure_ends_the_run() {
    let mut manifest = Manifest::new();
    assert_eq!(run_end(true, true, &manifest), RunEnd::Success);
    assert_eq!(run_end(true, false, &manifest), RunEnd::IndexersUnavailable);
    assert_eq!(run_end(false, false, &manifest), RunEnd::PassFailed);
    manifest.failures.push(IndexFailure {
        build_system: "gradle".to_string(),
        error: "boom".to_string(),
    });
    assert_eq!(run_end(true, true, &manifest), RunEnd::IndexersFailed);
    assert_eq!(run_end(true, false, &manifest), RunEnd::IndexersUnavailable);
    assert_eq!(run_end(false, true, &manifest), RunEnd::PassFailed);
}
