//! The passes over the source tree that follow the language indexers, and how
//! a run ends.
//!
//! The passes run one after the other in a fixed order. Each is a program of
//! its own; what stands here is which one comes next, what it is called with,
//! what its exit means for the manifest, and what the whole run amounts to.

use crate::manifest;
use crate::manifest::{IndexEntry, Manifest};
use crate::paths;
use crate::text;
use vstd::prelude::*;

verus! {

/// A pass over the source tree.
#[derive(Debug, Clone, Copy, PartialEq, Eq, Structural)]
pub enum Pass {
    /// The Debian packaging files.
    Debian,
    /// `debian/rules` and makefiles.
    Makefile,
    /// Shell scripts.
    Shell,
    /// Gettext catalogues.
    Po,
    /// Whatever no other index covers.
    TreeSitter,
}

/// The passes that are switched off.
#[derive(Debug, Clone, Copy)]
pub struct Disabled {
    pub debian: bool,
    pub makefile: bool,
    pub shell: bool,
    pub po: bool,
    pub tree_sitter: bool,
}

/// A list with one more pass, unless that is switched off.
pub open spec fn unless(off: bool, before: Seq<Pass>, pass: Pass) -> Seq<Pass> {
    if off {
        before
    } else {
        before.push(pass)
    }
}

/// The passes that are to run, in order. Shell scripts come before the
/// catch-all, so that their richer tokens win.
pub open spec fn schedule(off: Disabled) -> Seq<Pass> {
    unless(
        off.tree_sitter,
        unless(
            off.po,
            unless(
                off.shell,
                unless(
                    off.makefile,
                    unless(off.debian, Seq::empty(), Pass::Debian),
                    Pass::Makefile,
                ),
                Pass::Shell,
            ),
            Pass::Po,
        ),
        Pass::TreeSitter,
    )
}

/// The passes that are to run, in order.
pub fn plan(off: &Disabled) -> (r: Vec<Pass>)
    ensures
        r@ == schedule(*off),
{
    let mut r: Vec<Pass> = Vec::new();
    if !off.debian {
        r.push(Pass::Debian);
    }
    if !off.makefile {
        r.push(Pass::Makefile);
    }
    if !off.shell {
        r.push(Pass::Shell);
    }
    if !off.po {
        r.push(Pass::Po);
    }
    if !off.tree_sitter {
        r.push(Pass::TreeSitter);
    }
    r
}

/// The program of a pass.
pub open spec fn program_of(pass: Pass) -> Seq<char> {
    match pass {
        Pass::Debian => "debian-lsp"@,
        Pass::Makefile => "makefile-lsp"@,
        Pass::Shell => "scip-shell"@,
        Pass::Po => "scip-po"@,
        Pass::TreeSitter => "scip-tree-sitter"@,
    }
}

/// The program of a pass.
pub fn program(pass: Pass) -> (r: &'static str)
    ensures
        r@ == program_of(pass),
{
    match pass {
        Pass::Debian => "debian-lsp",
        Pass::Makefile => "makefile-lsp",
        Pass::Shell => "scip-shell",
        Pass::Po => "scip-po",
        Pass::TreeSitter => "scip-tree-sitter",
    }
}

/// The index that a pass writes, within the output directory.
pub open spec fn output_of(pass: Pass) -> Seq<char> {
    match pass {
        Pass::Debian => "debian.scip"@,
        Pass::Makefile => "makefile.scip"@,
        Pass::Shell => "shell.scip"@,
        Pass::Po => "po.scip"@,
        Pass::TreeSitter => "tree-sitter.scip"@,
    }
}

/// The index that a pass writes, within the output directory.
pub fn output(pass: Pass) -> (r: &'static str)
    ensures
        r@ == output_of(pass),
{
    match pass {
        Pass::Debian => "debian.scip",
        Pass::Makefile => "makefile.scip",
        Pass::Shell => "shell.scip",
        Pass::Po => "po.scip",
        Pass::TreeSitter => "tree-sitter.scip",
    }
}

/// What the source tree holds for the passes.
#[derive(Debug, Clone, Copy)]
pub struct Tree {
    /// Whether there is a `debian` directory.
    pub has_debian: bool,
    /// How many files the makefile pass would read.
    pub makefiles: usize,
    /// Whether there is a gettext catalogue or template.
    pub has_po: bool,
}

/// Whether a pass has anything to do.
pub open spec fn has_work(pass: Pass, tree: Tree) -> bool {
    match pass {
        Pass::Debian => tree.has_debian,
        Pass::Makefile => tree.makefiles > 0,
        Pass::Shell => true,
        Pass::Po => tree.has_po,
        Pass::TreeSitter => true,
    }
}

/// Whether a pass has anything to do; it is skipped if not.
pub fn applies(pass: Pass, tree: &Tree) -> (r: bool)
    ensures
        r == has_work(pass, *tree),
{
    match pass {
        Pass::Debian => tree.has_debian,
        Pass::Makefile => tree.makefiles > 0,
        Pass::Shell => true,
        Pass::Po => tree.has_po,
        Pass::TreeSitter => true,
    }
}

/// A word of a command line.
#[derive(Debug)]
pub enum Word {
    Text(String),
    /// The source directory.
    Source,
    /// The index to write.
    Output,
    /// One of the files that the pass is given.
    File(usize),
}

/// What a [`Word`] holds.
pub enum WordView {
    Text(Seq<char>),
    Source,
    Output,
    File(int),
}

impl View for Word {
    type V = WordView;

    open spec fn view(&self) -> WordView {
        match self {
            Word::Text(s) => WordView::Text(s@),
            Word::Source => WordView::Source,
            Word::Output => WordView::Output,
            Word::File(i) => WordView::File(*i as int),
        }
    }
}

/// What each word of a list holds.
pub open spec fn word_views(v: Seq<Word>) -> Seq<WordView> {
    v.map_values(|w: Word| w@)
}

/// An option and its value, if it has one.
pub open spec fn option_words(flag: Seq<char>, value: Option<Seq<char>>) -> Seq<WordView> {
    match value {
        Some(v) => seq![WordView::Text(flag), WordView::Text(v)],
        None => Seq::empty(),
    }
}

/// The first `n` files.
pub open spec fn file_words(n: nat) -> Seq<WordView> {
    Seq::new(n, |i: int| WordView::File(i))
}

/// The first `n` files, each after `flag`.
pub open spec fn flagged_files(flag: Seq<char>, n: nat) -> Seq<WordView>
    decreases n,
{
    if n == 0 {
        Seq::empty()
    } else {
        flagged_files(flag, (n - 1) as nat) + seq![
            WordView::Text(flag),
            WordView::File(n - 1),
        ]
    }
}

/// The arguments of a pass. The makefile pass is given the `files` to read,
/// the last pass the indexes to defer to. A package's name and version go to
/// the passes that put them in their symbols.
pub open spec fn arguments_of(
    pass: Pass,
    name: Option<Seq<char>>,
    version: Option<Seq<char>>,
    files: nat,
) -> Seq<WordView> {
    match pass {
        Pass::Debian => seq![
            WordView::Text("scip"@),
            WordView::Text("--output"@),
            WordView::Output,
            WordView::Source,
        ],
        Pass::Makefile => seq![
            WordView::Text("scip"@),
            WordView::Text("--project-root"@),
            WordView::Source,
            WordView::Text("--output"@),
            WordView::Output,
        ] + file_words(files),
        Pass::Shell | Pass::Po => seq![
            WordView::Text("--project-root"@),
            WordView::Source,
            WordView::Text("--output"@),
            WordView::Output,
        ] + option_words("--package-name"@, name) + option_words("--package-version"@, version)
            + seq![WordView::Source],
        Pass::TreeSitter => seq![
            WordView::Text("--root"@),
            WordView::Source,
            WordView::Text("--output"@),
            WordView::Output,
        ] + flagged_files("--exclude-scip"@, files),
    }
}

/// Appends a word.
fn push_word(words: &mut Vec<Word>, w: Word)
    ensures
        word_views(final(words)@) == word_views(old(words)@).push(w@),
{
    let ghost before = word_views(words@);
    let ghost wv = w@;
    words.push(w);
    assert(word_views(words@) =~= before.push(wv));
}

/// Appends a word of text.
fn push_text(words: &mut Vec<Word>, s: &str)
    ensures
        word_views(final(words)@) == word_views(old(words)@).push(WordView::Text(s@)),
{
    push_word(words, Word::Text(s.to_string()));
}

/// Appends an option and its value, if it has one.
fn push_option(words: &mut Vec<Word>, flag: &str, value: Option<&str>)
    ensures
        word_views(final(words)@) == word_views(old(words)@) + option_words(
            flag@,
            text::opt_str_view(value),
        ),
{
    let ghost before = word_views(words@);
    if let Some(v) = value {
        push_text(words, flag);
        push_text(words, v);
    }
    assert(word_views(words@) =~= before + option_words(flag@, text::opt_str_view(value)));
}

/// The arguments of a pass.
pub fn arguments(pass: Pass, name: Option<&str>, version: Option<&str>, files: usize) -> (r: Vec<
    Word,
>)
    ensures
        word_views(r@) == arguments_of(
            pass,
            text::opt_str_view(name),
            text::opt_str_view(version),
            files as nat,
        ),
{
    let mut words: Vec<Word> = Vec::new();
    assert(word_views(words@) =~= Seq::empty());
    match pass {
        Pass::Debian => {
            push_text(&mut words, "scip");
            push_text(&mut words, "--output");
            push_word(&mut words, Word::Output);
            push_word(&mut words, Word::Source);
        },
        Pass::Makefile => {
            push_text(&mut words, "scip");
            push_text(&mut words, "--project-root");
            push_word(&mut words, Word::Source);
            push_text(&mut words, "--output");
            push_word(&mut words, Word::Output);
            let ghost head = word_views(words@);
            let mut i: usize = 0;
            assert(head + file_words(0) =~= head);
            while i < files
                invariant
                    0 <= i <= files,
                    word_views(words@) =~= head + file_words(i as nat),
                decreases files - i,
            {
                push_word(&mut words, Word::File(i));
                i += 1;
            }
        },
        Pass::Shell | Pass::Po => {
            push_text(&mut words, "--project-root");
            push_word(&mut words, Word::Source);
            push_text(&mut words, "--output");
            push_word(&mut words, Word::Output);
            push_option(&mut words, "--package-name", name);
            push_option(&mut words, "--package-version", version);
            push_word(&mut words, Word::Source);
        },
        Pass::TreeSitter => {
            push_text(&mut words, "--root");
            push_word(&mut words, Word::Source);
            push_text(&mut words, "--output");
            push_word(&mut words, Word::Output);
            let ghost head = word_views(words@);
            let mut i: usize = 0;
            assert(head + flagged_files("--exclude-scip"@, 0) =~= head);
            while i < files
                invariant
                    0 <= i <= files,
                    word_views(words@) =~= head + flagged_files("--exclude-scip"@, i as nat),
                decreases files - i,
            {
                push_text(&mut words, "--exclude-scip");
                push_word(&mut words, Word::File(i));
                i += 1;
            }
        },
    }
    assert(word_views(words@) =~= arguments_of(
        pass,
        text::opt_str_view(name),
        text::opt_str_view(version),
        files as nat,
    ));
    words
}

/// Whether the last pass defers to a file of the output directory: to every
/// index but its own.
pub fn is_excluded_index(name: &str) -> (r: bool)
    ensures
        r == (paths::extension_of(name@) == Some("scip"@) && name@ != output_of(Pass::TreeSitter)),
{
    paths::has_extension(name, "scip") && !text::str_eq(name, output(Pass::TreeSitter))
}

/// How a pass ended.
#[derive(Debug)]
pub enum PassEnd {
    /// It had nothing to do.
    Skipped,
    /// It wrote its index; its program reported this version.
    Written(Option<String>),
    /// Its program could not be run or failed.
    Failed,
}

/// What a [`PassEnd`] holds.
pub enum PassEndView {
    Skipped,
    Written(Option<Seq<char>>),
    Failed,
}

impl View for PassEnd {
    type V = PassEndView;

    open spec fn view(&self) -> PassEndView {
        match self {
            PassEnd::Skipped => PassEndView::Skipped,
            PassEnd::Written(v) => PassEndView::Written(text::opt_view(*v)),
            PassEnd::Failed => PassEndView::Failed,
        }
    }
}

/// The indexes after a pass.
pub open spec fn after_pass(
    indexes: Seq<manifest::IndexEntryView>,
    pass: Pass,
    end: PassEndView,
) -> Seq<manifest::IndexEntryView> {
    match end {
        PassEndView::Written(version) => indexes.push(
            manifest::post_pass_entry(output_of(pass), program_of(pass), version),
        ),
        _ => indexes,
    }
}

/// Notes the end of a pass in the manifest, and says whether the passes go
/// on: they stop at the first that fails.
pub fn finish_pass(manifest: &mut Manifest, pass: Pass, end: PassEnd) -> (r: bool)
    ensures
        r == (end@ !is Failed),
        manifest::index_views(final(manifest).indexes@) == after_pass(
            manifest::index_views(old(manifest).indexes@),
            pass,
            end@,
        ),
        final(manifest).generators == old(manifest).generators,
        final(manifest).failures == old(manifest).failures,
        final(manifest).ultrascip_version == old(manifest).ultrascip_version,
{
    match end {
        PassEnd::Skipped => true,
        PassEnd::Written(version) => {
            let ghost before = manifest::index_views(manifest.indexes@);
            let e = IndexEntry::post_pass(output(pass), program(pass), version);
            let ghost ev = e@;
            manifest.indexes.push(e);
            assert(manifest::index_views(manifest.indexes@) =~= before.push(ev));
            true
        },
        PassEnd::Failed => false,
    }
}

/// The indexes after the passes `ps` in turn, where `ends` says how each one
/// ends, and whether all of them ran.
pub open spec fn after_passes(
    indexes: Seq<manifest::IndexEntryView>,
    ps: Seq<Pass>,
    ends: spec_fn(Pass) -> PassEndView,
) -> (Seq<manifest::IndexEntryView>, bool)
    decreases ps.len(),
{
    if ps.len() == 0 {
        (indexes, true)
    } else if ends(ps[0]) is Failed {
        (indexes, false)
    } else {
        after_passes(after_pass(indexes, ps[0], ends(ps[0])), ps.skip(1), ends)
    }
}

/// Whether an entry is that of a pass among `ps` that wrote its index.
pub open spec fn added_by(
    ps: Seq<Pass>,
    ends: spec_fn(Pass) -> PassEndView,
    e: manifest::IndexEntryView,
) -> bool {
    exists|k: int|
        0 <= k < ps.len() && ends(#[trigger] ps[k]) is Written && e == manifest::post_pass_entry(
            output_of(ps[k]),
            program_of(ps[k]),
            ends(ps[k])->Written_0,
        )
}

/// Whether none of the passes fails.
pub open spec fn none_fails(ps: Seq<Pass>, ends: spec_fn(Pass) -> PassEndView) -> bool {
    forall|k: int| 0 <= k < ps.len() ==> !(ends(#[trigger] ps[k]) is Failed)
}

/// No pass undoes what stood in the manifest before, and every index that the
/// passes add is the one of a pass that wrote it. All passes run exactly when
/// none fails.
pub proof fn law_passes_only_add(
    indexes: Seq<manifest::IndexEntryView>,
    ps: Seq<Pass>,
    ends: spec_fn(Pass) -> PassEndView,
)
    ensures
        indexes.len() <= after_passes(indexes, ps, ends).0.len(),
        after_passes(indexes, ps, ends).0.take(indexes.len() as int) == indexes,
        forall|i: int|
            indexes.len() <= i < after_passes(indexes, ps, ends).0.len() ==> added_by(
                ps,
                ends,
                #[trigger] after_passes(indexes, ps, ends).0[i],
            ),
        after_passes(indexes, ps, ends).1 <==> none_fails(ps, ends),
    decreases ps.len(),
{
    let (after, all) = after_passes(indexes, ps, ends);
    if ps.len() == 0 {
        assert(after.take(indexes.len() as int) =~= indexes);
    } else if ends(ps[0]) is Failed {
        assert(after.take(indexes.len() as int) =~= indexes);
        assert(!none_fails(ps, ends));
    } else {
        let next = after_pass(indexes, ps[0], ends(ps[0]));
        let rest = ps.skip(1);
        law_passes_only_add(next, rest, ends);
        assert(after == after_passes(next, rest, ends).0);
        assert forall|i: int| 0 <= i < next.len() implies after[i] == next[i] by {
            assert(after.take(next.len() as int)[i] == next[i]);
        }
        assert(after.take(indexes.len() as int) =~= indexes);
        assert forall|i: int| indexes.len() <= i < after.len() implies added_by(
            ps,
            ends,
            #[trigger] after[i],
        ) by {
            if i < next.len() {
                assert(ends(ps[0]) is Written);
            } else {
                assert(added_by(rest, ends, after[i]));
                let k = choose|k: int|
                    0 <= k < rest.len() && ends(#[trigger] rest[k]) is Written && after[i]
                        == manifest::post_pass_entry(
                        output_of(rest[k]),
                        program_of(rest[k]),
                        ends(rest[k])->Written_0,
                    );
                assert(ps[k + 1] == rest[k]);
            }
        }
        if none_fails(rest, ends) {
            assert forall|k: int| 0 <= k < ps.len() implies !(ends(#[trigger] ps[k]) is Failed) by {
                if k > 0 {
                    assert(rest[k - 1] == ps[k]);
                }
            }
        } else {
            let k = choose|k: int| 0 <= k < rest.len() && ends(#[trigger] rest[k]) is Failed;
            assert(ends(ps[k + 1]) is Failed);
        }
    }
}

/// How a run ends.
#[derive(Debug, Clone, Copy, PartialEq, Eq, Structural)]
pub enum RunEnd {
    /// Everything worked.
    Success,
    /// A pass failed.
    PassFailed,
    /// The language indexers could not be run.
    IndexersUnavailable,
    /// The indexers of some build systems failed.
    IndexersFailed,
}

/// How a run ends: a failed pass counts first, then indexers that could not
/// be run at all, then those that failed.
pub fn run_end(passes_done: bool, indexers_ran: bool, manifest: &Manifest) -> (r: RunEnd)
    ensures
        r == (if !passes_done {
            RunEnd::PassFailed
        } else if !indexers_ran {
            RunEnd::IndexersUnavailable
        } else if manifest.failures@.len() > 0 {
            RunEnd::IndexersFailed
        } else {
            RunEnd::Success
        }),
{
    if !passes_done {
        RunEnd::PassFailed
    } else if !indexers_ran {
        RunEnd::IndexersUnavailable
    } else if manifest.failures.len() > 0 {
        RunEnd::IndexersFailed
    } else {
        RunEnd::Success
    }
}

/// The catch-all runs after every other pass, so that it can defer to their
/// indexes.
pub proof fn law_catch_all_last(off: Disabled)
    ensures
        forall|i: int|
            0 <= i < schedule(off).len() && (#[trigger] schedule(off)[i]) == Pass::TreeSitter ==> i
                == schedule(off).len() - 1,
        schedule(off).contains(Pass::TreeSitter) <==> !off.tree_sitter,
{
    let s = schedule(off);
    if !off.tree_sitter {
        assert(s.last() == Pass::TreeSitter);
    }
}

} // verus!
