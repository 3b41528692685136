//! How a run goes: which passes run, with what, and what is recorded of them.

use crate::index;
use crate::manifest;
use crate::manifest::{IndexEntry, IndexEntryView, IndexKind, Manifest};
use crate::passes;
use crate::passes::{Disabled, Pass, PassEnd, PassEndView, RunEnd, WordView};
use crate::paths;
use crate::text;
use crate::text_laws;
use crate::version;
use vstd::prelude::*;

verus! {

/// Whether a pass is switched off.
pub open spec fn is_off(off: Disabled, pass: Pass) -> bool {
    match pass {
        Pass::Debian => off.debian,
        Pass::Makefile => off.makefile,
        Pass::Shell => off.shell,
        Pass::Po => off.po,
        Pass::TreeSitter => off.tree_sitter,
    }
}

/// The place of a pass among all of them: packaging files, makefiles, scripts,
/// catalogues, and last the catch-all.
pub open spec fn rank(pass: Pass) -> int {
    match pass {
        Pass::Debian => 0,
        Pass::Makefile => 1,
        Pass::Shell => 2,
        Pass::Po => 3,
        Pass::TreeSitter => 4,
    }
}

/// Exactly the passes that are not switched off run, each once and in a fixed
/// order, whichever others run.
pub proof fn law_schedule(off: Disabled, pass: Pass)
    ensures
        passes::schedule(off).contains(pass) <==> !is_off(off, pass),
        forall|i: int, j: int|
            0 <= i < j < passes::schedule(off).len() ==> rank(#[trigger] passes::schedule(off)[i])
                < rank(#[trigger] passes::schedule(off)[j]),
{
    let a = passes::unless(off.debian, Seq::empty(), Pass::Debian);
    let b = passes::unless(off.makefile, a, Pass::Makefile);
    let c = passes::unless(off.shell, b, Pass::Shell);
    let d = passes::unless(off.po, c, Pass::Po);
    let s = passes::schedule(off);
    assert(a.len() <= 1 && b.len() <= 2 && c.len() <= 3 && d.len() <= 4 && s.len() <= 5);
    lemma_unless(Seq::empty(), off.debian, Pass::Debian, pass);
    lemma_unless(a, off.makefile, Pass::Makefile, pass);
    lemma_unless(b, off.shell, Pass::Shell, pass);
    lemma_unless(c, off.po, Pass::Po, pass);
    lemma_unless(d, off.tree_sitter, Pass::TreeSitter, pass);
}

/// One more pass stands behind the others.
proof fn lemma_unless(before: Seq<Pass>, off: bool, last: Pass, pass: Pass)
    ensures
        passes::unless(off, before, last).contains(pass) <==> before.contains(pass) || (!off && pass
            == last),
{
    let after = passes::unless(off, before, last);
    if before.contains(pass) {
        let i = before.index_of(pass);
        assert(after[i] == pass);
    }
    if !off {
        assert(after[before.len() as int] == last);
    }
    if after.contains(pass) {
        let i = after.index_of(pass);
        if i < before.len() {
            assert(before[i] == pass);
        }
    }
}

/// The passes that a run plans are those.
pub proof fn law_plan(off: &Disabled, r: Vec<Pass>)
    requires
        call_ensures(passes::plan, (off,), r),
    ensures
        r@ == passes::schedule(*off),
{
}

/// Each pass has a program and an index of its own.
pub proof fn law_programs(pass: Pass)
    ensures
        pass == Pass::Debian ==> passes::program_of(pass) == "debian-lsp"@ && passes::output_of(pass)
            == "debian.scip"@,
        pass == Pass::Makefile ==> passes::program_of(pass) == "makefile-lsp"@ && passes::output_of(
            pass,
        ) == "makefile.scip"@,
        pass == Pass::Shell ==> passes::program_of(pass) == "scip-shell"@ && passes::output_of(pass)
            == "shell.scip"@,
        pass == Pass::Po ==> passes::program_of(pass) == "scip-po"@ && passes::output_of(pass)
            == "po.scip"@,
        pass == Pass::TreeSitter ==> passes::program_of(pass) == "scip-tree-sitter"@
            && passes::output_of(pass) == "tree-sitter.scip"@,
{
}

/// The packaging pass needs a `debian` directory, the makefile pass a makefile
/// and the catalogue pass a catalogue; the other two always run.
pub proof fn law_work(tree: passes::Tree)
    ensures
        passes::has_work(Pass::Debian, tree) == tree.has_debian,
        passes::has_work(Pass::Makefile, tree) == (tree.makefiles > 0),
        passes::has_work(Pass::Shell, tree),
        passes::has_work(Pass::Po, tree) == tree.has_po,
        passes::has_work(Pass::TreeSitter, tree),
{
}

/// A pass applies where it has work.
pub proof fn law_passes_apply(pass: Pass, tree: &passes::Tree, r: bool)
    requires
        call_ensures(passes::applies, (pass, tree), r),
    ensures
        r == passes::has_work(pass, *tree),
{
}

/// Whether the option `flag` stands at `k` with its value behind it.
pub open spec fn has_option(words: Seq<WordView>, k: int, flag: Seq<char>, value: WordView) -> bool {
    0 <= k < words.len() - 1 && words[k] == WordView::Text(flag) && words[k + 1] == value
}

/// Every pass is told where its index goes and what the source directory is.
pub proof fn law_every_pass_is_told(
    pass: Pass,
    name: Option<Seq<char>>,
    version: Option<Seq<char>>,
    files: nat,
)
    ensures
        ({
            let words = passes::arguments_of(pass, name, version, files);
            &&& exists|k: int| #[trigger] has_option(words, k, "--output"@, WordView::Output)
            &&& words.contains(WordView::Source)
        }),
{
    let words = passes::arguments_of(pass, name, version, files);
    match pass {
        Pass::Debian => {
            assert(has_option(words, 1, "--output"@, WordView::Output));
            assert(words[3] == WordView::Source);
        },
        Pass::Makefile => {
            assert(has_option(words, 3, "--output"@, WordView::Output));
            assert(words[2] == WordView::Source);
        },
        _ => {
            assert(has_option(words, 2, "--output"@, WordView::Output));
            assert(words[1] == WordView::Source);
        },
    }
}

/// The packaging pass takes the source directory last, after the subcommand and
/// the place of its index.
pub proof fn law_debian_arguments(
    name: Option<Seq<char>>,
    version: Option<Seq<char>>,
    files: nat,
)
    ensures
        ({
            let words = passes::arguments_of(Pass::Debian, name, version, files);
            &&& words.len() == 4
            &&& words[0] == WordView::Text("scip"@)
            &&& words[3] == WordView::Source
        }),
{
}

/// The makefile pass is given its root and every file, in order, behind the
/// options.
pub proof fn law_makefile_arguments(
    name: Option<Seq<char>>,
    version: Option<Seq<char>>,
    files: nat,
    i: int,
)
    ensures
        ({
            let words = passes::arguments_of(Pass::Makefile, name, version, files);
            &&& words.len() == 5 + files
            &&& words[0] == WordView::Text("scip"@)
            &&& has_option(words, 1, "--project-root"@, WordView::Source)
            &&& 0 <= i < files ==> words[5 + i] == WordView::File(i)
        }),
{
}

/// The passes over scripts and catalogues are given the package's name and
/// version where those are known, and the source directory last.
pub proof fn law_package_arguments(
    pass: Pass,
    name: Option<Seq<char>>,
    version: Option<Seq<char>>,
    files: nat,
)
    requires
        pass == Pass::Shell || pass == Pass::Po,
    ensures
        ({
            let words = passes::arguments_of(pass, name, version, files);
            let at = if name is Some {
                6int
            } else {
                4int
            };
            &&& has_option(words, 0, "--project-root"@, WordView::Source)
            &&& name matches Some(n) ==> has_option(words, 4, "--package-name"@, WordView::Text(n))
            &&& version matches Some(v) ==> has_option(
                words,
                at,
                "--package-version"@,
                WordView::Text(v),
            )
            &&& words.len() == at + 1 + if version is Some {
                2int
            } else {
                0int
            }
            &&& words.last() == WordView::Source
        }),
{
}

/// The catch-all is given its root and every other index to defer to, each
/// behind its own option, in order.
pub proof fn law_catch_all_arguments(
    name: Option<Seq<char>>,
    version: Option<Seq<char>>,
    files: nat,
    i: int,
)
    ensures
        ({
            let words = passes::arguments_of(Pass::TreeSitter, name, version, files);
            &&& words.len() == 4 + 2 * files
            &&& has_option(words, 0, "--root"@, WordView::Source)
            &&& 0 <= i < files ==> has_option(
                words,
                4 + 2 * i,
                "--exclude-scip"@,
                WordView::File(i),
            )
        }),
{
    lemma_flagged("--exclude-scip"@, files, i);
    let words = passes::arguments_of(Pass::TreeSitter, name, version, files);
    let flagged = passes::flagged_files("--exclude-scip"@, files);
    if 0 <= i < files {
        assert(words[4 + 2 * i] == flagged[2 * i]);
        assert(words[4 + 2 * i + 1] == flagged[2 * i + 1]);
    }
}

/// Each file stands behind its own flag.
proof fn lemma_flagged(flag: Seq<char>, n: nat, i: int)
    ensures
        passes::flagged_files(flag, n).len() == 2 * n,
        0 <= i < n ==> passes::flagged_files(flag, n)[2 * i] == WordView::Text(flag)
            && passes::flagged_files(flag, n)[2 * i + 1] == WordView::File(i),
    decreases n,
{
    if n > 0 {
        lemma_flagged(flag, (n - 1) as nat, i);
        let before = passes::flagged_files(flag, (n - 1) as nat);
        let after = passes::flagged_files(flag, n);
        if 0 <= i < n - 1 {
            assert(after[2 * i] == before[2 * i]);
            assert(after[2 * i + 1] == before[2 * i + 1]);
        }
    }
}

/// The catch-all defers to every index of the output directory but its own.
pub proof fn law_excluded_indexes(name: &str, r: bool)
    requires
        call_ensures(passes::is_excluded_index, (name,), r),
    ensures
        r <==> paths::extension_of(name@) == Some("scip"@) && name@ != "tree-sitter.scip"@,
{
}

/// A pass that wrote its index is recorded behind the others, with its file, its
/// program and the version that the program reported; one that was skipped or
/// failed is not recorded.
pub proof fn law_recorded_passes(
    indexes: Seq<IndexEntryView>,
    pass: Pass,
    reported: Option<Seq<char>>,
)
    ensures
        passes::after_pass(indexes, pass, PassEndView::Skipped) == indexes,
        passes::after_pass(indexes, pass, PassEndView::Failed) == indexes,
        ({
            let after = passes::after_pass(indexes, pass, PassEndView::Written(reported));
            let e = after.last();
            &&& after.len() == indexes.len() + 1
            &&& after.drop_last() == indexes
            &&& e.file == passes::output_of(pass)
            &&& e.indexer == passes::program_of(pass)
            &&& e.indexer_version == reported
            &&& e.kind == IndexKind::PostPass
            &&& e.language is None
            &&& e.build_system is None
            &&& e.documents is None
            &&& e.exports is None
        }),
{
    let after = passes::after_pass(indexes, pass, PassEndView::Written(reported));
    assert(after.drop_last() =~= indexes);
}

/// The passes stop at the first that fails.
pub proof fn law_passes_stop(manifest: &mut Manifest, pass: Pass, end: PassEnd, r: bool)
    requires
        call_ensures(passes::finish_pass, (manifest, pass, end), r),
    ensures
        r <==> !(end is Failed),
        manifest::index_views(final(manifest).indexes@) == passes::after_pass(
            manifest::index_views(old(manifest).indexes@),
            pass,
            end@,
        ),
        final(manifest).failures == old(manifest).failures,
        final(manifest).generators == old(manifest).generators,
{
}

/// The passes of a list that runs through run one after the other: what the
/// first ones leave, the others go on with; a failure ends them all.
pub proof fn law_passes_in_turn(
    indexes: Seq<IndexEntryView>,
    a: Seq<Pass>,
    b: Seq<Pass>,
    ends: spec_fn(Pass) -> PassEndView,
)
    ensures
        ({
            let (first, went) = passes::after_passes(indexes, a, ends);
            passes::after_passes(indexes, a + b, ends) == (if went {
                passes::after_passes(first, b, ends)
            } else {
                (first, false)
            })
        }),
    decreases a.len(),
{
    if a.len() == 0 {
        assert(a + b =~= b);
    } else {
        assert((a + b)[0] == a[0]);
        assert((a + b).skip(1) =~= a.skip(1) + b);
        if !(ends(a[0]) is Failed) {
            law_passes_in_turn(
                passes::after_pass(indexes, a[0], ends(a[0])),
                a.skip(1),
                b,
                ends,
            );
        }
    }
}

/// A run succeeds only if every pass ran, the indexers could be run and none of
/// them failed; otherwise it says which of these did not hold, in that order.
pub proof fn law_run_ends(done: bool, ran: bool, manifest: &Manifest, r: RunEnd)
    requires
        call_ensures(passes::run_end, (done, ran, manifest), r),
    ensures
        (r == RunEnd::Success) <==> done && ran && manifest.failures@.len() == 0,
        (r == RunEnd::PassFailed) <==> !done,
        (r == RunEnd::IndexersUnavailable) <==> done && !ran,
        (r == RunEnd::IndexersFailed) <==> done && ran && manifest.failures@.len() > 0,
{
}

/// An index that a language indexer wrote is recorded with its language, its
/// build system and its tool, and without counts.
pub proof fn law_language_entries(
    file: String,
    language: &str,
    build_system: &str,
    indexer: &str,
    reported: Option<String>,
    r: IndexEntry,
)
    requires
        call_ensures(
            IndexEntry::language,
            (file, language, build_system, indexer, reported),
            r,
        ),
    ensures
        r@.file == file@,
        r@.kind == IndexKind::Language,
        r@.language == Some(language@),
        r@.build_system == Some(build_system@),
        r@.indexer == indexer@,
        r@.indexer_version == text::opt_view(reported),
        r@.documents is None,
        r@.exports is None,
{
}

/// A companion is recorded with its build system, its tool in this program's
/// version and its counts, and with no language.
pub proof fn law_companion_entries(
    file: String,
    build_system: &str,
    indexer: &str,
    documents: usize,
    exports: usize,
    r: IndexEntry,
)
    requires
        call_ensures(
            IndexEntry::companion,
            (file, build_system, indexer, documents, exports),
            r,
        ),
    ensures
        r@.file == file@,
        r@.kind == IndexKind::Companion,
        r@.language is None,
        r@.build_system == Some(build_system@),
        r@.indexer == indexer@,
        r@.indexer_version == Some(version::VERSION@),
        r@.documents == Some(documents),
        r@.exports == Some(exports),
{
}

/// A tag is taken without its `v`, and without one as it is; only one `v` goes.
pub proof fn law_tags(tag: &str, rest: Seq<char>, r: String)
    requires
        call_ensures(version::strip_tag_prefix, (tag,), r),
    ensures
        tag@ == seq!['v'] + rest ==> r@ == rest,
        tag@.len() == 0 || tag@[0] != 'v' ==> r@ == tag@,
{
    reveal_strlit("v");
    if tag@.len() > 0 {
        assert(tag@.take(1)[0] == tag@[0]);
        if tag@[0] == 'v' {
            assert(tag@.take(1) =~= "v"@);
            assert((seq!['v'] + rest).skip(1) =~= rest);
        }
    }
}

/// Collecting the generators records every tool that wrote an index, and
/// changes nothing else of a manifest.
pub proof fn law_collect_generators(manifest: &mut Manifest, e: IndexEntryView)
    requires
        call_ensures(Manifest::collect_generators, (manifest,), ()),
        old(manifest).generators.wf(),
        manifest::index_views(old(manifest).indexes@).contains(e),
    ensures
        manifest::recorded(final(manifest).generators@, e.indexer) is Some,
        final(manifest).indexes == old(manifest).indexes,
        final(manifest).failures == old(manifest).failures,
{
    let views = manifest::index_views(old(manifest).indexes@);
    let gs = manifest::index_generators(views);
    let i = views.index_of(e);
    assert(gs[i].0 == e.indexer);
    manifest::law_collected(old(manifest).generators@, gs, e.indexer);
    lemma_last_version(gs, i);
}

/// A tool that stands in a list has a last version there.
proof fn lemma_last_version(gs: Seq<manifest::GeneratorView>, i: int)
    requires
        0 <= i < gs.len(),
    ensures
        manifest::last_version(gs, gs[i].0) is Some,
    decreases gs.len(),
{
    if i < gs.len() - 1 {
        assert(gs.drop_last()[i] == gs[i]);
        lemma_last_version(gs.drop_last(), i);
    }
}

/// The last version of a tool in a list is the one that it stands with last.
pub proof fn law_last_version(
    gs: Seq<manifest::GeneratorView>,
    i: int,
    name: Seq<char>,
)
    ensures
        0 <= i < gs.len() && gs[i].0 == name && (forall|j: int|
            i < j < gs.len() ==> (#[trigger] gs[j]).0 != name) ==> manifest::last_version(gs, name)
            == Some(gs[i].1),
        (forall|j: int| 0 <= j < gs.len() ==> (#[trigger] gs[j]).0 != name)
            ==> manifest::last_version(gs, name) is None,
    decreases gs.len(),
{
    if gs.len() > 0 {
        let front = gs.drop_last();
        law_last_version(front, i, name);
        if 0 <= i < gs.len() - 1 && forall|j: int|
            i < j < gs.len() ==> (#[trigger] gs[j]).0 != name {
            assert(gs[gs.len() - 1].0 != name);
            assert forall|j: int| i < j < front.len() implies (#[trigger] front[j]).0 != name by {
                assert(front[j] == gs[j]);
            }
        }
        if forall|j: int| 0 <= j < gs.len() ==> (#[trigger] gs[j]).0 != name {
            assert(gs[gs.len() - 1].0 != name);
            assert forall|j: int| 0 <= j < front.len() implies (#[trigger] front[j]).0 != name by {
                assert(front[j] == gs[j]);
            }
        }
    }
}

/// A tool that is recorded is recorded with the version it stands with.
pub proof fn law_recorded_version(
    v: Seq<manifest::GeneratorView>,
    i: int,
    name: Seq<char>,
)
    ensures
        0 <= i < v.len() && v[i].0 == name && (forall|j: int|
            0 <= j < i ==> (#[trigger] v[j]).0 != name) ==> manifest::recorded(v, name) == Some(
            v[i].1,
        ),
        (forall|j: int| 0 <= j < v.len() ==> (#[trigger] v[j]).0 != name) ==> manifest::recorded(
            v,
            name,
        ) is None,
    decreases v.len(),
{
    if v.len() > 0 {
        let rest = v.skip(1);
        law_recorded_version(rest, i - 1, name);
        if 0 < i < v.len() && forall|j: int| 0 <= j < i ==> (#[trigger] v[j]).0 != name {
            assert(v[0].0 != name);
            assert forall|j: int| 0 <= j < i - 1 implies (#[trigger] rest[j]).0 != name by {
                assert(rest[j] == v[j + 1]);
            }
        }
        if forall|j: int| 0 <= j < v.len() ==> (#[trigger] v[j]).0 != name {
            assert(v[0].0 != name);
            assert forall|j: int| 0 <= j < rest.len() implies (#[trigger] rest[j]).0 != name by {
                assert(rest[j] == v[j + 1]);
            }
        }
    }
}

/// The version that a tool reports is the first word of its first line that is
/// not blank, behind the tool's name if that comes first, without a leading `v`.
/// What follows that word, and what follows that line, does not matter.
pub proof fn law_reported_version(
    binary: Seq<char>,
    blanks: Seq<Seq<char>>,
    v: Seq<char>,
    tail: Seq<char>,
    rest: Seq<Seq<char>>,
)
    requires
        forall|i: int| 0 <= i < blanks.len() ==> text_laws::is_blank(#[trigger] blanks[i]),
        version::is_word(binary),
        binary.len() > 0,
        v.len() > 0,
        version::is_word(v),
        '0' <= v[0] <= '9',
        tail.len() > 0 ==> text::white_space(tail[0]) && !text::white_space(tail.last()),
    ensures
        version::first_line(blanks + (seq![binary + seq![' '] + (v + tail)] + rest)) == Some(
            binary + seq![' '] + (v + tail),
        ),
        version::version_in_line(binary, binary + seq![' '] + (v + tail)) == Some(v),
        version::version_in_line(binary, binary + seq![' '] + (seq!['v'] + v + tail)) == Some(v),
        !text::has_prefix(v + tail, binary) ==> version::version_in_line(binary, v + tail) == Some(
            v,
        ),
{
    reveal_strlit("v");
    let line = binary + seq![' '] + (v + tail);
    assert(!text::white_space(binary[0]));
    assert(!text::white_space(v[v.len() - 1]));
    assert(line[0] == binary[0]);
    let none = Seq::<char>::empty();
    assert(none + line + none =~= line);
    text_laws::law_trimmed(none, line, none);
    lemma_blank_lines(blanks, seq![line] + rest);
    // The word behind the name.
    assert(line.take(binary.len() as int) =~= binary);
    assert(line.skip(binary.len() as int) =~= seq![' '] + (v + tail));
    text_laws::law_trimmed_start(seq![' '], v + tail);
    lemma_first_word(v, tail);
    assert(!text::has_prefix(v, "v"@)) by {
        if text::has_prefix(v, "v"@) {
            assert(v.take(1)[0] == v[0]);
        }
    }
    let tagged = seq!['v'] + v;
    let line2 = binary + seq![' '] + (seq!['v'] + v + tail);
    assert(line2.take(binary.len() as int) =~= binary);
    assert(line2.skip(binary.len() as int) =~= seq![' '] + (tagged + tail));
    text_laws::law_trimmed_start(seq![' '], tagged + tail);
    assert forall|i: int| 0 <= i < tagged.len() implies !text::white_space(
        #[trigger] tagged[i],
    ) by {
        if i > 0 {
            assert(!text::white_space(v[i - 1]));
        }
    }
    lemma_first_word(tagged, tail);
    assert(tagged.take(1) =~= "v"@);
    assert(tagged.skip(1) =~= v);
    // Without a name.
    assert(none + (v + tail) =~= v + tail);
    text_laws::law_trimmed_start(none, v + tail);
}

/// Blank lines are passed over.
proof fn lemma_blank_lines(blanks: Seq<Seq<char>>, rest: Seq<Seq<char>>)
    requires
        forall|i: int| 0 <= i < blanks.len() ==> text_laws::is_blank(#[trigger] blanks[i]),
    ensures
        version::first_line(blanks + rest) == version::first_line(rest),
    decreases blanks.len(),
{
    let s = blanks + rest;
    if blanks.len() == 0 {
        assert(s =~= rest);
    } else {
        assert(text_laws::is_blank(blanks[0]));
        text_laws::law_blank(blanks[0]);
        assert(s.skip(1) =~= blanks.skip(1) + rest);
        assert forall|i: int| 0 <= i < blanks.skip(1).len() implies text_laws::is_blank(
            #[trigger] blanks.skip(1)[i],
        ) by {
            assert(blanks.skip(1)[i] == blanks[i + 1]);
        }
        lemma_blank_lines(blanks.skip(1), rest);
    }
}

/// A word ends at the first white space.
proof fn lemma_first_word(word: Seq<char>, tail: Seq<char>)
    requires
        version::is_word(word),
        tail.len() > 0 ==> text::white_space(tail[0]),
    ensures
        version::before_space(word + tail) == word,
    decreases word.len(),
{
    let s = word + tail;
    if word.len() == 0 {
        assert(s =~= tail);
        assert(version::before_space(s) =~= word);
    } else {
        assert(!text::white_space(word[0]));
        assert(s.skip(1) =~= word.skip(1) + tail);
        assert forall|i: int| 0 <= i < word.skip(1).len() implies !text::white_space(
            #[trigger] word.skip(1)[i],
        ) by {
            assert(word.skip(1)[i] == word[i + 1]);
        }
        lemma_first_word(word.skip(1), tail);
        assert(seq![s[0]] + word.skip(1) =~= word);
    }
}

/// A line whose first word is no number gives no version.
pub proof fn law_no_version(binary: Seq<char>, line: Seq<char>)
    requires
        !text::has_prefix(line, binary),
        line.len() > 0,
        !text::white_space(line[0]),
        line[0] != 'v',
        !('0' <= line[0] <= '9'),
    ensures
        version::version_in_line(binary, line) is None,
{
    reveal_strlit("v");
    let none = Seq::<char>::empty();
    assert(none + line =~= line);
    text_laws::law_trimmed_start(none, line);
    let word = version::before_space(line);
    assert(word[0] == line[0]);
    if text::has_prefix(word, "v"@) {
        assert(word.take(1)[0] == word[0]);
    }
}

/// A tool's version is read off its output, and only without one there off its
/// error output; a tool that failed has none.
pub proof fn law_host_version(
    binary: &str,
    success: bool,
    stdout: &str,
    stderr: &str,
    r: Option<String>,
)
    requires
        call_ensures(version::host_version, (binary, success, stdout, stderr), r),
    ensures
        !success ==> r is None,
        success ==> match version::reported_version(binary@, stdout@) {
            Some(v) => text::opt_view(r) == Some(v),
            None => text::opt_view(r) == version::reported_version(binary@, stderr@),
        },
{
}

/// What is read of an index: its documents in order, each with its path, its
/// occurrences and its symbols, with their names, kinds and signatures.
pub proof fn law_what_is_read(m: index::IndexView, d: int, i: int)
    ensures
        index::read_part(m).documents.len() == m.documents.len(),
        index::read_part(m).metadata.project_root == m.metadata.project_root,
        index::read_part(m).metadata.version == m.metadata.version,
        index::read_part(m).metadata.text_document_encoding == m.metadata.text_document_encoding,
        0 <= d < m.documents.len() ==> ({
            let (was, now) = (m.documents[d], index::read_part(m).documents[d]);
            &&& now.relative_path == was.relative_path
            &&& now.occurrences == was.occurrences
            &&& now.symbols.len() == was.symbols.len()
            &&& 0 <= i < was.symbols.len() ==> {
                &&& now.symbols[i].symbol == was.symbols[i].symbol
                &&& now.symbols[i].display_name == was.symbols[i].display_name
                &&& now.symbols[i].kind == was.symbols[i].kind
                &&& now.symbols[i].signature == was.symbols[i].signature
            }
        }),
{
}

/// What is written of an index: all of it but the signatures.
pub proof fn law_what_is_written(index: index::IndexView, d: int, i: int)
    ensures
        index::written_part(index).metadata == index.metadata,
        index::written_part(index).documents.len() == index.documents.len(),
        0 <= d < index.documents.len() ==> ({
            let (was, now) = (index.documents[d], index::written_part(index).documents[d]);
            &&& now.language == was.language
            &&& now.relative_path == was.relative_path
            &&& now.occurrences == was.occurrences
            &&& now.symbols.len() == was.symbols.len()
            &&& 0 <= i < was.symbols.len() ==> {
                &&& now.symbols[i].symbol == was.symbols[i].symbol
                &&& now.symbols[i].display_name == was.symbols[i].display_name
                &&& now.symbols[i].kind == was.symbols[i].kind
                &&& now.symbols[i].relationships == was.symbols[i].relationships
                &&& now.symbols[i].signature is None
            }
        }),
{
}

/// An occurrence is a definition by one of its roles, whatever others it has.
pub proof fn law_definition_role(roles: i32)
    ensures
        index::is_definition(roles | 1),
        !index::is_definition(roles & !1i32),
        !index::is_definition(0),
{
    assert((roles | 1i32) & 1i32 != 0) by (bit_vector);
    assert((roles & !1i32) & 1i32 == 0) by (bit_vector);
    assert(0i32 & 1i32 == 0) by (bit_vector);
}

} // verus!
