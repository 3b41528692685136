//! The manifest that is written alongside the indexes.
//!
//! An output directory holds indexes from several producers: language
//! indexers, companions and passes over the source tree. The manifest
//! records, for each index, what produced it and at which version, and which
//! build systems failed to index. Comparing the versions of a stored manifest
//! with the current tools says which indexes have to be made again.

use crate::text;
use crate::version;
use vstd::prelude::*;

verus! {

/// A tool and the version that it reported, if it did.
pub type GeneratorView = (Seq<char>, Option<Seq<char>>);

/// Whether tools are in the order of their names, each name once.
pub open spec fn is_sorted(v: Seq<GeneratorView>) -> bool {
    forall|i: int, j: int|
        0 <= i < j < v.len() ==> text::precedes((#[trigger] v[i]).0, (#[trigger] v[j]).0)
}

/// What is recorded of the tool `name`: nothing, or its version.
pub open spec fn recorded(v: Seq<GeneratorView>, name: Seq<char>) -> Option<Option<Seq<char>>>
    decreases v.len(),
{
    if v.len() == 0 {
        None
    } else if v[0].0 == name {
        Some(v[0].1)
    } else {
        recorded(v.skip(1), name)
    }
}

/// `v` with one more tool in the order of names. A tool that is there gets
/// the new version.
pub open spec fn with_generator(v: Seq<GeneratorView>, g: GeneratorView) -> Seq<GeneratorView>
    decreases v.len(),
{
    if v.len() == 0 {
        seq![g]
    } else if v[0].0 == g.0 {
        v.update(0, g)
    } else if text::precedes(g.0, v[0].0) {
        seq![g] + v
    } else {
        seq![v[0]] + with_generator(v.skip(1), g)
    }
}

/// Recording a tool keeps the order of the others.
proof fn lemma_with_generator_sorted(v: Seq<GeneratorView>, g: GeneratorView)
    requires
        is_sorted(v),
    ensures
        is_sorted(with_generator(v, g)),
        forall|i: int|
            0 <= i < with_generator(v, g).len() ==> (#[trigger] with_generator(v, g)[i]).0 == g.0
                || exists|k: int|
                0 <= k < v.len() && (#[trigger] v[k]).0 == with_generator(v, g)[i].0,
    decreases v.len(),
{
    let r = with_generator(v, g);
    if v.len() == 0 {
    } else if v[0].0 == g.0 {
        assert forall|i: int, j: int| 0 <= i < j < r.len() implies text::precedes(
            (#[trigger] r[i]).0,
            (#[trigger] r[j]).0,
        ) by {
            assert(r[i].0 == v[i].0 && r[j].0 == v[j].0);
        }
        assert forall|i: int| 0 <= i < r.len() implies (#[trigger] r[i]).0 == g.0 || exists|k: int|
            0 <= k < v.len() && (#[trigger] v[k]).0 == r[i].0 by {
            assert(v[i].0 == r[i].0);
        }
    } else if text::precedes(g.0, v[0].0) {
        assert forall|i: int, j: int| 0 <= i < j < r.len() implies text::precedes(
            (#[trigger] r[i]).0,
            (#[trigger] r[j]).0,
        ) by {
            assert(r[j] == v[j - 1]);
            if i == 0 {
                if j > 1 {
                    text::lemma_precedes_transitive(g.0, v[0].0, v[j - 1].0);
                }
            } else {
                assert(r[i] == v[i - 1]);
            }
        }
        assert forall|i: int| 0 <= i < r.len() implies (#[trigger] r[i]).0 == g.0 || exists|k: int|
            0 <= k < v.len() && (#[trigger] v[k]).0 == r[i].0 by {
            if i > 0 {
                assert(v[i - 1].0 == r[i].0);
            }
        }
    } else {
        let tail = v.skip(1);
        let rest = with_generator(tail, g);
        assert forall|i: int, j: int| 0 <= i < j < tail.len() implies text::precedes(
            (#[trigger] tail[i]).0,
            (#[trigger] tail[j]).0,
        ) by {
            assert(tail[i] == v[i + 1] && tail[j] == v[j + 1]);
        }
        lemma_with_generator_sorted(tail, g);
        text::lemma_precedes_total(v[0].0, g.0);
        assert forall|i: int| 0 <= i < r.len() implies (#[trigger] r[i]).0 == g.0 || exists|k: int|
            0 <= k < v.len() && (#[trigger] v[k]).0 == r[i].0 by {
            if i == 0 {
                assert(v[0].0 == r[0].0);
            } else {
                assert(r[i] == rest[i - 1]);
                if rest[i - 1].0 != g.0 {
                    let k = choose|k: int|
                        0 <= k < tail.len() && (#[trigger] tail[k]).0 == rest[i - 1].0;
                    assert(v[k + 1].0 == r[i].0);
                }
            }
        }
        assert forall|i: int, j: int| 0 <= i < j < r.len() implies text::precedes(
            (#[trigger] r[i]).0,
            (#[trigger] r[j]).0,
        ) by {
            assert(r[j] == rest[j - 1]);
            if i == 0 {
                if rest[j - 1].0 != g.0 {
                    let k = choose|k: int|
                        0 <= k < tail.len() && (#[trigger] tail[k]).0 == rest[j - 1].0;
                    assert(tail[k] == v[k + 1]);
                }
            } else {
                assert(r[i] == rest[i - 1]);
            }
        }
    }
}

/// Recording a tool sets its version and leaves the others as they are.
pub proof fn law_recorded(v: Seq<GeneratorView>, g: GeneratorView, name: Seq<char>)
    requires
        is_sorted(v),
    ensures
        recorded(with_generator(v, g), name) == (if name == g.0 {
            Some(g.1)
        } else {
            recorded(v, name)
        }),
    decreases v.len(),
{
    let r = with_generator(v, g);
    if v.len() == 0 {
        assert(r.skip(1) =~= Seq::empty());
        assert(recorded(r.skip(1), name) is None);
        assert(r[0] == g);
    } else if v[0].0 == g.0 {
        assert(r.skip(1) =~= v.skip(1));
    } else if text::precedes(g.0, v[0].0) {
        assert(r.skip(1) =~= v);
    } else {
        let tail = v.skip(1);
        assert forall|i: int, j: int| 0 <= i < j < tail.len() implies text::precedes(
            (#[trigger] tail[i]).0,
            (#[trigger] tail[j]).0,
        ) by {
            assert(tail[i] == v[i + 1] && tail[j] == v[j + 1]);
        }
        law_recorded(tail, g, name);
        assert(r.skip(1) =~= with_generator(tail, g));
    }
}

/// The tools that contributed to an output directory, in the order of their
/// names, each with its version. A tool without one ran but could not report
/// it; a tool that is missing did not run.
#[derive(Debug, PartialEq, Eq)]
pub struct Generators {
    entries: Vec<(String, Option<String>)>,
}

impl View for Generators {
    type V = Seq<GeneratorView>;

    closed spec fn view(&self) -> Seq<GeneratorView> {
        entry_views(self.entries@)
    }
}

/// What each entry of a list holds.
pub open spec fn entry_views(v: Seq<(String, Option<String>)>) -> Seq<GeneratorView> {
    v.map_values(|e: (String, Option<String>)| (e.0@, text::opt_view(e.1)))
}

/// `v` with each of the tools recorded in turn.
pub open spec fn with_all(v: Seq<GeneratorView>, gs: Seq<GeneratorView>) -> Seq<GeneratorView>
    decreases gs.len(),
{
    if gs.len() == 0 {
        v
    } else {
        with_generator(with_all(v, gs.drop_last()), gs.last())
    }
}

impl Generators {
    /// The tools are in order.
    pub open spec fn wf(&self) -> bool {
        is_sorted(self@)
    }

    /// No tools.
    pub fn new() -> (r: Self)
        ensures
            r.wf(),
            r@ == Seq::<GeneratorView>::empty(),
    {
        let r = Generators { entries: Vec::new() };
        assert(r@ =~= Seq::empty());
        r
    }

    /// Records a tool. One that is there gets the new version.
    pub fn insert(&mut self, name: String, version: Option<String>)
        requires
            old(self).wf(),
        ensures
            final(self).wf(),
            final(self)@ == with_generator(old(self)@, (name@, text::opt_view(version))),
    {
        let ghost all = self@;
        let ghost g = (name@, text::opt_view(version));
        proof {
            lemma_with_generator_sorted(all, g);
            assert(all.skip(0) =~= all);
            assert(all.take(0) + with_generator(all.skip(0), g) =~= with_generator(all, g));
        }
        let mut i: usize = 0;
        while i < self.entries.len()
            invariant_except_break
                all.take(i as int) + with_generator(all.skip(i as int), g) =~= with_generator(
                    all,
                    g,
                ),
            invariant
                0 <= i <= self.entries@.len(),
                all == self@,
                all == old(self)@,
                is_sorted(with_generator(all, g)),
                g == (name@, text::opt_view(version)),
            ensures
                all.insert(i as int, g) =~= with_generator(all, g),
            decreases self.entries.len() - i,
        {
            assert(all[i as int] == (self.entries@[i as int].0@, text::opt_view(
                self.entries@[i as int].1,
            )));
            assert(all.skip(i as int).skip(1) =~= all.skip(i + 1));
            if text::str_eq(self.entries[i].0.as_str(), name.as_str()) {
                assert(all.take(i as int) + all.skip(i as int).update(0, g) =~= all.update(
                    i as int,
                    g,
                ));
                self.entries.set(i, (name, version));
                assert(self@ =~= all.update(i as int, g));
                return;
            }
            if text::comes_before(name.as_str(), self.entries[i].0.as_str()) {
                assert(all.insert(i as int, g) =~= all.take(i as int) + (seq![g] + all.skip(
                    i as int,
                )));
                break;
            }
            assert(all.take(i + 1) =~= all.take(i as int).push(all[i as int]));
            i += 1;
            proof {
                if i == self.entries@.len() {
                    assert(with_generator(all.skip(i as int), g) =~= seq![g]);
                    assert(all.insert(i as int, g) =~= all.take(i as int) + seq![g]);
                }
            }
        }
        self.entries.insert(i, (name, version));
        assert(self@ =~= all.insert(i as int, g));
    }

    /// The given tools, recorded in turn.
    pub fn from(entries: Vec<(String, Option<String>)>) -> (r: Self)
        ensures
            r.wf(),
            r@ == with_all(Seq::empty(), entry_views(entries@)),
    {
        let ghost all = entry_views(entries@);
        let mut r = Generators::new();
        let mut i: usize = 0;
        while i < entries.len()
            invariant
                0 <= i <= entries@.len(),
                all == entry_views(entries@),
                r.wf(),
                r@ == with_all(Seq::empty(), all.take(i as int)),
            decreases entries.len() - i,
        {
            let (name, version) = &entries[i];
            assert(all[i as int] == (entries@[i as int].0@, text::opt_view(entries@[i as int].1)));
            assert(all.take(i + 1).drop_last() =~= all.take(i as int));
            r.insert(name.clone(), copy_version(version));
            i += 1;
        }
        assert(all.take(i as int) =~= all);
        r
    }

    /// How many tools are recorded.
    pub fn len(&self) -> (r: usize)
        ensures
            r == self@.len(),
    {
        self.entries.len()
    }

    /// The tool at a place in the order of names, and its version.
    pub fn get(&self, i: usize) -> (r: (&str, Option<&str>))
        requires
            i < self@.len(),
        ensures
            (r.0@, text::opt_str_view(r.1)) == self@[i as int],
    {
        let e = &self.entries[i];
        let version = match &e.1 {
            Some(v) => Some(v.as_str()),
            None => None,
        };
        assert(self@[i as int] == (e.0@, text::opt_view(e.1)));
        (e.0.as_str(), version)
    }
}

/// A copy of an optional version.
fn copy_version(version: &Option<String>) -> (r: Option<String>)
    ensures
        text::opt_view(r) == text::opt_view(*version),
{
    match version {
        Some(v) => Some(v.clone()),
        None => None,
    }
}

/// What kind of producer wrote an index.
#[derive(Debug, Clone, Copy, PartialEq, Eq, Structural)]
pub enum IndexKind {
    /// A language indexer run for a detected build system.
    Language,
    /// A companion derived from a language index.
    Companion,
    /// A pass over the source tree.
    PostPass,
}

/// One index file in the output directory.
#[derive(Debug)]
pub struct IndexEntry {
    /// File name within the output directory.
    pub file: String,
    pub kind: IndexKind,
    /// The indexed language, for language indexes.
    pub language: Option<String>,
    /// The build system that the index was generated for; unset for passes.
    pub build_system: Option<String>,
    /// The tool that produced the index.
    pub indexer: String,
    /// The version of that tool; unknown if it could not report one.
    pub indexer_version: Option<String>,
    /// Documents in a companion index.
    pub documents: Option<usize>,
    /// Exported symbols in a companion index.
    pub exports: Option<usize>,
}

/// What an [`IndexEntry`] holds.
#[verifier::ext_equal]
pub struct IndexEntryView {
    pub file: Seq<char>,
    pub kind: IndexKind,
    pub language: Option<Seq<char>>,
    pub build_system: Option<Seq<char>>,
    pub indexer: Seq<char>,
    pub indexer_version: Option<Seq<char>>,
    pub documents: Option<usize>,
    pub exports: Option<usize>,
}

impl View for IndexEntry {
    type V = IndexEntryView;

    open spec fn view(&self) -> IndexEntryView {
        IndexEntryView {
            file: self.file@,
            kind: self.kind,
            language: text::opt_view(self.language),
            build_system: text::opt_view(self.build_system),
            indexer: self.indexer@,
            indexer_version: text::opt_view(self.indexer_version),
            documents: self.documents,
            exports: self.exports,
        }
    }
}

/// What each entry of a list holds.
pub open spec fn index_views(v: Seq<IndexEntry>) -> Seq<IndexEntryView> {
    v.map_values(|e: IndexEntry| e@)
}

/// The entry of a pass over the source tree.
pub open spec fn post_pass_entry(
    file: Seq<char>,
    indexer: Seq<char>,
    version: Option<Seq<char>>,
) -> IndexEntryView {
    IndexEntryView {
        file,
        kind: IndexKind::PostPass,
        language: None,
        build_system: None,
        indexer,
        indexer_version: version,
        documents: None,
        exports: None,
    }
}

impl IndexEntry {
    /// An index that a language indexer wrote.
    pub fn language(
        file: String,
        language: &str,
        build_system: &str,
        indexer: &str,
        indexer_version: Option<String>,
    ) -> (r: Self)
        ensures
            r@ == (IndexEntryView {
                file: file@,
                kind: IndexKind::Language,
                language: Some(language@),
                build_system: Some(build_system@),
                indexer: indexer@,
                indexer_version: text::opt_view(indexer_version),
                documents: None,
                exports: None,
            }),
    {
        IndexEntry {
            file,
            kind: IndexKind::Language,
            language: Some(language.to_string()),
            build_system: Some(build_system.to_string()),
            indexer: indexer.to_string(),
            indexer_version,
            documents: None,
            exports: None,
        }
    }

    /// A companion index. Its version is this program's own.
    pub fn companion(
        file: String,
        build_system: &str,
        indexer: &str,
        documents: usize,
        exports: usize,
    ) -> (r: Self)
        ensures
            r@ == (IndexEntryView {
                file: file@,
                kind: IndexKind::Companion,
                language: None,
                build_system: Some(build_system@),
                indexer: indexer@,
                indexer_version: Some(version::VERSION@),
                documents: Some(documents),
                exports: Some(exports),
            }),
    {
        IndexEntry {
            file,
            kind: IndexKind::Companion,
            language: None,
            build_system: Some(build_system.to_string()),
            indexer: indexer.to_string(),
            indexer_version: version::augment_version(),
            documents: Some(documents),
            exports: Some(exports),
        }
    }

    /// An index that a pass over the source tree wrote.
    pub fn post_pass(file: &str, indexer: &str, indexer_version: Option<String>) -> (r: Self)
        ensures
            r@ == post_pass_entry(file@, indexer@, text::opt_view(indexer_version)),
    {
        IndexEntry {
            file: file.to_string(),
            kind: IndexKind::PostPass,
            language: None,
            build_system: None,
            indexer: indexer.to_string(),
            indexer_version,
            documents: None,
            exports: None,
        }
    }
}

/// A build system whose indexer failed.
#[derive(Debug)]
pub struct IndexFailure {
    pub build_system: String,
    pub error: String,
}

/// What running the language indexers gave: the indexes written, and the
/// build systems that failed.
#[derive(Debug)]
pub struct ScipReport {
    pub indexes: Vec<IndexEntry>,
    pub failures: Vec<IndexFailure>,
}

impl ScipReport {
    /// Nothing written and nothing failed.
    pub fn new() -> (r: Self)
        ensures
            r.indexes@.len() == 0,
            r.failures@.len() == 0,
    {
        ScipReport { indexes: Vec::new(), failures: Vec::new() }
    }
}

/// The record of an output directory.
#[derive(Debug)]
pub struct Manifest {
    /// Version of the program that produced the output directory.
    pub ultrascip_version: &'static str,
    /// Version of every tool that contributed an index. The same versions
    /// stand with the indexes; this is the summary to compare with the
    /// current tools.
    pub generators: Generators,
    pub indexes: Vec<IndexEntry>,
    /// Build systems whose indexer failed. The indexes that did succeed are
    /// listed above all the same.
    pub failures: Vec<IndexFailure>,
}

/// The tool of each index, and its version.
pub open spec fn index_generators(v: Seq<IndexEntryView>) -> Seq<GeneratorView> {
    v.map_values(|e: IndexEntryView| (e.indexer, e.indexer_version))
}

impl Manifest {
    /// The record of an empty output directory.
    pub fn new() -> (r: Self)
        ensures
            r.ultrascip_version@ == version::VERSION@,
            r.generators.wf(),
            r.generators@ == Seq::<GeneratorView>::empty(),
            r.indexes@.len() == 0,
            r.failures@.len() == 0,
    {
        Manifest {
            ultrascip_version: version::VERSION,
            generators: Generators::new(),
            indexes: Vec::new(),
            failures: Vec::new(),
        }
    }

    /// Records the tool of each index. One that produced several indexes is
    /// recorded once.
    pub fn collect_generators(&mut self)
        requires
            old(self).generators.wf(),
        ensures
            final(self).generators.wf(),
            final(self).generators@ == with_all(
                old(self).generators@,
                index_generators(index_views(old(self).indexes@)),
            ),
            final(self).ultrascip_version == old(self).ultrascip_version,
            final(self).indexes == old(self).indexes,
            final(self).failures == old(self).failures,
    {
        let ghost before = self.generators@;
        let ghost all = index_generators(index_views(self.indexes@));
        let mut i: usize = 0;
        while i < self.indexes.len()
            invariant
                0 <= i <= self.indexes@.len(),
                all == index_generators(index_views(self.indexes@)),
                self.generators.wf(),
                self.generators@ == with_all(before, all.take(i as int)),
                self.ultrascip_version == old(self).ultrascip_version,
                self.indexes == old(self).indexes,
                self.failures == old(self).failures,
            decreases self.indexes.len() - i,
        {
            let indexer = self.indexes[i].indexer.clone();
            let indexer_version = copy_version(&self.indexes[i].indexer_version);
            assert(all[i as int] == (indexer@, text::opt_view(indexer_version)));
            assert(all.take(i + 1).drop_last() =~= all.take(i as int));
            self.generators.insert(indexer, indexer_version);
            i += 1;
        }
        assert(all.take(i as int) =~= all);
    }
}

/// The version with which the tool `name` is last recorded among `gs`.
pub open spec fn last_version(gs: Seq<GeneratorView>, name: Seq<char>) -> Option<
    Option<Seq<char>>,
>
    decreases gs.len(),
{
    if gs.len() == 0 {
        None
    } else if gs.last().0 == name {
        Some(gs.last().1)
    } else {
        last_version(gs.drop_last(), name)
    }
}

/// After the generators are collected every tool that produced an index is
/// recorded, with the version of the last such index, be it unknown. Tools
/// are in order, each once, and nothing else changes.
pub proof fn law_collected(v: Seq<GeneratorView>, gs: Seq<GeneratorView>, name: Seq<char>)
    requires
        is_sorted(v),
    ensures
        is_sorted(with_all(v, gs)),
        recorded(with_all(v, gs), name) == (match last_version(gs, name) {
            Some(version) => Some(version),
            None => recorded(v, name),
        }),
    decreases gs.len(),
{
    if gs.len() > 0 {
        law_collected(v, gs.drop_last(), name);
        lemma_with_generator_sorted(with_all(v, gs.drop_last()), gs.last());
        law_recorded(with_all(v, gs.drop_last()), gs.last(), name);
    }
}

/// A tool that is recorded stands somewhere in the list.
proof fn lemma_recorded_at(v: Seq<GeneratorView>, name: Seq<char>)
    ensures
        recorded(v, name) is Some <==> exists|i: int| 0 <= i < v.len() && (#[trigger] v[i]).0 == name,
    decreases v.len(),
{
    if v.len() > 0 {
        let tail = v.skip(1);
        lemma_recorded_at(tail, name);
        if v[0].0 != name {
            if recorded(tail, name) is Some {
                let i = choose|i: int| 0 <= i < tail.len() && (#[trigger] tail[i]).0 == name;
                assert(v[i + 1].0 == name);
            } else {
                assert forall|i: int| 0 <= i < v.len() implies (#[trigger] v[i]).0 != name by {
                    if i > 0 {
                        assert(tail[i - 1] == v[i]);
                    }
                }
            }
        }
    }
}

/// Lists of tools in order that record the same versions of the same tools
/// are the same: two manifests of one set of tools do not differ in their
/// order.
pub proof fn law_order_is_stable(a: Seq<GeneratorView>, b: Seq<GeneratorView>)
    requires
        is_sorted(a),
        is_sorted(b),
        forall|name: Seq<char>| #[trigger] recorded(a, name) == recorded(b, name),
    ensures
        a == b,
    decreases a.len(),
{
    if a.len() == 0 {
        if b.len() > 0 {
            assert(recorded(a, b[0].0) == recorded(b, b[0].0));
        }
        assert(a =~= b);
    } else {
        assert(recorded(a, a[0].0) == recorded(b, a[0].0));
        lemma_recorded_at(b, a[0].0);
        let k = choose|k: int| 0 <= k < b.len() && (#[trigger] b[k]).0 == a[0].0;
        assert(recorded(a, b[0].0) == recorded(b, b[0].0));
        lemma_recorded_at(a, b[0].0);
        let j = choose|j: int| 0 <= j < a.len() && (#[trigger] a[j]).0 == b[0].0;
        text::lemma_precedes_total(a[0].0, b[0].0);
        assert(a[0].0 == b[0].0);
        let ta = a.skip(1);
        let tb = b.skip(1);
        assert forall|i: int, j: int| 0 <= i < j < ta.len() implies text::precedes(
            (#[trigger] ta[i]).0,
            (#[trigger] ta[j]).0,
        ) by {
            assert(ta[i] == a[i + 1] && ta[j] == a[j + 1]);
        }
        assert forall|i: int, j: int| 0 <= i < j < tb.len() implies text::precedes(
            (#[trigger] tb[i]).0,
            (#[trigger] tb[j]).0,
        ) by {
            assert(tb[i] == b[i + 1] && tb[j] == b[j + 1]);
        }
        assert forall|name: Seq<char>| #[trigger] recorded(ta, name) == recorded(tb, name) by {
            assert(recorded(a, name) == recorded(b, name));
            if name == a[0].0 {
                text::lemma_precedes_total(name, name);
                lemma_recorded_at(ta, name);
                lemma_recorded_at(tb, name);
                assert forall|i: int| 0 <= i < ta.len() implies (#[trigger] ta[i]).0 != name by {
                    assert(ta[i] == a[i + 1]);
                    assert(text::precedes(a[0].0, a[i + 1].0));
                }
                assert forall|i: int| 0 <= i < tb.len() implies (#[trigger] tb[i]).0 != name by {
                    assert(tb[i] == b[i + 1]);
                    assert(text::precedes(b[0].0, b[i + 1].0));
                }
            }
        }
        law_order_is_stable(ta, tb);
        assert(a =~= seq![a[0]] + ta);
        assert(b =~= seq![b[0]] + tb);
    }
}

} // verus!
