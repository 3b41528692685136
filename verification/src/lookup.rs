//! Looking up the symbols that an index defines by the names they have in
//! source code.

use crate::index;
use crate::index::{Index, SourceDocument};
use crate::symbol;
use crate::text;
use vstd::prelude::*;

verus! {

/// The symbols that occurrences define, but those local to the document.
pub open spec fn defined_symbols(v: Seq<index::OccurrenceView>) -> Seq<Seq<char>>
    decreases v.len(),
{
    if v.len() == 0 {
        Seq::empty()
    } else {
        let before = defined_symbols(v.drop_last());
        if index::is_definition(v.last().symbol_roles) && !symbol::is_local(v.last().symbol) {
            before.push(v.last().symbol)
        } else {
            before
        }
    }
}

/// The symbols that are described, but those local to the document.
pub open spec fn described_symbols(v: Seq<index::SymbolView>) -> Seq<Seq<char>>
    decreases v.len(),
{
    if v.len() == 0 {
        Seq::empty()
    } else {
        let before = described_symbols(v.drop_last());
        if !symbol::is_local(v.last().symbol) {
            before.push(v.last().symbol)
        } else {
            before
        }
    }
}

/// The symbols that documents define or describe, in order.
pub open spec fn global_symbols(v: Seq<index::DocumentView>) -> Seq<Seq<char>>
    decreases v.len(),
{
    if v.len() == 0 {
        Seq::empty()
    } else {
        global_symbols(v.drop_last()) + defined_symbols(v.last().occurrences) + described_symbols(
            v.last().symbols,
        )
    }
}

/// A symbol that is described is among the described symbols of its document.
proof fn lemma_described_in(v: Seq<index::SymbolView>, i: int)
    requires
        0 <= i < v.len(),
        !symbol::is_local(v[i].symbol),
    ensures
        described_symbols(v).contains(v[i].symbol),
    decreases v.len(),
{
    let before = described_symbols(v.drop_last());
    if i < v.len() - 1 {
        lemma_described_in(v.drop_last(), i);
        assert(described_symbols(v)[before.index_of(v[i].symbol)] == v[i].symbol);
    } else {
        assert(described_symbols(v)[before.len() as int] == v[i].symbol);
    }
}

/// A symbol that a document describes is among the global symbols, unless it
/// is local.
pub proof fn lemma_described(v: Seq<index::DocumentView>, d: int, i: int)
    requires
        0 <= d < v.len(),
        0 <= i < v[d].symbols.len(),
        !symbol::is_local(v[d].symbols[i].symbol),
    ensures
        global_symbols(v).contains(v[d].symbols[i].symbol),
    decreases v.len(),
{
    let s = v[d].symbols[i].symbol;
    let before = global_symbols(v.drop_last());
    let defined = defined_symbols(v.last().occurrences);
    let described = described_symbols(v.last().symbols);
    let all = global_symbols(v);
    if d < v.len() - 1 {
        lemma_described(v.drop_last(), d, i);
        assert(all[before.index_of(s)] == s);
    } else {
        lemma_described_in(v.last().symbols, i);
        assert(all[before.len() + defined.len() + described.index_of(s)] == s);
    }
}

/// The characters of each borrowed string of a list.
pub open spec fn refs_view(v: Seq<&String>) -> Seq<Seq<char>> {
    v.map_values(|s: &String| s@)
}

/// Appends the symbols that a document defines or describes.
fn collect_document<'a>(d: &'a SourceDocument, out: &mut Vec<&'a String>)
    ensures
        refs_view(final(out)@) == refs_view(old(out)@) + defined_symbols(d@.occurrences)
            + described_symbols(d@.symbols),
{
    let ghost before = refs_view(out@);
    let ghost occurrences = d@.occurrences;
    let ghost symbols = d@.symbols;
    let mut i: usize = 0;
    assert(before + defined_symbols(occurrences.take(0)) =~= before);
    while i < d.occurrences.len()
        invariant
            0 <= i <= d.occurrences@.len(),
            occurrences == index::occurrence_views(d.occurrences@),
            refs_view(out@) =~= before + defined_symbols(occurrences.take(i as int)),
        decreases d.occurrences.len() - i,
    {
        let o = &d.occurrences[i];
        let ghost had = refs_view(out@);
        assert(occurrences[i as int] == o@);
        assert(occurrences.take(i + 1).drop_last() =~= occurrences.take(i as int));
        if index::defines(o.symbol_roles) && !symbol::local_symbol(o.symbol.as_str()) {
            out.push(&o.symbol);
            assert(refs_view(out@) =~= had.push(o.symbol@));
        }
        i += 1;
    }
    assert(occurrences.take(i as int) =~= occurrences);
    let ghost defined = refs_view(out@);
    let mut k: usize = 0;
    assert(defined + described_symbols(symbols.take(0)) =~= defined);
    while k < d.symbols.len()
        invariant
            0 <= k <= d.symbols@.len(),
            symbols == index::symbol_views(d.symbols@),
            refs_view(out@) =~= defined + described_symbols(symbols.take(k as int)),
        decreases d.symbols.len() - k,
    {
        let s = &d.symbols[k];
        let ghost had = refs_view(out@);
        assert(symbols[k as int] == s@);
        assert(symbols.take(k + 1).drop_last() =~= symbols.take(k as int));
        if !symbol::local_symbol(s.symbol.as_str()) {
            out.push(&s.symbol);
            assert(refs_view(out@) =~= had.push(s.symbol@));
        }
        k += 1;
    }
    assert(symbols.take(k as int) =~= symbols);
}

/// The symbols that an index defines or describes, in order.
pub fn collect_symbols<'a>(index: &'a Index) -> (r: Vec<&'a String>)
    ensures
        refs_view(r@) == global_symbols(index@.documents),
{
    let ghost docs = index@.documents;
    let mut r: Vec<&'a String> = Vec::new();
    let mut i: usize = 0;
    assert(refs_view(r@) =~= global_symbols(docs.take(0)));
    while i < index.documents.len()
        invariant
            0 <= i <= index.documents@.len(),
            docs == index::document_views(index.documents@),
            refs_view(r@) =~= global_symbols(docs.take(i as int)),
        decreases index.documents.len() - i,
    {
        assert(docs[i as int] == index.documents@[i as int]@);
        assert(docs.take(i + 1).drop_last() =~= docs.take(i as int));
        collect_document(&index.documents[i], &mut r);
        i += 1;
    }
    assert(docs.take(i as int) =~= docs);
    r
}

/// Symbols under the names by which they are looked up.
#[derive(Debug)]
pub struct SymbolTable {
    entries: Vec<(String, String)>,
}

impl View for SymbolTable {
    type V = Seq<(Seq<char>, Seq<char>)>;

    closed spec fn view(&self) -> Seq<(Seq<char>, Seq<char>)> {
        self.entries@.map_values(|e: (String, String)| (e.0@, e.1@))
    }
}

/// The first, in the order of texts, of the symbols recorded under `key`.
pub open spec fn least_symbol(entries: Seq<(Seq<char>, Seq<char>)>, key: Seq<char>) -> Option<
    Seq<char>,
>
    decreases entries.len(),
{
    if entries.len() == 0 {
        None
    } else {
        let before = least_symbol(entries.drop_last(), key);
        let (name, symbol) = entries.last();
        if name != key {
            before
        } else {
            match before {
                Some(b) => if text::precedes(symbol, b) {
                    Some(symbol)
                } else {
                    before
                },
                None => Some(symbol),
            }
        }
    }
}

/// A lookup succeeds exactly for the names under which something is recorded.
/// What it finds is recorded under the name, and nothing recorded under it
/// comes before.
pub proof fn law_least_symbol(entries: Seq<(Seq<char>, Seq<char>)>, key: Seq<char>)
    ensures
        least_symbol(entries, key) is Some <==> exists|i: int|
            0 <= i < entries.len() && (#[trigger] entries[i]).0 == key,
        least_symbol(entries, key) matches Some(s) ==> {
            &&& entries.contains((key, s))
            &&& forall|i: int|
                0 <= i < entries.len() && (#[trigger] entries[i]).0 == key ==> !text::precedes(
                    entries[i].1,
                    s,
                )
        },
    decreases entries.len(),
{
    if entries.len() > 0 {
        let front = entries.drop_last();
        let (name, symbol) = entries.last();
        law_least_symbol(front, key);
        assert forall|i: int| 0 <= i < front.len() implies #[trigger] front[i] == entries[i] by {}
        if name == key {
            assert(entries[entries.len() - 1].0 == key);
            text::lemma_precedes_total(symbol, symbol);
            match least_symbol(front, key) {
                Some(b) => {
                    let at = front.index_of((key, b));
                    assert(entries[at] == (key, b));
                    if text::precedes(symbol, b) {
                        assert(entries[entries.len() - 1] == (key, symbol));
                        assert forall|i: int|
                            0 <= i < entries.len() && (#[trigger] entries[i]).0
                                == key implies !text::precedes(entries[i].1, symbol) by {
                            if i < front.len() {
                                assert(front[i].0 == key);
                                if text::precedes(entries[i].1, symbol) {
                                    text::lemma_precedes_transitive(entries[i].1, symbol, b);
                                }
                            }
                        }
                    } else {
                        assert forall|i: int|
                            0 <= i < entries.len() && (#[trigger] entries[i]).0
                                == key implies !text::precedes(entries[i].1, b) by {
                            if i < front.len() {
                                assert(front[i].0 == key);
                            }
                        }
                    }
                },
                None => {
                    assert(entries[entries.len() - 1] == (key, symbol));
                    assert forall|i: int|
                        0 <= i < entries.len() && (#[trigger] entries[i]).0
                            == key implies !text::precedes(entries[i].1, symbol) by {
                        if i < front.len() {
                            assert(front[i].0 == key);
                        }
                    }
                },
            }
        } else if least_symbol(front, key) is Some {
            let b = least_symbol(front, key).unwrap();
            let at = front.index_of((key, b));
            assert(entries[at] == (key, b));
            assert forall|i: int|
                0 <= i < entries.len() && (#[trigger] entries[i]).0
                    == key implies !text::precedes(entries[i].1, b) by {
                assert(front[i].0 == key);
            }
        } else {
            assert forall|i: int| 0 <= i < entries.len() implies (#[trigger] entries[i]).0 != key by {
                if i < front.len() {
                    assert(front[i] == entries[i]);
                }
            }
        }
    }
}

impl SymbolTable {
    /// A table with nothing in it.
    pub fn new() -> (r: Self)
        ensures
            r@ == Seq::<(Seq<char>, Seq<char>)>::empty(),
    {
        let r = SymbolTable { entries: Vec::new() };
        assert(r@ =~= Seq::empty());
        r
    }

    /// Records `symbol` under `key`.
    pub fn record(&mut self, key: String, symbol: &str)
        ensures
            final(self)@ == old(self)@.push((key@, symbol@)),
    {
        let ghost before = self@;
        self.entries.push((key, symbol.to_string()));
        assert(self@ =~= before.push((key@, symbol@)));
    }

    /// The first of the symbols recorded under `key`.
    pub fn find(&self, key: &str) -> (r: Option<&str>)
        ensures
            text::opt_str_view(r) == least_symbol(self@, key@),
    {
        let ghost all = self@;
        let mut found: Option<&str> = None;
        let mut i: usize = 0;
        while i < self.entries.len()
            invariant
                0 <= i <= self.entries@.len(),
                all == self@,
                text::opt_str_view(found) == least_symbol(all.take(i as int), key@),
            decreases self.entries.len() - i,
        {
            let entry = &self.entries[i];
            assert(all[i as int] == (entry.0@, entry.1@));
            assert(all.take(i + 1).drop_last() =~= all.take(i as int));
            if text::str_eq(entry.0.as_str(), key) {
                let better = match found {
                    Some(b) => text::comes_before(entry.1.as_str(), b),
                    None => true,
                };
                if better {
                    found = Some(entry.1.as_str());
                }
            }
            i += 1;
        }
        assert(all.take(i as int) =~= all);
        found
    }
}

/// Each symbol under each of its keys, in order.
pub open spec fn keyed(
    symbols: Seq<Seq<char>>,
    keys: spec_fn(Seq<char>) -> Seq<Seq<char>>,
) -> Seq<(Seq<char>, Seq<char>)>
    decreases symbols.len(),
{
    if symbols.len() == 0 {
        Seq::empty()
    } else {
        let s = symbols.last();
        keyed(symbols.drop_last(), keys) + keys(s).map_values(|k: Seq<char>| (k, s))
    }
}

/// At most one key, as a list.
pub open spec fn opt_key(key: Option<Seq<char>>) -> Seq<Seq<char>> {
    match key {
        Some(k) => seq![k],
        None => Seq::empty(),
    }
}

/// Looks up C symbols by their identifier.
///
/// scip-clang encodes C symbols as `cxx . . $ <ident>(<hash>).` for functions
/// and `cxx . . $ <ident>.` for globals, where `<hash>` disambiguates
/// definitions across translation units. The whole string is kept, so that
/// references to it match exactly.
#[derive(Debug)]
pub struct CSymbolLookup {
    table: SymbolTable,
}

impl View for CSymbolLookup {
    type V = Seq<(Seq<char>, Seq<char>)>;

    closed spec fn view(&self) -> Seq<(Seq<char>, Seq<char>)> {
        self.table@
    }
}

/// The symbols of documents under their C identifiers.
pub open spec fn c_entries(docs: Seq<index::DocumentView>) -> Seq<(Seq<char>, Seq<char>)> {
    keyed(global_symbols(docs), |s: Seq<char>| opt_key(symbol::c_name_of(s)))
}

/// One more symbol, under the key that it has, if any.
pub proof fn lemma_keyed_opt(
    symbols: Seq<Seq<char>>,
    keys: spec_fn(Seq<char>) -> Seq<Seq<char>>,
    i: int,
    key: Option<Seq<char>>,
)
    requires
        0 <= i < symbols.len(),
        keys(symbols[i]) == opt_key(key),
    ensures
        keyed(symbols.take(i + 1), keys) == (match key {
            Some(k) => keyed(symbols.take(i), keys).push((k, symbols[i])),
            None => keyed(symbols.take(i), keys),
        }),
{
    let s = symbols[i];
    assert(symbols.take(i + 1).drop_last() =~= symbols.take(i));
    let pair = |k: Seq<char>| (k, s);
    match key {
        Some(k) => {
            assert(opt_key(key).map_values(pair) =~= seq![(k, s)]);
            assert(keyed(symbols.take(i + 1), keys) =~= keyed(symbols.take(i), keys).push((k, s)));
        },
        None => {
            assert(opt_key(key).map_values(pair) =~= Seq::empty());
            assert(keyed(symbols.take(i + 1), keys) =~= keyed(symbols.take(i), keys));
        },
    }
}

/// Every recorded pair is a symbol with one of its keys, and every symbol is
/// recorded under each of its keys.
proof fn lemma_keyed(
    symbols: Seq<Seq<char>>,
    keys: spec_fn(Seq<char>) -> Seq<Seq<char>>,
    key: Seq<char>,
    s: Seq<char>,
)
    ensures
        keyed(symbols, keys).contains((key, s)) <==> symbols.contains(s) && keys(s).contains(key),
    decreases symbols.len(),
{
    if symbols.len() > 0 {
        let front = symbols.drop_last();
        let last = symbols.last();
        let pair = |k: Seq<char>| (k, last);
        let before = keyed(front, keys);
        let added = keys(last).map_values(pair);
        let all = keyed(symbols, keys);
        assert(all == before + added);
        lemma_keyed(front, keys, key, s);
        if all.contains((key, s)) {
            let i = all.index_of((key, s));
            if i < before.len() {
                assert(before[i] == (key, s));
                assert(symbols[front.index_of(s)] == s);
            } else {
                assert(added[i - before.len()] == (key, s));
                assert(keys(last)[i - before.len()] == key);
                assert(symbols[symbols.len() - 1] == s);
            }
        }
        if symbols.contains(s) && keys(s).contains(key) {
            if front.contains(s) {
                assert(all[before.index_of((key, s))] == (key, s));
            } else {
                let i = symbols.index_of(s);
                if i < front.len() {
                    assert(front[i] == s);
                }
                let k = keys(s).index_of(key);
                assert(added[k] == (key, s));
                assert(all[before.len() + k] == (key, s));
            }
        }
    }
}

/// A lookup finds one of the symbols that have the key, if there is any.
pub proof fn law_lookup(
    symbols: Seq<Seq<char>>,
    keys: spec_fn(Seq<char>) -> Seq<Seq<char>>,
    key: Seq<char>,
)
    ensures
        least_symbol(keyed(symbols, keys), key) matches Some(s) ==> {
            &&& symbols.contains(s)
            &&& keys(s).contains(key)
        },
        least_symbol(keyed(symbols, keys), key) is None ==> forall|s: Seq<char>| #[trigger]
            symbols.contains(s) ==> !keys(s).contains(key),
{
    let entries = keyed(symbols, keys);
    law_least_symbol(entries, key);
    if least_symbol(entries, key) is Some {
        lemma_keyed(symbols, keys, key, least_symbol(entries, key).unwrap());
    } else {
        assert forall|s: Seq<char>| #[trigger] symbols.contains(s) implies !keys(s).contains(
            key,
        ) by {
            lemma_keyed(symbols, keys, key, s);
            if keys(s).contains(key) {
                assert(entries[entries.index_of((key, s))].0 == key);
            }
        }
    }
}

/// What is found for a C identifier is a symbol of the index with that
/// identifier. Nothing is found only if there is none.
pub proof fn law_c_lookup(docs: Seq<index::DocumentView>, ident: Seq<char>)
    ensures
        least_symbol(c_entries(docs), ident) matches Some(s) ==> {
            &&& global_symbols(docs).contains(s)
            &&& symbol::c_name_of(s) == Some(ident)
        },
        least_symbol(c_entries(docs), ident) is None ==> forall|s: Seq<char>| #[trigger]
            global_symbols(docs).contains(s) ==> symbol::c_name_of(s) != Some(ident),
{
    let keys = |s: Seq<char>| opt_key(symbol::c_name_of(s));
    law_lookup(global_symbols(docs), keys, ident);
    assert forall|s: Seq<char>| #[trigger] global_symbols(docs).contains(
        s,
    ) && symbol::c_name_of(s) == Some(ident) implies keys(s).contains(ident) by {
        assert(keys(s)[0] == ident);
    }
}

impl CSymbolLookup {
    /// The symbols of an index under their C identifiers.
    pub fn from_index(index: &Index) -> (r: Self)
        ensures
            r@ == c_entries(index@.documents),
    {
        let symbols = collect_symbols(index);
        let ghost all = refs_view(symbols@);
        let ghost keys = |s: Seq<char>| opt_key(symbol::c_name_of(s));
        let mut table = SymbolTable::new();
        let mut i: usize = 0;
        assert(table@ =~= keyed(all.take(0), keys));
        while i < symbols.len()
            invariant
                0 <= i <= symbols@.len(),
                all == refs_view(symbols@),
                keys == (|s: Seq<char>| opt_key(symbol::c_name_of(s))),
                table@ == keyed(all.take(i as int), keys),
            decreases symbols.len() - i,
        {
            let s = symbols[i];
            proof {
                assert(all[i as int] == s@);
                lemma_keyed_opt(all, keys, i as int, symbol::c_name_of(s@));
            }
            if let Some(name) = symbol::c_symbol_name(s.as_str()) {
                table.record(name, s.as_str());
            }
            i += 1;
        }
        assert(all.take(i as int) =~= all);
        CSymbolLookup { table }
    }

    /// The symbol of the C identifier `ident`.
    pub fn find(&self, ident: &str) -> (r: Option<&str>)
        ensures
            text::opt_str_view(r) == least_symbol(self@, ident@),
    {
        self.table.find(ident)
    }
}

} // verus!
