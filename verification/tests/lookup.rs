use ultrascip::index::{Index, Occurrence, SourceDocument, SymbolInformation};
use ultrascip::lookup::{collect_symbols, CSymbolLookup, SymbolTable};

fn occurrence(symbol: &str, symbol_roles: i32) -> Occurrence {
    Occurrence {
        symbol: symbol.to_string(),
        symbol_roles,
        range: vec![],
    }
}

fn described(symbol: &str) -> SymbolInformation {
    let mut si = SymbolInformation::new();
    si.symbol = symbol.to_string();
    si
}

fn sample() -> Index {
    let mut doc = SourceDocument::new();
    doc.occurrences.push(occurrence("cxx . . $ f(b2).", 1));
    doc.occurrences.push(occurrence("cxx . . $ used(00).", 8));
    doc.occurrences.push(occurrence("local 1", 1));
    doc.symbols.push(described("cxx . . $ f(a1)."));
    doc.symbols.push(described("local 2"));
    doc.symbols.push(described("cxx . . $ g."));
    let mut index = Index::new();
    index.documents.push(doc);
    index
}

#[test]
fn definitions_and_descriptions_are_collected() {
    let index = sample();
    assert_eq!(
        collect_symbols(&index),
        vec!["cxx . . $ f(b2).", "cxx . . $ f(a1).", "cxx . . $ g."]
    );
}

#[test]
fn the_first_symbol_in_order_is_found() {
    let lookup = CSymbolLookup::from_index(&sample());
    assert_eq!(lookup.find("f"), Some("cxx . . $ f(a1)."));
    assert_eq!(lookup.find("g"), Some("cxx . . $ g."));
    assert_eq!(lookup.find("used"), None);
    assert_eq!(lookup.find(""), None);
}

#[test]
fn table_keeps_the_least_symbol_of_a_key() {
    let mut table = SymbolTable::new();
    assert_eq!(table.find("k"), None);
    table.record("k".to_string(), "m");
    table.record("k".to_string(), "b");
    table.record("k".to_string(), "c");
    table.record("l".to_string(), "a");
    assert_eq!(table.find("k"), Some("b"));
    assert_eq!(table.find("l"), Some("a"));
}
