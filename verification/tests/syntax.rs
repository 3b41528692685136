use ultrascip::syntax::{
    build_tree, child_of_kind, last_identifier, literal_value, node_kind, parse_source, slice,
    walk, NodeKind, RawNode, SyntaxNode,
};

fn first<'a>(tree: &'a SyntaxNode, kind: NodeKind) -> &'a SyntaxNode {
    walk(tree)
        .into_iter()
        .find(|v| v.node.kind == kind)
        .unwrap()
        .node
}

fn raw(depth: u32, kind: &str, start_byte: usize, end_byte: usize) -> RawNode {
    RawNode {
        depth,
        kind: kind.to_string(),
        field: None,
        named: true,
        start_byte,
        end_byte,
        row: 0,
        column: start_byte,
    }
}

#[test]
fn parses_c() {
    let text = "int x;\n  call(a, \"lit\");\n";
    let src = text.as_bytes();
    let tree = parse_source(text, false).unwrap().unwrap();
    let call = first(&tree, NodeKind::CallExpression);
    assert_eq!(slice(src, call), "call(a, \"lit\")");
    let name = child_of_kind(call, NodeKind::Identifier).unwrap();
    assert_eq!(slice(src, name), "call");
    assert_eq!((name.row, name.column), (1, 2));
    let literal = first(&tree, NodeKind::StringLiteral);
    assert_eq!(
        literal_value(src, literal),
        ("lit".to_string(), (1, 11, 14))
    );
    assert_eq!(last_identifier(src, call), Some("a".to_string()));
    assert!(child_of_kind(name, NodeKind::Identifier).is_none());
}

#[test]
fn last_identifier_goes_by_place() {
    for (text, last) in [
        ("int x = call(g(x), y);", "y"),
        ("int x = call(y, g(x));", "x"),
        ("int x = (void *)f;", "f"),
        ("int x = WRAP(f);", "f"),
    ] {
        let tree = parse_source(text, false).unwrap().unwrap();
        let init = first(&tree, NodeKind::InitDeclarator);
        assert_eq!(last_identifier(text.as_bytes(), init), Some(last.to_string()));
    }
    let tree = parse_source("int x = 1;", false).unwrap().unwrap();
    let equals = first(&tree, NodeKind::Equals);
    assert_eq!(last_identifier(b"int x = 1;", equals), None);
}

#[test]
fn grammars_differ() {
    let text = "void f() { A::b(1); }";
    let kinds = |cpp: bool| {
        let tree = parse_source(text, cpp).unwrap().unwrap();
        walk(&tree)
            .iter()
            .any(|v| v.node.kind == NodeKind::QualifiedIdentifier)
    };
    assert!(kinds(true));
    assert!(!kinds(false));
}

#[test]
fn kinds_by_name() {
    assert_eq!(node_kind("call_expression"), NodeKind::CallExpression);
    assert_eq!(node_kind("("), NodeKind::OpenParen);
    assert_eq!(node_kind("ERROR"), NodeKind::Error);
    assert_eq!(node_kind("translation_unit"), NodeKind::Other);
}

#[test]
fn trees_come_from_preorder() {
    let nodes = vec![
        raw(0, "translation_unit", 0, 9),
        raw(1, "declaration", 0, 4),
        raw(2, "identifier", 0, 1),
        raw(1, "comment", 5, 9),
    ];
    let tree = build_tree(&nodes, 9).unwrap();
    assert_eq!(tree.children.len(), 2);
    assert_eq!(tree.children[0].kind, NodeKind::Declaration);
    assert_eq!(tree.children[0].children.len(), 1);
    assert_eq!(tree.children[1].kind, NodeKind::Comment);
    assert_eq!(walk(&tree).len(), 4);
}

#[test]
fn other_records_make_no_tree() {
    assert!(build_tree(&vec![], 9).is_none());
    assert!(build_tree(&vec![raw(1, "comment", 0, 1)], 9).is_none());
    let jump = vec![raw(0, "translation_unit", 0, 9), raw(2, "comment", 0, 1)];
    assert!(build_tree(&jump, 9).is_none());
    let two = vec![raw(0, "comment", 0, 1), raw(0, "comment", 1, 2)];
    assert!(build_tree(&two, 9).is_none());
    let outside = vec![raw(0, "translation_unit", 0, 10)];
    assert!(build_tree(&outside, 9).is_none());
}

#[test]
fn slices_of_broken_utf8_are_empty() {
    let text = "\u{e9}";
    let tree = build_tree(&vec![raw(0, "comment", 0, 1)], 2).unwrap();
    assert_eq!(slice(text.as_bytes(), &tree), "");
}
