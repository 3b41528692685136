//! Shapes of C and C++ syntax, and what the readers in [`syntax`] make of
//! them.
//!
//! What a scanner finds is said of shapes: which node comes first of its kind,
//! and what a node reads in the source.

use crate::syntax;
use crate::syntax::{
    NodeKind, NodeView, Parsed, RawNodeView, SyntaxError, SyntaxNode, VisitView,
};
use crate::text;
use vstd::prelude::*;
use vstd::utf8::*;

verus! {

/// Whether a node reads `t` in the source.
pub open spec fn reads(src: Seq<u8>, node: NodeView, t: Seq<char>) -> bool {
    src.subrange(node.start_byte as int, node.end_byte as int) == encode_utf8(t)
}

/// Whether a node is a string literal with the contents `n`.
pub open spec fn quotes(src: Seq<u8>, node: NodeView, n: Seq<char>) -> bool {
    &&& node.kind == NodeKind::StringLiteral
    &&& reads(src, node, seq!['"'] + n + seq!['"'])
    &&& n.len() > 0 ==> n[0] != '"' && n.last() != '"'
}

/// Whether a node is an identifier that reads `t`.
pub open spec fn names(src: Seq<u8>, node: NodeView, t: Seq<char>) -> bool {
    node.kind == NodeKind::Identifier && reads(src, node, t)
}

/// Whether the node at `i` is the first of its kind.
pub open spec fn is_first(nodes: Seq<NodeView>, i: int, kind: NodeKind) -> bool {
    &&& 0 <= i < nodes.len()
    &&& nodes[i].kind == kind
    &&& forall|j: int| 0 <= j < i ==> (#[trigger] nodes[j]).kind != kind
}

/// Whether the node at `i` is the last of its kind.
pub open spec fn is_last(nodes: Seq<NodeView>, i: int, kind: NodeKind) -> bool {
    &&& 0 <= i < nodes.len()
    &&& nodes[i].kind == kind
    &&& forall|j: int| i < j < nodes.len() ==> (#[trigger] nodes[j]).kind != kind
}

/// Whether no node is of a kind.
pub open spec fn has_none(nodes: Seq<NodeView>, kind: NodeKind) -> bool {
    forall|j: int| 0 <= j < nodes.len() ==> (#[trigger] nodes[j]).kind != kind
}

/// The text of a node is what it reads in the source.
pub proof fn law_text_is_read(src: Seq<u8>, node: NodeView, t: Seq<char>)
    requires
        reads(src, node, t),
    ensures
        syntax::node_text(src, node) == t,
{
    encode_utf8_valid_utf8(t);
    encode_utf8_decode_utf8(t);
}

/// The contents of a string literal are what stands between its quotes, and
/// their range starts behind the first quote and is as long as they are.
pub proof fn law_literal_is_quoted(src: Seq<u8>, node: NodeView, n: Seq<char>)
    requires
        quotes(src, node, n),
    ensures
        syntax::literal(src, node) == n,
        syntax::literal_span(src, node) == (
            node.row as u32,
            (node.column + 1) as u32,
            (node.column + 1 + encode_utf8(n).len()) as u32,
        ),
{
    let t = seq!['"'] + n + seq!['"'];
    law_text_is_read(src, node, t);
    reveal_strlit("\"");
    let set = "\""@;
    assert(set[0] == '"');
    assert(set.contains('"'));
    assert(forall|c: char| set.contains(c) ==> c == '"');
    assert(t.skip(1) =~= n + seq!['"']);
    let back = n + seq!['"'];
    reveal_with_fuel(text::trimmed_start_of, 3);
    reveal_with_fuel(text::trimmed_end_of, 3);
    if n.len() == 0 {
        assert(back.skip(1) =~= Seq::<char>::empty());
        assert(n =~= Seq::<char>::empty());
    } else {
        assert(back[0] == n[0]);
        assert(back.drop_last() =~= n);
    }
}

/// A node's child of a kind is the first of its children of that kind.
pub proof fn law_child(node: NodeView, i: int, kind: NodeKind)
    ensures
        is_first(node.children, i, kind) ==> syntax::child(node, kind) == Some(node.children[i]),
        has_none(node.children, kind) ==> syntax::child(node, kind) is None,
{
    law_first_child(node.children, i, kind);
}

/// The first child of a kind is found at the first place where one stands, and
/// only where one stands.
pub proof fn law_first_child(nodes: Seq<NodeView>, i: int, kind: NodeKind)
    ensures
        is_first(nodes, i, kind) ==> syntax::first_of_kind(nodes, kind) == Some(nodes[i]),
        has_none(nodes, kind) ==> syntax::first_of_kind(nodes, kind) is None,
    decreases nodes.len(),
{
    if nodes.len() > 0 {
        let rest = nodes.skip(1);
        law_first_child(rest, i - 1, kind);
        if is_first(nodes, i, kind) && i > 0 {
            assert(nodes[0].kind != kind);
            assert forall|j: int| 0 <= j < i - 1 implies (#[trigger] rest[j]).kind != kind by {
                assert(rest[j] == nodes[j + 1]);
            }
        }
        if has_none(nodes, kind) {
            assert(nodes[0].kind != kind);
            assert forall|j: int| 0 <= j < rest.len() implies (#[trigger] rest[j]).kind != kind by {
                assert(rest[j] == nodes[j + 1]);
            }
        }
    }
}

/// The arguments of a call are the first child that the parser marks as such.
pub proof fn law_first_arguments(nodes: Seq<NodeView>, i: int)
    requires
        0 <= i < nodes.len(),
        nodes[i].is_arguments,
        forall|j: int| 0 <= j < i ==> !(#[trigger] nodes[j]).is_arguments,
    ensures
        syntax::first_arguments(nodes) == Some(nodes[i]),
    decreases nodes.len(),
{
    if i > 0 {
        let rest = nodes.skip(1);
        assert(!nodes[0].is_arguments);
        assert forall|j: int| 0 <= j < i - 1 implies !(#[trigger] rest[j]).is_arguments by {
            assert(rest[j] == nodes[j + 1]);
        }
        law_first_arguments(rest, i - 1);
    }
}

/// A tree is visited as the parser hands out its nodes: the same nodes, each
/// once, in the same order.
pub proof fn law_visits_are_the_parsers(node: NodeView, parent: Option<NodeKind>, depth: int)
    ensures
        ({
            let (vs, flat) = (syntax::visits(node, parent), syntax::preorder(node, depth));
            &&& vs.len() == flat.len()
            &&& forall|k: int|
                0 <= k < vs.len() ==> syntax::head_of((#[trigger] vs[k]).node, flat[k].depth)
                    == flat[k]
        }),
    decreases node, 1int,
{
    lemma_visits_all(node.children, node.kind, depth + 1);
}

/// The same of siblings.
proof fn lemma_visits_all(nodes: Seq<NodeView>, parent: NodeKind, depth: int)
    ensures
        ({
            let (vs, flat) = (syntax::visits_all(nodes, parent), syntax::preorder_all(nodes, depth));
            &&& vs.len() == flat.len()
            &&& forall|k: int|
                0 <= k < vs.len() ==> syntax::head_of((#[trigger] vs[k]).node, flat[k].depth)
                    == flat[k]
        }),
    decreases nodes, 0int,
{
    if nodes.len() > 0 {
        assert(decreases_to!(nodes => nodes.drop_last()));
        assert(decreases_to!(nodes => nodes[nodes.len() - 1]));
        lemma_visits_all(nodes.drop_last(), parent, depth);
        law_visits_are_the_parsers(nodes.last(), Some(parent), depth);
    }
}

/// What the grammar calls a kind of node.
pub open spec fn grammar_name(kind: NodeKind) -> Option<Seq<char>> {
    match kind {
        NodeKind::ArgumentList => Some("argument_list"@),
        NodeKind::ArrayDeclarator => Some("array_declarator"@),
        NodeKind::AssignmentExpression => Some("assignment_expression"@),
        NodeKind::CallExpression => Some("call_expression"@),
        NodeKind::CastExpression => Some("cast_expression"@),
        NodeKind::CloseParen => Some(")"@),
        NodeKind::Comma => Some(","@),
        NodeKind::Comment => Some("comment"@),
        NodeKind::Declaration => Some("declaration"@),
        NodeKind::Equals => Some("="@),
        NodeKind::Error => Some("ERROR"@),
        NodeKind::FieldDesignator => Some("field_designator"@),
        NodeKind::FieldExpression => Some("field_expression"@),
        NodeKind::FieldIdentifier => Some("field_identifier"@),
        NodeKind::FunctionDeclarator => Some("function_declarator"@),
        NodeKind::FunctionDefinition => Some("function_definition"@),
        NodeKind::Identifier => Some("identifier"@),
        NodeKind::InitDeclarator => Some("init_declarator"@),
        NodeKind::InitializerList => Some("initializer_list"@),
        NodeKind::InitializerPair => Some("initializer_pair"@),
        NodeKind::OpenParen => Some("("@),
        NodeKind::QualifiedIdentifier => Some("qualified_identifier"@),
        NodeKind::StringLiteral => Some("string_literal"@),
        NodeKind::StructSpecifier => Some("struct_specifier"@),
        NodeKind::TypeIdentifier => Some("type_identifier"@),
        NodeKind::Other => None,
    }
}

/// Each kind is told by its name in the grammar, and by no other; every other
/// name is of no kind of its own.
pub proof fn law_kinds(kind: NodeKind, name: Seq<char>)
    ensures
        kind != NodeKind::Other ==> (syntax::kind_of(name) == kind <==> grammar_name(kind) == Some(
            name,
        )),
        syntax::kind_of(name) == NodeKind::Other <==> (forall|k: NodeKind| #[trigger]
            grammar_name(k) != Some(name)),
{
    reveal_strlit("argument_list");
    reveal_strlit("array_declarator");
    reveal_strlit("assignment_expression");
    reveal_strlit("call_expression");
    reveal_strlit("cast_expression");
    reveal_strlit(")");
    reveal_strlit(",");
    reveal_strlit("comment");
    reveal_strlit("declaration");
    reveal_strlit("=");
    reveal_strlit("ERROR");
    reveal_strlit("field_designator");
    reveal_strlit("field_expression");
    reveal_strlit("field_identifier");
    reveal_strlit("function_declarator");
    reveal_strlit("function_definition");
    reveal_strlit("identifier");
    reveal_strlit("init_declarator");
    reveal_strlit("initializer_list");
    reveal_strlit("initializer_pair");
    reveal_strlit("(");
    reveal_strlit("qualified_identifier");
    reveal_strlit("string_literal");
    reveal_strlit("struct_specifier");
    reveal_strlit("type_identifier");
    assert("argument_list"@.len() == 13);
    assert("array_declarator"@.len() == 16);
    assert("assignment_expression"@.len() == 21);
    assert("call_expression"@.len() == 15);
    assert("cast_expression"@.len() == 15);
    assert(")"@.len() == 1);
    assert(","@.len() == 1);
    assert("comment"@.len() == 7);
    assert("declaration"@.len() == 11);
    assert("="@.len() == 1);
    assert("ERROR"@.len() == 5);
    assert("field_designator"@.len() == 16);
    assert("field_expression"@.len() == 16);
    assert("field_identifier"@.len() == 16);
    assert("function_declarator"@.len() == 19);
    assert("function_definition"@.len() == 19);
    assert("identifier"@.len() == 10);
    assert("init_declarator"@.len() == 15);
    assert("initializer_list"@.len() == 16);
    assert("initializer_pair"@.len() == 16);
    assert("("@.len() == 1);
    assert("qualified_identifier"@.len() == 20);
    assert("string_literal"@.len() == 14);
    assert("struct_specifier"@.len() == 16);
    assert("type_identifier"@.len() == 15);
    assert("array_declarator"@[0] == 'a' && "array_declarator"@[6] == 'd' && "array_declarator"@[12] == 'a');
    assert("field_designator"@[0] == 'f' && "field_designator"@[6] == 'd' && "field_designator"@[12] == 'a');
    assert("field_expression"@[0] == 'f' && "field_expression"@[6] == 'e' && "field_expression"@[12] == 's');
    assert("field_identifier"@[0] == 'f' && "field_identifier"@[6] == 'i' && "field_identifier"@[12] == 'f');
    assert("initializer_list"@[0] == 'i' && "initializer_list"@[6] == 'l' && "initializer_list"@[12] == 'l');
    assert("initializer_pair"@[0] == 'i' && "initializer_pair"@[6] == 'l' && "initializer_pair"@[12] == 'p');
    assert("struct_specifier"@[0] == 's' && "struct_specifier"@[6] == '_' && "struct_specifier"@[12] == 'f');
    assert("call_expression"@[2] == 'l');
    assert("cast_expression"@[2] == 's');
    assert("init_declarator"@[2] == 'i');
    assert("type_identifier"@[2] == 'p');
    assert(")"@[0] == ')');
    assert(","@[0] == ',');
    assert("="@[0] == '=');
    assert("("@[0] == '(');
    assert("function_declarator"@[11] == 'c');
    assert("function_definition"@[11] == 'f');
    let k = syntax::kind_of(name);
    if k != NodeKind::Other {
        assert(grammar_name(k) == Some(name));
    }
}

/// A node holds what the parser's record says of it, and stands for an argument
/// list where the record's field is `arguments`.
pub proof fn law_records(raw: RawNodeView)
    ensures
        ({
            let flat = syntax::flat_of(raw);
            &&& flat.depth == raw.depth
            &&& flat.kind == syntax::kind_of(raw.kind)
            &&& flat.named == raw.named
            &&& flat.is_arguments <==> raw.field == Some("arguments"@)
            &&& flat.start_byte == raw.start_byte
            &&& flat.end_byte == raw.end_byte
            &&& flat.row == raw.row
            &&& flat.column == raw.column
        }),
{
}

/// Whether a record lies in a text of `len` bytes and its line can be counted.
pub open spec fn lies_in(raw: RawNodeView, len: int) -> bool {
    &&& raw.start_byte <= raw.end_byte <= len
    &&& raw.column <= raw.start_byte
    &&& raw.row <= u32::MAX
}

/// A text is parsed into the tree of the parser's records, one node for each.
/// There is no tree where the parser gives none, where a record lies outside
/// the text, where the depths make no tree, and for a text too long to count
/// its positions; a grammar that the parser does not take is an error.
pub proof fn law_parse(text: &str, cpp: bool, k: int, r: Result<Option<SyntaxNode>, SyntaxError>)
    requires
        call_ensures(syntax::parse_source, (text, cpp), r),
    ensures
        encode_utf8(text@).len() >= u32::MAX ==> r == Ok::<_, SyntaxError>(None::<SyntaxNode>),
        encode_utf8(text@).len() < u32::MAX ==> match syntax::c_syntax(text@, cpp) {
            Parsed::BadLanguage => r is Err,
            Parsed::NoTree => r == Ok::<_, SyntaxError>(None::<SyntaxNode>),
            Parsed::Tree(raw) => {
                let len = encode_utf8(text@).len() as int;
                &&& r is Ok
                &&& 0 <= k < raw.len() && !lies_in(raw[k], len) ==> r->Ok_0 is None
                &&& raw.len() == 0 || raw[0].depth != 0 ==> r->Ok_0 is None
                &&& 1 <= k < raw.len() && (raw[k].depth == 0 || raw[k].depth > raw[k - 1].depth + 1)
                    ==> r->Ok_0 is None
                &&& r->Ok_0 matches Some(tree) ==> {
                    let flat = syntax::preorder(tree@, 0);
                    &&& flat.len() == raw.len()
                    &&& 0 <= k < raw.len() ==> flat[k] == syntax::flat_of(raw[k])
                }
                &&& raw.len() > 0 && raw[0].depth == 0 && (forall|i: int|
                    0 <= i < raw.len() ==> lies_in(#[trigger] raw[i], len)) && (forall|i: int|
                    1 <= i < raw.len() ==> 1 <= (#[trigger] raw[i]).depth <= raw[i - 1].depth + 1)
                    ==> r->Ok_0 is Some
            },
        },
{
    if let Parsed::Tree(raw) = syntax::c_syntax(text@, cpp) {
        let len = encode_utf8(text@).len() as int;
        if 0 <= k < raw.len() && syntax::is_tree(raw, len) {
            assert(syntax::in_text(syntax::flat_of(raw[k]), len));
            if k >= 1 {
                assert(syntax::follows(raw, k));
            }
        }
        if (forall|i: int| 0 <= i < raw.len() ==> lies_in(#[trigger] raw[i], len)) && (forall|i: int|
            1 <= i < raw.len() ==> 1 <= (#[trigger] raw[i]).depth <= raw[i - 1].depth + 1) {
            assert forall|i: int| 0 <= i < raw.len() implies syntax::in_text(
                syntax::flat_of(#[trigger] raw[i]),
                len,
            ) by {
                assert(lies_in(raw[i], len));
            }
            assert forall|i: int| 1 <= i < raw.len() implies #[trigger] syntax::follows(raw, i) by {
                assert(raw[i].depth >= 1);
            }
        }
    }
}

/// The visits of siblings are those of the first ones, then those of the
/// others.
pub proof fn law_siblings_in_turn(a: Seq<NodeView>, b: Seq<NodeView>, parent: NodeKind)
    ensures
        syntax::visits_all(a + b, parent) == syntax::visits_all(a, parent) + syntax::visits_all(
            b,
            parent,
        ),
    decreases b.len(),
{
    if b.len() == 0 {
        assert(a + b =~= a);
    } else {
        law_siblings_in_turn(a, b.drop_last(), parent);
        assert((a + b).drop_last() =~= a + b.drop_last());
        assert((a + b).last() == b.last());
        assert(syntax::visits_all(a + b, parent) =~= syntax::visits_all(a, parent)
            + syntax::visits_all(b, parent));
    }
}

/// The visit of a node is the node itself, with its parent's kind, and then
/// those of what is inside it.
pub proof fn law_node_then_inside(node: NodeView, parent: Option<NodeKind>)
    ensures
        syntax::visits(node, parent).len() > 0,
        syntax::visits(node, parent)[0] == (VisitView { node, parent }),
        node.children.len() == 0 ==> syntax::visits(node, parent).len() == 1,
        node.children.len() == 1 ==> syntax::visits(node, parent).skip(1) == syntax::visits(
            node.children[0],
            Some(node.kind),
        ),
{
    let vs = syntax::visits(node, parent);
    if node.children.len() == 1 {
        assert(node.children.drop_last() =~= Seq::empty());
        assert(syntax::visits_all(node.children.drop_last(), node.kind) =~= Seq::empty());
        assert(vs.skip(1) =~= syntax::visits(node.children[0], Some(node.kind)));
    }
}

/// Every child of a visited node is visited, with the node's kind as its
/// parent's.
pub proof fn law_children_are_visited(node: NodeView, parent: Option<NodeKind>, i: int)
    requires
        0 <= i < node.children.len(),
    ensures
        forall|v: VisitView| #[trigger]
            syntax::visits(node.children[i], Some(node.kind)).contains(v) ==> syntax::visits(
                node,
                parent,
            ).contains(v),
        syntax::visits(node, parent).contains(
            VisitView { node: node.children[i], parent: Some(node.kind) },
        ),
{
    let (a, b) = (node.children.take(i), node.children.skip(i));
    let one = node.children[i];
    assert(a + b =~= node.children);
    law_siblings_in_turn(a, b, node.kind);
    assert(b =~= seq![one] + b.skip(1));
    law_siblings_in_turn(seq![one], b.skip(1), node.kind);
    assert(seq![one].drop_last() =~= Seq::empty());
    assert(syntax::visits_all(seq![one].drop_last(), node.kind) =~= Seq::empty());
    let inside = syntax::visits(one, Some(node.kind));
    assert(syntax::visits_all(seq![one], node.kind) =~= inside);
    let vs = syntax::visits(node, parent);
    let front = syntax::visits_all(a, node.kind);
    assert forall|v: VisitView| #[trigger] inside.contains(v) implies vs.contains(v) by {
        let k = choose|k: int| 0 <= k < inside.len() && inside[k] == v;
        assert(vs[1 + front.len() + k] == v);
    }
    law_node_then_inside(one, Some(node.kind));
    assert(inside.contains(inside[0]));
}

/// The last identifier of an expression is the last one that is visited in it.
pub proof fn law_last_identifier(src: Seq<u8>, node: NodeView, k: int, t: Seq<char>)
    requires
        0 <= k < syntax::visits(node, None).len(),
        names(src, syntax::visits(node, None)[k].node, t),
        forall|j: int|
            k < j < syntax::visits(node, None).len() ==> (#[trigger] syntax::visits(
                node,
                None,
            )[j]).node.kind != NodeKind::Identifier,
    ensures
        syntax::last_identifier_of(src, node) == Some(t),
{
    let vs = syntax::visits(node, None);
    lemma_last_named(vs, k);
    law_text_is_read(src, vs[k].node, t);
}

/// The last identifier among visits is the one that no other follows.
proof fn lemma_last_named(vs: Seq<VisitView>, k: int)
    requires
        0 <= k < vs.len(),
        vs[k].node.kind == NodeKind::Identifier,
        forall|j: int| k < j < vs.len() ==> (#[trigger] vs[j]).node.kind != NodeKind::Identifier,
    ensures
        syntax::last_named(vs) == Some(vs[k].node),
    decreases vs.len(),
{
    if k < vs.len() - 1 {
        assert(vs[vs.len() - 1].node.kind != NodeKind::Identifier);
        let front = vs.drop_last();
        assert forall|j: int| k < j < front.len() implies (#[trigger] front[j]).node.kind
            != NodeKind::Identifier by {
            assert(front[j] == vs[j]);
        }
        lemma_last_named(front, k);
    }
}

/// An expression without identifiers has no last one.
pub proof fn law_no_identifier(src: Seq<u8>, node: NodeView)
    requires
        forall|j: int|
            0 <= j < syntax::visits(node, None).len() ==> (#[trigger] syntax::visits(
                node,
                None,
            )[j]).node.kind != NodeKind::Identifier,
    ensures
        syntax::last_identifier_of(src, node) is None,
{
    lemma_none_named(syntax::visits(node, None));
}

/// Visits without identifiers have no last one.
proof fn lemma_none_named(vs: Seq<VisitView>)
    requires
        forall|j: int| 0 <= j < vs.len() ==> (#[trigger] vs[j]).node.kind != NodeKind::Identifier,
    ensures
        syntax::last_named(vs) is None,
    decreases vs.len(),
{
    if vs.len() > 0 {
        let front = vs.drop_last();
        assert forall|j: int| 0 <= j < front.len() implies (#[trigger] front[j]).node.kind
            != NodeKind::Identifier by {
            assert(front[j] == vs[j]);
        }
        assert(vs[vs.len() - 1].node.kind != NodeKind::Identifier);
        lemma_none_named(front);
    }
}

/// A bare identifier is its own last one.
pub proof fn law_identifier_itself(src: Seq<u8>, node: NodeView, t: Seq<char>)
    requires
        names(src, node, t),
        node.children.len() == 0,
    ensures
        syntax::last_identifier_of(src, node) == Some(t),
{
    law_node_then_inside(node, None);
    law_last_identifier(src, node, 0, t);
}

/// What stands in a text is found in it.
pub proof fn law_found_where_it_stands(a: Seq<char>, mark: Seq<char>, b: Seq<char>)
    ensures
        text::first_index(a + mark + b, mark) is Some,
{
    let s = a + mark + b;
    text::lemma_first_index(s, mark);
    assert(s.skip(a.len() as int).take(mark.len() as int) =~= mark);
    assert(text::has_prefix(s.skip(a.len() as int), mark));
}

/// What is found in a text stands in it.
pub proof fn law_stands_where_it_is_found(s: Seq<char>, mark: Seq<char>) -> (parts: (
    Seq<char>,
    Seq<char>,
))
    requires
        text::first_index(s, mark) is Some,
    ensures
        s == parts.0 + mark + parts.1,
{
    text::lemma_first_index(s, mark);
    let i = text::first_index(s, mark).unwrap();
    let parts = (s.take(i), s.skip(i + mark.len()));
    assert(s =~= parts.0 + s.subrange(i, i + mark.len()) + parts.1);
    parts
}

/// A text that is not empty is read where it is found: no other bytes give it.
pub proof fn law_read_is_text(src: Seq<u8>, node: NodeView, t: Seq<char>)
    requires
        syntax::node_text(src, node) == t,
        t.len() > 0,
    ensures
        reads(src, node, t),
{
    let bytes = src.subrange(node.start_byte as int, node.end_byte as int);
    decode_utf8_encode_utf8(bytes);
}

/// Whether the last identifier in an expression is visited at `k` and reads
/// `c`.
pub open spec fn ends_in(src: Seq<u8>, node: NodeView, k: int, c: Seq<char>) -> bool {
    &&& 0 <= k < syntax::visits(node, None).len()
    &&& names(src, syntax::visits(node, None)[k].node, c)
    &&& forall|j: int|
        k < j < syntax::visits(node, None).len() ==> (#[trigger] syntax::visits(
            node,
            None,
        )[j]).node.kind != NodeKind::Identifier
}

/// Whether no identifier stands in an expression.
pub open spec fn has_no_identifier(node: NodeView) -> bool {
    forall|j: int|
        0 <= j < syntax::visits(node, None).len() ==> (#[trigger] syntax::visits(
            node,
            None,
        )[j]).node.kind != NodeKind::Identifier
}

/// A text is split at the first separator, and what follows is split in turn.
/// Without a separator it is one piece.
pub proof fn law_split(p: Seq<char>, sep: Seq<char>, rest: Seq<char>)
    requires
        sep.len() == 1,
        !p.contains(sep[0]),
    ensures
        text::split_text(p + sep + rest, sep) == seq![p] + text::split_text(rest, sep),
        text::split_text(p, sep) == seq![p],
{
    let s = p + sep + rest;
    assert forall|i: int| 0 <= i < p.len() implies s[i] != sep[0] by {
        assert(p.contains(p[i]));
    }
    text::lemma_first_char(s, sep, p.len() as int);
    assert(s.take(p.len() as int) =~= p);
    assert(s.skip(p.len() as int + 1) =~= rest);
    assert forall|i: int| 0 <= i < p.len() implies p[i] != sep[0] by {
        assert(p.contains(p[i]));
    }
    text::lemma_no_char(p, sep);
}

} // verus!
