//! Syntax trees of C and C++ sources.
//!
//! tree-sitter parses the text; its nodes come back as a flat list in
//! preorder, each with its depth, and are put together here into a tree of
//! plain values that the scanners walk.

use crate::text;
use vstd::prelude::*;
use vstd::utf8::*;

verus! {

/// The kinds of syntax nodes that the scanners tell apart.
#[derive(Debug, Clone, Copy, PartialEq, Eq, Structural)]
pub enum NodeKind {
    ArgumentList,
    ArrayDeclarator,
    AssignmentExpression,
    CallExpression,
    CastExpression,
    CloseParen,
    Comma,
    Comment,
    Declaration,
    Equals,
    Error,
    FieldDesignator,
    FieldExpression,
    FieldIdentifier,
    FunctionDeclarator,
    FunctionDefinition,
    Identifier,
    InitDeclarator,
    InitializerList,
    InitializerPair,
    OpenParen,
    QualifiedIdentifier,
    StringLiteral,
    StructSpecifier,
    TypeIdentifier,
    /// Any other kind.
    Other,
}

/// The kind that a grammar calls `name`.
pub open spec fn kind_of(name: Seq<char>) -> NodeKind {
    if name == "argument_list"@ {
        NodeKind::ArgumentList
    } else if name == "array_declarator"@ {
        NodeKind::ArrayDeclarator
    } else if name == "assignment_expression"@ {
        NodeKind::AssignmentExpression
    } else if name == "call_expression"@ {
        NodeKind::CallExpression
    } else if name == "cast_expression"@ {
        NodeKind::CastExpression
    } else if name == ")"@ {
        NodeKind::CloseParen
    } else if name == ","@ {
        NodeKind::Comma
    } else if name == "comment"@ {
        NodeKind::Comment
    } else if name == "declaration"@ {
        NodeKind::Declaration
    } else if name == "="@ {
        NodeKind::Equals
    } else if name == "ERROR"@ {
        NodeKind::Error
    } else if name == "field_designator"@ {
        NodeKind::FieldDesignator
    } else if name == "field_expression"@ {
        NodeKind::FieldExpression
    } else if name == "field_identifier"@ {
        NodeKind::FieldIdentifier
    } else if name == "function_declarator"@ {
        NodeKind::FunctionDeclarator
    } else if name == "function_definition"@ {
        NodeKind::FunctionDefinition
    } else if name == "identifier"@ {
        NodeKind::Identifier
    } else if name == "init_declarator"@ {
        NodeKind::InitDeclarator
    } else if name == "initializer_list"@ {
        NodeKind::InitializerList
    } else if name == "initializer_pair"@ {
        NodeKind::InitializerPair
    } else if name == "("@ {
        NodeKind::OpenParen
    } else if name == "qualified_identifier"@ {
        NodeKind::QualifiedIdentifier
    } else if name == "string_literal"@ {
        NodeKind::StringLiteral
    } else if name == "struct_specifier"@ {
        NodeKind::StructSpecifier
    } else if name == "type_identifier"@ {
        NodeKind::TypeIdentifier
    } else {
        NodeKind::Other
    }
}

/// The kind that a grammar calls `name`.
pub fn node_kind(name: &str) -> (r: NodeKind)
    ensures
        r == kind_of(name@),
{
    if text::str_eq(name, "argument_list") {
        NodeKind::ArgumentList
    } else if text::str_eq(name, "array_declarator") {
        NodeKind::ArrayDeclarator
    } else if text::str_eq(name, "assignment_expression") {
        NodeKind::AssignmentExpression
    } else if text::str_eq(name, "call_expression") {
        NodeKind::CallExpression
    } else if text::str_eq(name, "cast_expression") {
        NodeKind::CastExpression
    } else if text::str_eq(name, ")") {
        NodeKind::CloseParen
    } else if text::str_eq(name, ",") {
        NodeKind::Comma
    } else if text::str_eq(name, "comment") {
        NodeKind::Comment
    } else if text::str_eq(name, "declaration") {
        NodeKind::Declaration
    } else if text::str_eq(name, "=") {
        NodeKind::Equals
    } else if text::str_eq(name, "ERROR") {
        NodeKind::Error
    } else if text::str_eq(name, "field_designator") {
        NodeKind::FieldDesignator
    } else if text::str_eq(name, "field_expression") {
        NodeKind::FieldExpression
    } else if text::str_eq(name, "field_identifier") {
        NodeKind::FieldIdentifier
    } else if text::str_eq(name, "function_declarator") {
        NodeKind::FunctionDeclarator
    } else if text::str_eq(name, "function_definition") {
        NodeKind::FunctionDefinition
    } else if text::str_eq(name, "identifier") {
        NodeKind::Identifier
    } else if text::str_eq(name, "init_declarator") {
        NodeKind::InitDeclarator
    } else if text::str_eq(name, "initializer_list") {
        NodeKind::InitializerList
    } else if text::str_eq(name, "initializer_pair") {
        NodeKind::InitializerPair
    } else if text::str_eq(name, "(") {
        NodeKind::OpenParen
    } else if text::str_eq(name, "qualified_identifier") {
        NodeKind::QualifiedIdentifier
    } else if text::str_eq(name, "string_literal") {
        NodeKind::StringLiteral
    } else if text::str_eq(name, "struct_specifier") {
        NodeKind::StructSpecifier
    } else if text::str_eq(name, "type_identifier") {
        NodeKind::TypeIdentifier
    } else {
        NodeKind::Other
    }
}

/// A node of a syntax tree.
pub struct SyntaxNode {
    pub kind: NodeKind,
    /// Whether the node stands for a named rule of the grammar, not for a
    /// literal token.
    pub named: bool,
    /// Whether the node is its parent's `arguments` field.
    pub is_arguments: bool,
    pub start_byte: usize,
    pub end_byte: usize,
    /// Zero-based line of the first byte.
    pub row: usize,
    /// Zero-based byte column of the first byte.
    pub column: usize,
    pub children: Vec<SyntaxNode>,
}

/// What a [`SyntaxNode`] holds.
pub struct NodeView {
    pub kind: NodeKind,
    pub named: bool,
    pub is_arguments: bool,
    pub start_byte: usize,
    pub end_byte: usize,
    pub row: usize,
    pub column: usize,
    pub children: Seq<NodeView>,
}

/// What a node holds.
pub open spec fn node_view(node: SyntaxNode) -> NodeView
    decreases node,
{
    NodeView {
        kind: node.kind,
        named: node.named,
        is_arguments: node.is_arguments,
        start_byte: node.start_byte,
        end_byte: node.end_byte,
        row: node.row,
        column: node.column,
        children: list_view(node.children@),
    }
}

/// What each node of a list holds.
pub open spec fn list_view(nodes: Seq<SyntaxNode>) -> Seq<NodeView>
    decreases nodes,
{
    if nodes.len() == 0 {
        Seq::empty()
    } else {
        list_view(nodes.drop_last()).push(node_view(nodes.last()))
    }
}

impl View for SyntaxNode {
    type V = NodeView;

    open spec fn view(&self) -> NodeView {
        node_view(*self)
    }
}

/// The view of a list is that of its nodes, one by one.
proof fn lemma_list_view(nodes: Seq<SyntaxNode>)
    ensures
        list_view(nodes).len() == nodes.len(),
        forall|i: int| 0 <= i < nodes.len() ==> #[trigger] list_view(nodes)[i] == nodes[i]@,
    decreases nodes.len(),
{
    if nodes.len() > 0 {
        lemma_list_view(nodes.drop_last());
    }
}

/// How many children a node has.
pub fn child_count(node: &SyntaxNode) -> (r: usize)
    ensures
        r == node@.children.len(),
{
    proof {
        lemma_list_view(node.children@);
    }
    node.children.len()
}

/// A child of a node.
pub fn nth_child(node: &SyntaxNode, i: usize) -> (r: &SyntaxNode)
    requires
        i < node@.children.len(),
    ensures
        r@ == node@.children[i as int],
        decreases_to!(*node => *r),
{
    proof {
        lemma_list_view(node.children@);
        assert(decreases_to!(*node => node.children@[i as int]));
    }
    &node.children[i]
}

/// One node as the parser hands it out, in preorder.
#[derive(Debug)]
pub struct RawNode {
    pub depth: u32,
    pub kind: String,
    pub field: Option<String>,
    pub named: bool,
    pub start_byte: usize,
    pub end_byte: usize,
    pub row: usize,
    pub column: usize,
}

/// What a [`RawNode`] holds.
pub struct RawNodeView {
    pub depth: u32,
    pub kind: Seq<char>,
    pub field: Option<Seq<char>>,
    pub named: bool,
    pub start_byte: usize,
    pub end_byte: usize,
    pub row: usize,
    pub column: usize,
}

impl View for RawNode {
    type V = RawNodeView;

    open spec fn view(&self) -> RawNodeView {
        RawNodeView {
            depth: self.depth,
            kind: self.kind@,
            field: text::opt_view(self.field),
            named: self.named,
            start_byte: self.start_byte,
            end_byte: self.end_byte,
            row: self.row,
            column: self.column,
        }
    }
}

/// What each node of a list holds.
pub open spec fn raw_views(raw: Seq<RawNode>) -> Seq<RawNodeView> {
    raw.map_values(|n: RawNode| n@)
}

/// A node of a tree without its children, and its depth.
pub struct FlatNode {
    pub depth: int,
    pub kind: NodeKind,
    pub named: bool,
    pub is_arguments: bool,
    pub start_byte: usize,
    pub end_byte: usize,
    pub row: usize,
    pub column: usize,
}

/// The node that the parser's record `raw` stands for.
pub open spec fn flat_of(raw: RawNodeView) -> FlatNode {
    FlatNode {
        depth: raw.depth as int,
        kind: kind_of(raw.kind),
        named: raw.named,
        is_arguments: raw.field == Some("arguments"@),
        start_byte: raw.start_byte,
        end_byte: raw.end_byte,
        row: raw.row,
        column: raw.column,
    }
}

/// A node's own record at `depth`.
pub open spec fn head_of(node: NodeView, depth: int) -> FlatNode {
    FlatNode {
        depth,
        kind: node.kind,
        named: node.named,
        is_arguments: node.is_arguments,
        start_byte: node.start_byte,
        end_byte: node.end_byte,
        row: node.row,
        column: node.column,
    }
}

/// The nodes of a tree in preorder.
pub open spec fn preorder(node: NodeView, depth: int) -> Seq<FlatNode>
    decreases node,
{
    seq![head_of(node, depth)] + preorder_all(node.children, depth + 1)
}

/// The nodes of a list of trees in preorder.
pub open spec fn preorder_all(nodes: Seq<NodeView>, depth: int) -> Seq<FlatNode>
    decreases nodes,
{
    if nodes.len() == 0 {
        Seq::empty()
    } else {
        preorder_all(nodes.drop_last(), depth) + preorder(nodes.last(), depth)
    }
}

/// Why a text could not be parsed.
#[derive(Debug, Clone, Copy, PartialEq, Eq, Structural)]
pub enum SyntaxError {
    /// The parser does not take the language's grammar.
    Language,
}

/// What parsing a text gives.
pub enum Parsed {
    /// The parser does not take the language's grammar.
    BadLanguage,
    /// The parser gave no tree.
    NoTree,
    /// The nodes of the tree, in preorder.
    Tree(Seq<RawNodeView>),
}

/// What tree-sitter makes of `text` as C++ (`cpp`) or as C.
pub uninterp spec fn c_syntax(text: Seq<char>, cpp: bool) -> Parsed;

/// tree-sitter's refusal of a grammar, carried through and never looked into.
#[verifier::external_type_specification]
#[verifier::external_body]
pub struct ExLanguageError(tree_sitter::LanguageError);

/// `tree_sitter::Parser::parse` on the C or the C++ grammar, and the nodes of
/// its tree as `TreeCursor::goto_descendant` numbers them. The result depends
/// on the text and the grammar alone; [`c_syntax`] is its name. Nothing more
/// is said of the nodes: neither that the depths make a tree nor that the
/// byte ranges lie in the text. The parser counts bytes in 32 bits, so longer
/// texts are left out.
#[verifier::external_body]
fn parse_nodes(text: &str, cpp: bool) -> (r: Result<
    Option<Vec<RawNode>>,
    tree_sitter::LanguageError,
>)
    requires
        text::is_countable(text@),
    ensures
        c_syntax(text@, cpp) == (match r {
            Err(_) => Parsed::BadLanguage,
            Ok(None) => Parsed::NoTree,
            Ok(Some(nodes)) => Parsed::Tree(raw_views(nodes@)),
        }),
{
    let mut parser = tree_sitter::Parser::new();
    let language = if cpp { tree_sitter_cpp::LANGUAGE } else { tree_sitter_c::LANGUAGE };
    parser.set_language(&language.into())?;
    Ok(parser.parse(text, None).map(|tree| {
        let mut cursor = tree.walk();
        (0..tree.root_node().descendant_count()).map(|i| {
            cursor.goto_descendant(i);
            let node = cursor.node();
            let at = node.start_position();
            RawNode { depth: cursor.depth(), kind: node.kind().to_string(),
                field: cursor.field_name().map(String::from), named: node.is_named(),
                start_byte: node.start_byte(), end_byte: node.end_byte(),
                row: at.row, column: at.column }
        }).collect()
    }))
}

/// Whether a node's range and position lie in a text of `len` bytes.
pub open spec fn in_text(node: FlatNode, len: int) -> bool {
    &&& node.start_byte <= node.end_byte <= len
    &&& node.column <= node.start_byte
    &&& node.row <= u32::MAX
}

/// Whether every node of a tree lies in a text of `len` bytes.
pub open spec fn fits(node: NodeView, len: int) -> bool
    decreases node,
{
    &&& in_text(head_of(node, 0), len)
    &&& forall|i: int| 0 <= i < node.children.len() ==> fits(#[trigger] node.children[i], len)
}

/// Whether the record at `i` can follow the one before it in preorder, below
/// the root.
pub open spec fn follows(raw: Seq<RawNodeView>, i: int) -> bool {
    1 <= raw[i].depth <= raw[i - 1].depth + 1
}

/// Whether depths, in preorder, are those of the nodes of one tree.
pub open spec fn is_preorder(raw: Seq<RawNodeView>) -> bool {
    &&& raw.len() > 0
    &&& raw[0].depth == 0
    &&& forall|i: int| 1 <= i < raw.len() ==> #[trigger] follows(raw, i)
}

/// Whether the records of a parse of a text of `len` bytes make a tree whose
/// nodes lie in the text.
pub open spec fn is_tree(raw: Seq<RawNodeView>, len: int) -> bool {
    &&& is_preorder(raw)
    &&& forall|i: int| 0 <= i < raw.len() ==> in_text(flat_of(#[trigger] raw[i]), len)
}

/// A list of trees with one more tree has that tree's nodes at its end.
proof fn lemma_preorder_all_push(nodes: Seq<NodeView>, node: NodeView, depth: int)
    ensures
        preorder_all(nodes.push(node), depth) == preorder_all(nodes, depth) + preorder(node, depth),
{
    assert(nodes.push(node).drop_last() =~= nodes);
}

/// The tree whose first record is `raw[pos]`, and the position after its last
/// record.
fn build_at(raw: &Vec<RawNode>, pos: usize, Ghost(len): Ghost<int>) -> (r: (SyntaxNode, usize))
    requires
        is_tree(raw_views(raw@), len),
        pos < raw@.len(),
    ensures
        pos < r.1 <= raw@.len(),
        preorder(r.0@, raw@[pos as int].depth as int) == raw_views(raw@).subrange(
            pos as int,
            r.1 as int,
        ).map_values(|n: RawNodeView| flat_of(n)),
        fits(r.0@, len),
        r.1 < raw@.len() ==> raw@[r.1 as int].depth <= raw@[pos as int].depth,
    decreases raw@.len() - pos,
{
    let count: usize = raw.len();
    let depth = raw[pos].depth;
    let ghost views = raw_views(raw@);
    let ghost flat = |n: RawNodeView| flat_of(n);
    let mut children: Vec<SyntaxNode> = Vec::new();
    let mut next: usize = pos + 1;
    proof {
        assert(views[pos as int].depth == depth);
        if next < raw@.len() {
            assert(follows(views, next as int));
        }
        assert(views.subrange(pos + 1, next as int).map_values(flat) =~= Seq::<FlatNode>::empty());
    }
    while next < count && raw[next].depth > depth
        invariant
            is_tree(raw_views(raw@), len),
            views == raw_views(raw@),
            flat == (|n: RawNodeView| flat_of(n)),
            depth == raw@[pos as int].depth,
            count == raw@.len(),
            pos < next <= raw@.len(),
            preorder_all(list_view(children@), depth + 1) =~= views.subrange(
                pos + 1,
                next as int,
            ).map_values(flat),
            forall|i: int|
                0 <= i < list_view(children@).len() ==> fits(#[trigger] list_view(children@)[i], len),
            next < raw@.len() ==> raw@[next as int].depth <= depth + 1,
        decreases raw@.len() - next,
    {
        let (child, after) = build_at(raw, next, Ghost(len));
        proof {
            assert(children@.push(child).drop_last() =~= children@);
            lemma_preorder_all_push(list_view(children@), child@, depth + 1);
            assert(views.subrange(pos + 1, after as int) =~= views.subrange(pos + 1, next as int)
                + views.subrange(next as int, after as int));
            assert(views.subrange(pos + 1, after as int).map_values(flat) =~= views.subrange(
                pos + 1,
                next as int,
            ).map_values(flat) + views.subrange(next as int, after as int).map_values(flat));
        }
        children.push(child);
        next = after;
    }
    let is_arguments = match &raw[pos].field {
        Some(f) => text::str_eq(f.as_str(), "arguments"),
        None => false,
    };
    let node = SyntaxNode {
        kind: node_kind(raw[pos].kind.as_str()),
        named: raw[pos].named,
        is_arguments,
        start_byte: raw[pos].start_byte,
        end_byte: raw[pos].end_byte,
        row: raw[pos].row,
        column: raw[pos].column,
        children,
    };
    proof {
        let own = views[pos as int];
        assert(own == raw@[pos as int]@);
        assert(head_of(node@, depth as int) == flat_of(own));
        assert(in_text(flat_of(views[pos as int]), len));
        assert(views.subrange(pos as int, next as int).map_values(flat) =~= seq![flat_of(own)]
            + views.subrange(pos + 1, next as int).map_values(flat));
    }
    (node, next)
}

/// Whether one record lies in a text of `len` bytes.
fn record_fits(raw: &RawNode, len: usize) -> (r: bool)
    ensures
        r == in_text(flat_of(raw@), len as int),
{
    raw.start_byte <= raw.end_byte && raw.end_byte <= len && raw.column <= raw.start_byte && raw.row
        <= 0xffff_ffff
}

/// The tree that a parser's records make, when they make one that lies in a
/// text of `len` bytes.
pub fn build_tree(raw: &Vec<RawNode>, len: usize) -> (r: Option<SyntaxNode>)
    ensures
        r is Some <==> is_tree(raw_views(raw@), len as int),
        r matches Some(tree) ==> {
            &&& preorder(tree@, 0) == raw_views(raw@).map_values(|n: RawNodeView| flat_of(n))
            &&& fits(tree@, len as int)
        },
{
    let ghost views = raw_views(raw@);
    if raw.len() == 0 {
        return None;
    }
    assert(views[0] == raw@[0]@);
    if raw[0].depth != 0 || !record_fits(&raw[0], len) {
        return None;
    }
    let mut i: usize = 1;
    while i < raw.len()
        invariant
            1 <= i <= raw@.len(),
            views == raw_views(raw@),
            views[0].depth == 0,
            forall|j: int| 1 <= j < i ==> #[trigger] follows(views, j),
            forall|j: int| 0 <= j < i ==> in_text(flat_of(#[trigger] views[j]), len as int),
        decreases raw.len() - i,
    {
        assert(views[i as int] == raw@[i as int]@);
        assert(views[i - 1] == raw@[i - 1]@);
        if raw[i].depth < 1 || raw[i].depth - 1 > raw[i - 1].depth || !record_fits(&raw[i], len) {
            assert(!follows(views, i as int) || !in_text(flat_of(views[i as int]), len as int));
            return None;
        }
        i += 1;
    }
    let (tree, next) = build_at(raw, 0, Ghost(len as int));
    proof {
        if next < raw@.len() {
            assert(follows(views, next as int));
            assert(views[next as int] == raw@[next as int]@);
        }
        assert(views.subrange(0, next as int) =~= views);
    }
    Some(tree)
}

/// Whether the parser does not take the grammar for `text`.
pub open spec fn is_refused(text: Seq<char>, cpp: bool) -> bool {
    text::is_countable(text) && c_syntax(text, cpp) is BadLanguage
}

/// Whether the parser gives a tree over `text`: its records make one, and the
/// text's positions can be counted in 32 bits.
pub open spec fn has_syntax(text: Seq<char>, cpp: bool) -> bool {
    &&& text::is_countable(text)
    &&& c_syntax(text, cpp) matches Parsed::Tree(raw)
    &&& is_tree(raw, encode_utf8(text).len() as int)
}

/// Whether `tree` holds the nodes that the parser gives for `text`.
pub open spec fn is_syntax(text: Seq<char>, cpp: bool, tree: NodeView) -> bool {
    &&& c_syntax(text, cpp) matches Parsed::Tree(raw)
    &&& preorder(tree, 0) == raw.map_values(|n: RawNodeView| flat_of(n))
}

/// The syntax tree of `text` as C++ (`cpp`) or as C, if it has one: the tree
/// with the nodes that the parser gives.
pub open spec fn syntax_of(text: Seq<char>, cpp: bool) -> NodeView {
    choose|tree: NodeView| is_syntax(text, cpp, tree)
}

/// The syntax tree of `text` as C++ (`cpp`) or as C, if it has one.
pub fn parse_source(text: &str, cpp: bool) -> (r: Result<Option<SyntaxNode>, SyntaxError>)
    ensures
        r is Err <==> is_refused(text@, cpp),
        r matches Ok(tree) ==> (tree is Some <==> has_syntax(text@, cpp)),
        r matches Ok(Some(tree)) ==> {
            &&& is_syntax(text@, cpp, tree@)
            &&& tree@ == syntax_of(text@, cpp)
            &&& fits(tree@, encode_utf8(text@).len() as int)
        },
{
    if !text::fits_counters(text) {
        return Ok(None);
    }
    let raw = match parse_nodes(text, cpp) {
        Err(_) => {
            return Err(SyntaxError::Language);
        },
        Ok(None) => {
            return Ok(None);
        },
        Ok(Some(raw)) => raw,
    };
    let tree = build_tree(&raw, text.as_bytes().len());
    proof {
        if let Some(tree) = &tree {
            assert(is_syntax(text@, cpp, tree@));
            law_tree_unique(tree@, syntax_of(text@, cpp), 0);
        }
    }
    Ok(tree)
}

/// A tree's first node is its root; all others lie deeper.
proof fn lemma_depths(node: NodeView, depth: int)
    ensures
        preorder(node, depth).len() > 0,
        preorder(node, depth)[0] == head_of(node, depth),
        forall|i: int| 0 < i < preorder(node, depth).len() ==> (#[trigger] preorder(
            node,
            depth,
        )[i]).depth > depth,
    decreases node,
{
    let rest = preorder_all(node.children, depth + 1);
    lemma_depths_all(node.children, depth + 1);
    assert forall|i: int| 0 < i < preorder(node, depth).len() implies (#[trigger] preorder(
        node,
        depth,
    )[i]).depth > depth by {
        assert(preorder(node, depth)[i] == rest[i - 1]);
    }
}

/// No node of trees at `depth` lies higher.
proof fn lemma_depths_all(nodes: Seq<NodeView>, depth: int)
    ensures
        forall|i: int| 0 <= i < preorder_all(nodes, depth).len() ==> (#[trigger] preorder_all(
            nodes,
            depth,
        )[i]).depth >= depth,
    decreases nodes,
{
    if nodes.len() > 0 {
        let front = preorder_all(nodes.drop_last(), depth);
        let last = preorder(nodes.last(), depth);
        lemma_depths_all(nodes.drop_last(), depth);
        lemma_depths(nodes.last(), depth);
        assert forall|i: int| 0 <= i < preorder_all(nodes, depth).len() implies (
        #[trigger] preorder_all(nodes, depth)[i]).depth >= depth by {
            if i < front.len() {
                assert(preorder_all(nodes, depth)[i] == front[i]);
            } else {
                assert(preorder_all(nodes, depth)[i] == last[i - front.len()]);
            }
        }
    }
}

/// Lists of trees with the same nodes in preorder are the same.
proof fn lemma_trees_unique(a: Seq<NodeView>, b: Seq<NodeView>, depth: int)
    requires
        preorder_all(a, depth) == preorder_all(b, depth),
    ensures
        a == b,
    decreases a,
{
    let all = preorder_all(a, depth);
    if a.len() > 0 {
        lemma_depths(a.last(), depth);
    }
    if b.len() > 0 {
        lemma_depths(b.last(), depth);
    }
    if a.len() > 0 && b.len() > 0 {
        let fa = preorder_all(a.drop_last(), depth);
        let fb = preorder_all(b.drop_last(), depth);
        let la = preorder(a.last(), depth);
        let lb = preorder(b.last(), depth);
        assert(all == fa + la && all == fb + lb);
        assert(all.len() == fa.len() + la.len() && all.len() == fb.len() + lb.len());
        assert((fa + la)[fa.len() as int] == la[0]);
        assert((fb + lb)[fb.len() as int] == lb[0]);
        if fa.len() < fb.len() {
            assert((fa + la)[fb.len() as int] == la[fb.len() - fa.len()]);
        } else if fb.len() < fa.len() {
            assert((fb + lb)[fa.len() as int] == lb[fa.len() - fb.len()]);
        }
        assert(fa =~= all.take(fa.len() as int));
        assert(fb =~= all.take(fb.len() as int));
        assert(la =~= all.skip(fa.len() as int));
        assert(lb =~= all.skip(fb.len() as int));
        lemma_trees_unique(a.drop_last(), b.drop_last(), depth);
        law_tree_unique(a.last(), b.last(), depth);
        assert(a =~= a.drop_last().push(a.last()));
        assert(b =~= b.drop_last().push(b.last()));
    } else {
        assert(all.len() == 0);
        assert(a =~= b);
    }
}

/// The nodes in preorder determine the tree: a text has one syntax tree.
pub proof fn law_tree_unique(a: NodeView, b: NodeView, depth: int)
    requires
        preorder(a, depth) == preorder(b, depth),
    ensures
        a == b,
    decreases a,
{
    lemma_depths(a, depth);
    lemma_depths(b, depth);
    assert(preorder_all(a.children, depth + 1) =~= preorder(a, depth).skip(1));
    assert(preorder_all(b.children, depth + 1) =~= preorder(b, depth).skip(1));
    lemma_trees_unique(a.children, b.children, depth + 1);
    assert(head_of(a, depth) == head_of(b, depth));
}

/// The text of a node in the source `src`; empty if it is not UTF-8.
pub open spec fn node_text(src: Seq<u8>, node: NodeView) -> Seq<char> {
    let bytes = src.subrange(node.start_byte as int, node.end_byte as int);
    if valid_utf8(bytes) {
        decode_utf8(bytes)
    } else {
        Seq::empty()
    }
}

/// The text of a node in the source `src`; empty if it is not UTF-8.
pub fn slice(src: &[u8], node: &SyntaxNode) -> (r: String)
    requires
        node.start_byte <= node.end_byte <= src@.len(),
    ensures
        r@ == node_text(src@, node@),
        encode_utf8(r@).len() <= node.end_byte - node.start_byte,
{
    let bytes = &src[node.start_byte..node.end_byte];
    match std::str::from_utf8(bytes) {
        Ok(s) => {
            proof {
                decode_utf8_encode_utf8(bytes@);
            }
            s.to_string()
        },
        Err(_) => String::new(),
    }
}

/// The encoding of two texts in a row is their encodings in a row.
pub proof fn lemma_encode_concat(a: Seq<char>, b: Seq<char>)
    ensures
        encode_utf8(a + b) == encode_utf8(a) + encode_utf8(b),
    decreases a.len(),
{
    if a.len() == 0 {
        assert(a + b =~= b);
        assert(encode_utf8(a) + encode_utf8(b) =~= encode_utf8(b));
    } else {
        lemma_encode_concat(a.drop_first(), b);
        assert((a + b).drop_first() =~= a.drop_first() + b);
        assert(encode_utf8(a + b) =~= encode_utf8(a) + encode_utf8(b));
    }
}

/// Each character takes at least one byte.
pub proof fn lemma_encode_len(s: Seq<char>)
    ensures
        encode_utf8(s).len() >= s.len(),
    decreases s.len(),
{
    if s.len() > 0 {
        lemma_encode_len(s.drop_first());
    }
}

/// Trimming does not lengthen a text.
proof fn lemma_trimmed_of_len(s: Seq<char>, set: Seq<char>)
    ensures
        encode_utf8(text::trimmed_of(s, set)).len() <= encode_utf8(s).len(),
{
    lemma_trimmed_start_of_len(s, set);
    lemma_trimmed_end_of_len(text::trimmed_start_of(s, set), set);
}

proof fn lemma_trimmed_start_of_len(s: Seq<char>, set: Seq<char>)
    ensures
        encode_utf8(text::trimmed_start_of(s, set)).len() <= encode_utf8(s).len(),
    decreases s.len(),
{
    if s.len() > 0 && set.contains(s[0]) {
        lemma_trimmed_start_of_len(s.skip(1), set);
        assert(s =~= s.take(1) + s.skip(1));
        lemma_encode_concat(s.take(1), s.skip(1));
    }
}

proof fn lemma_trimmed_end_of_len(s: Seq<char>, set: Seq<char>)
    ensures
        encode_utf8(text::trimmed_end_of(s, set)).len() <= encode_utf8(s).len(),
    decreases s.len(),
{
    if s.len() > 0 && set.contains(s.last()) {
        lemma_trimmed_end_of_len(s.drop_last(), set);
        assert(s =~= s.drop_last() + seq![s.last()]);
        lemma_encode_concat(s.drop_last(), seq![s.last()]);
    }
}

/// The contents of a string literal: its text without the quotes.
pub open spec fn literal(src: Seq<u8>, node: NodeView) -> Seq<char> {
    text::trimmed_of(node_text(src, node), "\""@)
}

/// The range of `len` bytes that start `skip` bytes after a node's start:
/// zero-based line, first column and column after the last.
pub open spec fn span_from(node: NodeView, skip: int, len: int) -> (u32, u32, u32) {
    (node.row as u32, (node.column + skip) as u32, (node.column + skip + len) as u32)
}

/// The range of a string literal's contents, which follow its opening quote.
pub open spec fn literal_span(src: Seq<u8>, node: NodeView) -> (u32, u32, u32) {
    span_from(node, 1, encode_utf8(literal(src, node)).len() as int)
}

/// The range of `len` bytes that start `skip` bytes after a node's start.
pub fn make_span(node: &SyntaxNode, skip: usize, len: usize) -> (r: (u32, u32, u32))
    requires
        node.row <= u32::MAX,
        node.column + skip + len <= u32::MAX,
    ensures
        r == span_from(node@, skip as int, len as int),
{
    let start = node.column + skip;
    (node.row as u32, start as u32, (start + len) as u32)
}

/// The contents of a string literal and their range.
pub fn literal_value(src: &[u8], node: &SyntaxNode) -> (r: (String, (u32, u32, u32)))
    requires
        fits(node@, src@.len() as int),
        src@.len() < u32::MAX,
    ensures
        r.0@ == literal(src@, node@),
        r.1 == literal_span(src@, node@),
{
    let raw = slice(src, node);
    let raw = text::chars_of(raw.as_str());
    let value = text::string_of(text::trim_of(&raw, "\""));
    proof {
        lemma_trimmed_of_len(raw@, "\""@);
    }
    let len = value.as_str().as_bytes().len();
    let span = make_span(node, 1, len);
    (value, span)
}

/// The first node of a kind.
pub open spec fn first_of_kind(nodes: Seq<NodeView>, kind: NodeKind) -> Option<NodeView>
    decreases nodes.len(),
{
    if nodes.len() == 0 {
        None
    } else if nodes[0].kind == kind {
        Some(nodes[0])
    } else {
        first_of_kind(nodes.skip(1), kind)
    }
}

/// The first child of a kind.
pub open spec fn child(node: NodeView, kind: NodeKind) -> Option<NodeView> {
    first_of_kind(node.children, kind)
}

/// The first child of a kind.
pub fn child_of_kind(node: &SyntaxNode, kind: NodeKind) -> (r: Option<&SyntaxNode>)
    ensures
        r matches Some(c) ==> {
            &&& child(node@, kind) == Some(c@)
            &&& c.kind == kind
            &&& forall|len: int| fits(node@, len) ==> #[trigger] fits(c@, len)
        },
        r is None ==> child(node@, kind) is None,
{
    let n = child_count(node);
    let ghost kids = node@.children;
    let mut i: usize = 0;
    assert(kids.skip(0) =~= kids);
    while i < n
        invariant
            0 <= i <= n,
            kids == node@.children,
            n == kids.len(),
            child(node@, kind) == first_of_kind(kids.skip(i as int), kind),
        decreases n - i,
    {
        let c = nth_child(node, i);
        if c.kind == kind {
            return Some(c);
        }
        assert(kids.skip(i as int).skip(1) =~= kids.skip(i + 1));
        i += 1;
    }
    None
}

/// The first node that is its parent's `arguments` field.
pub open spec fn first_arguments(nodes: Seq<NodeView>) -> Option<NodeView>
    decreases nodes.len(),
{
    if nodes.len() == 0 {
        None
    } else if nodes[0].is_arguments {
        Some(nodes[0])
    } else {
        first_arguments(nodes.skip(1))
    }
}

/// The child that is the node's `arguments` field.
pub fn arguments_child(node: &SyntaxNode) -> (r: Option<&SyntaxNode>)
    ensures
        r matches Some(c) ==> {
            &&& first_arguments(node@.children) == Some(c@)
            &&& forall|len: int| fits(node@, len) ==> #[trigger] fits(c@, len)
        },
        r is None ==> first_arguments(node@.children) is None,
{
    let n = child_count(node);
    let ghost kids = node@.children;
    let mut i: usize = 0;
    assert(kids.skip(0) =~= kids);
    while i < n
        invariant
            0 <= i <= n,
            kids == node@.children,
            n == kids.len(),
            first_arguments(kids) == first_arguments(kids.skip(i as int)),
        decreases n - i,
    {
        let c = nth_child(node, i);
        if c.is_arguments {
            return Some(c);
        }
        assert(kids.skip(i as int).skip(1) =~= kids.skip(i + 1));
        i += 1;
    }
    None
}

/// A node of a tree together with its parent's kind.
pub struct Visit<'a> {
    pub node: &'a SyntaxNode,
    pub parent: Option<NodeKind>,
}

/// What a [`Visit`] holds.
pub struct VisitView {
    pub node: NodeView,
    pub parent: Option<NodeKind>,
}

impl<'a> View for Visit<'a> {
    type V = VisitView;

    open spec fn view(&self) -> VisitView {
        VisitView { node: self.node@, parent: self.parent }
    }
}

/// What each visit of a list holds.
pub open spec fn visit_views(vs: Seq<Visit>) -> Seq<VisitView> {
    vs.map_values(|v: Visit| v@)
}

/// The nodes of a tree in preorder, each with its parent's kind.
pub open spec fn visits(node: NodeView, parent: Option<NodeKind>) -> Seq<VisitView>
    decreases node,
{
    seq![VisitView { node, parent }] + visits_all(node.children, node.kind)
}

/// The nodes of a list of siblings in preorder, each with its parent's kind.
pub open spec fn visits_all(nodes: Seq<NodeView>, parent: NodeKind) -> Seq<VisitView>
    decreases nodes,
{
    if nodes.len() == 0 {
        Seq::empty()
    } else {
        visits_all(nodes.drop_last(), parent) + visits(nodes.last(), Some(parent))
    }
}

/// Whether every visited node lies in a text of `len` bytes.
pub open spec fn all_fit(vs: Seq<VisitView>, len: int) -> bool {
    forall|i: int| 0 <= i < vs.len() ==> fits((#[trigger] vs[i]).node, len)
}

/// The nodes of a tree that lies in a text lie in it.
proof fn lemma_visits_fit(node: NodeView, parent: Option<NodeKind>, len: int)
    requires
        fits(node, len),
    ensures
        all_fit(visits(node, parent), len),
    decreases node, 0int,
{
    lemma_visits_all_fit(node.children, node.kind, len);
}

proof fn lemma_visits_all_fit(nodes: Seq<NodeView>, parent: NodeKind, len: int)
    requires
        forall|i: int| 0 <= i < nodes.len() ==> fits(#[trigger] nodes[i], len),
    ensures
        all_fit(visits_all(nodes, parent), len),
    decreases nodes, 1int,
{
    if nodes.len() > 0 {
        lemma_visits_all_fit(nodes.drop_last(), parent, len);
        assert(fits(nodes[nodes.len() - 1], len));
        lemma_visits_fit(nodes.last(), Some(parent), len);
    }
}

/// Appends the nodes of a tree in preorder.
fn walk_into<'a>(node: &'a SyntaxNode, parent: Option<NodeKind>, out: &mut Vec<Visit<'a>>)
    ensures
        visit_views(final(out)@) == visit_views(old(out)@) + visits(node@, parent),
    decreases node,
{
    let ghost before = visit_views(out@);
    let ghost own = VisitView { node: node@, parent };
    out.push(Visit { node, parent });
    let n = child_count(node);
    let ghost kids = node@.children;
    assert(visit_views(out@) =~= before + (seq![own] + visits_all(kids.take(0), node.kind)));
    let mut i: usize = 0;
    while i < n
        invariant
            0 <= i <= n,
            kids == node@.children,
            n == kids.len(),
            visit_views(out@) =~= before + (seq![own] + visits_all(kids.take(i as int), node.kind)),
        decreases n - i,
    {
        walk_into(nth_child(node, i), Some(node.kind), out);
        i += 1;
        assert(kids.take(i as int).drop_last() =~= kids.take(i - 1));
    }
    assert(kids.take(i as int) =~= kids);
}

/// The nodes of a tree in preorder, each with its parent's kind.
pub fn walk<'a>(tree: &'a SyntaxNode) -> (r: Vec<Visit<'a>>)
    ensures
        visit_views(r@) == visits(tree@, None),
        forall|len: int| fits(tree@, len) ==> #[trigger] all_fit(visit_views(r@), len),
{
    let mut out: Vec<Visit<'a>> = Vec::new();
    walk_into(tree, None, &mut out);
    assert(visit_views(out@) =~= visits(tree@, None));
    proof {
        assert forall|len: int| fits(tree@, len) implies #[trigger] all_fit(
            visit_views(out@),
            len,
        ) by {
            lemma_visits_fit(tree@, None, len);
        }
    }
    out
}

/// The last identifier among visited nodes.
pub open spec fn last_named(vs: Seq<VisitView>) -> Option<NodeView>
    decreases vs.len(),
{
    if vs.len() == 0 {
        None
    } else if vs.last().node.kind == NodeKind::Identifier {
        Some(vs.last().node)
    } else {
        last_named(vs.drop_last())
    }
}

/// The last identifier in an expression.
pub open spec fn last_identifier_of(src: Seq<u8>, node: NodeView) -> Option<Seq<char>> {
    match last_named(visits(node, None)) {
        Some(ident) => Some(node_text(src, ident)),
        None => None,
    }
}

/// The last identifier in an expression: handles a bare identifier, a cast
/// like `(void *)fn` and a wrapper like `RUBY_METHOD_FUNC(fn)`.
pub fn last_identifier(src: &[u8], node: &SyntaxNode) -> (r: Option<String>)
    requires
        fits(node@, src@.len() as int),
    ensures
        text::opt_view(r) == last_identifier_of(src@, node@),
{
    let nodes = walk(node);
    let ghost vs = visit_views(nodes@);
    assert(all_fit(vs, src@.len() as int));
    let mut n: usize = nodes.len();
    assert(vs.take(n as int) =~= vs);
    while n > 0
        invariant
            0 <= n <= vs.len(),
            vs == visit_views(nodes@),
            vs == visits(node@, None),
            all_fit(vs, src@.len() as int),
            last_named(vs) == last_named(vs.take(n as int)),
        decreases n,
    {
        assert(vs.take(n as int).drop_last() =~= vs.take(n - 1));
        assert(vs[n - 1] == nodes@[n - 1]@);
        assert(fits(vs[n - 1].node, src@.len() as int));
        if nodes[n - 1].node.kind == NodeKind::Identifier {
            return Some(slice(src, nodes[n - 1].node));
        }
        n -= 1;
    }
    None
}

/// What each borrowed node of a list holds.
pub open spec fn node_views(v: Seq<&SyntaxNode>) -> Seq<NodeView> {
    v.map_values(|n: &SyntaxNode| n@)
}

/// Whether every node of a list lies in a text of `len` bytes.
pub open spec fn nodes_fit(v: Seq<&SyntaxNode>, len: int) -> bool {
    forall|i: int| 0 <= i < v.len() ==> fits((#[trigger] v[i])@, len)
}

} // verus!
