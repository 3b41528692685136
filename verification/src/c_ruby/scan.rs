//! Ruby extension exports in C and C++ sources.
//!
//! The registrations of the Ruby C API are extracted:
//!
//! * `rb_define_module("Foo")`, `rb_define_class("Foo", super)` and their
//!   `_under` variants. The variable that a definition is assigned to is
//!   tracked, so that later registrations against it resolve to a qualified
//!   name (`Foo::Bar`).
//! * `rb_define_method(recv, "name", c_fn, arity)` and friends, which map a
//!   Ruby name to a C function.
//!
//! A receiver that is no tracked variable is resolved from the conventional
//! prefixes of identifiers (`rb_cObject` is `Object`, `mFoo` is `Foo`); one
//! that resists both is used as it is.
//!
//! Modules and classes carry the enclosing `Init_*` function as their C
//! identifier: the extension's entry point.

use crate::paths;
use crate::syntax;
use crate::syntax::{NodeKind, NodeView, SyntaxError, SyntaxNode};
use crate::text;
use vstd::prelude::*;
use vstd::utf8::*;

verus! {

/// A Ruby name that an extension defines.
#[derive(Debug)]
pub struct RubyExport {
    pub relative_path: String,
    /// Ruby namespace that the export lives under (such as `Foo::Bar`); empty
    /// for a top-level module or class.
    pub namespace: String,
    /// Ruby-facing name.
    pub ruby_name: String,
    /// C identifier that the export wraps; empty when unknown.
    pub c_name: String,
    pub kind: RubyExportKind,
    /// Zero-based `(line, start_col, end_col)`: the range of the name's string
    /// literal without its quotes.
    pub name_span: (u32, u32, u32),
}

/// What an extension defines.
#[derive(Debug, Clone, Copy, PartialEq, Eq, Structural)]
pub enum RubyExportKind {
    Module,
    Class,
    Method,
    /// A method of the class or module itself.
    SingletonMethod,
}

/// What a [`RubyExport`] holds.
#[verifier::ext_equal]
pub struct RubyExportView {
    pub relative_path: Seq<char>,
    pub namespace: Seq<char>,
    pub ruby_name: Seq<char>,
    pub c_name: Seq<char>,
    pub kind: RubyExportKind,
    pub name_span: (u32, u32, u32),
}

impl View for RubyExport {
    type V = RubyExportView;

    open spec fn view(&self) -> RubyExportView {
        RubyExportView {
            relative_path: self.relative_path@,
            namespace: self.namespace@,
            ruby_name: self.ruby_name@,
            c_name: self.c_name@,
            kind: self.kind,
            name_span: self.name_span,
        }
    }
}

/// What each export of a list holds.
pub open spec fn export_views(v: Seq<RubyExport>) -> Seq<RubyExportView> {
    v.map_values(|e: RubyExport| e@)
}

/// The exports found so far.
#[derive(Debug)]
pub struct ScanResult {
    pub exports: Vec<RubyExport>,
}

impl View for ScanResult {
    type V = Seq<RubyExportView>;

    open spec fn view(&self) -> Seq<RubyExportView> {
        export_views(self.exports@)
    }
}

impl ScanResult {
    /// No exports.
    pub fn new() -> (r: Self)
        ensures
            r@ == Seq::<RubyExportView>::empty(),
    {
        let r = ScanResult { exports: Vec::new() };
        assert(r@ =~= Seq::empty());
        r
    }
}

/// Whether a character has the Unicode property `Uppercase`.
pub uninterp spec fn uppercase(c: char) -> bool;

/// `char::is_uppercase` tells whether a character has the Unicode property
/// `Uppercase`. Of the ASCII characters the letters from A to Z have it.
pub assume_specification[ char::is_uppercase ](c: char) -> (r: bool)
    ensures
        r == uppercase(c),
        c as u32 <= 0x7f ==> r == ('A' <= c <= 'Z'),
;

/// The arguments among the nodes of an argument list: the named ones that are
/// no comments.
pub open spec fn named_nodes(nodes: Seq<NodeView>) -> Seq<NodeView>
    decreases nodes.len(),
{
    if nodes.len() == 0 {
        Seq::empty()
    } else if nodes.last().named && nodes.last().kind != NodeKind::Comment {
        named_nodes(nodes.drop_last()).push(nodes.last())
    } else {
        named_nodes(nodes.drop_last())
    }
}

/// The arguments of a call.
pub open spec fn arguments(call: NodeView) -> Seq<NodeView> {
    match syntax::first_arguments(call.children) {
        Some(list) => named_nodes(list.children),
        None => Seq::empty(),
    }
}

/// The arguments are among the nodes of the list.
proof fn lemma_named_nodes(nodes: Seq<NodeView>)
    ensures
        forall|i: int|
            0 <= i < named_nodes(nodes).len() ==> nodes.contains(#[trigger] named_nodes(nodes)[i]),
    decreases nodes.len(),
{
    if nodes.len() > 0 {
        let front = nodes.drop_last();
        lemma_named_nodes(front);
        assert forall|i: int| 0 <= i < named_nodes(nodes).len() implies nodes.contains(
            #[trigger] named_nodes(nodes)[i],
        ) by {
            if i < named_nodes(front).len() {
                let n = named_nodes(front)[i];
                assert(front.contains(n));
                assert(nodes[front.index_of(n)] == n);
            } else {
                assert(nodes[nodes.len() - 1] == nodes.last());
            }
        }
    }
}

/// The `arguments` field is among the nodes.
proof fn lemma_first_arguments(nodes: Seq<NodeView>)
    ensures
        syntax::first_arguments(nodes) matches Some(list) ==> nodes.contains(list),
    decreases nodes.len(),
{
    if nodes.len() > 0 {
        if nodes[0].is_arguments {
            assert(nodes.contains(nodes[0]));
        } else {
            lemma_first_arguments(nodes.skip(1));
            if let Some(list) = syntax::first_arguments(nodes) {
                assert(nodes[nodes.skip(1).index_of(list) + 1] == list);
            }
        }
    }
}

/// The arguments of a call are parts of it.
pub proof fn lemma_arguments_inside(call: NodeView)
    ensures
        forall|i: int|
            0 <= i < arguments(call).len() ==> decreases_to!(call => #[trigger] arguments(call)[i]),
{
    lemma_first_arguments(call.children);
    if let Some(list) = syntax::first_arguments(call.children) {
        lemma_named_nodes(list.children);
        let m = call.children.index_of(list);
        assert(call.children[m] == list);
        assert(decreases_to!(call => call.children[m]));
        assert forall|i: int| 0 <= i < arguments(call).len() implies decreases_to!(
            call => #[trigger] arguments(call)[i]
        ) by {
            let n = arguments(call)[i];
            let j = list.children.index_of(n);
            assert(list.children[j] == n);
            assert(decreases_to!(list => list.children[j]));
        }
    }
}

/// The name of a called function, if it is a bare identifier.
pub open spec fn callee_name(src: Seq<u8>, call: NodeView) -> Option<Seq<char>> {
    if call.children.len() > 0 && call.children[0].kind == NodeKind::Identifier {
        Some(syntax::node_text(src, call.children[0]))
    } else {
        None
    }
}

/// A C variable and the qualified Ruby name that is assigned to it.
pub type Binding = (Seq<char>, Seq<char>);

/// The Ruby name last assigned to a variable.
pub open spec fn bound(vars: Seq<Binding>, name: Seq<char>) -> Option<Seq<char>>
    decreases vars.len(),
{
    if vars.len() == 0 {
        None
    } else if vars.last().0 == name {
        Some(vars.last().1)
    } else {
        bound(vars.drop_last(), name)
    }
}

/// A module or class that a call defines.
#[verifier::ext_equal]
pub struct DefineView {
    pub namespace: Seq<char>,
    pub name: Seq<char>,
    pub kind: RubyExportKind,
    pub name_span: (u32, u32, u32),
}

/// The qualified name of a module or class.
pub open spec fn qualified(d: DefineView) -> Seq<char> {
    if d.namespace.len() == 0 {
        d.name
    } else {
        d.namespace + "::"@ + d.name
    }
}

/// What a function of the Ruby C API defines, and whether it does so under a
/// receiver, its first argument.
pub open spec fn definer(name: Seq<char>) -> Option<(RubyExportKind, bool)> {
    if name == "rb_define_module"@ {
        Some((RubyExportKind::Module, false))
    } else if name == "rb_define_module_under"@ {
        Some((RubyExportKind::Module, true))
    } else if name == "rb_define_class"@ {
        Some((RubyExportKind::Class, false))
    } else if name == "rb_define_class_under"@ {
        Some((RubyExportKind::Class, true))
    } else {
        None
    }
}

/// The Ruby name that an identifier has by convention: `rb_cObject`,
/// `rb_mKernel` and `rb_eStandardError` inside Ruby, `cFoo`, `mBar` and
/// `eBaz` in extensions.
pub open spec fn conventional(ident: Seq<char>) -> Option<Seq<char>> {
    let short = match text::after_prefix(ident, "rb_"@) {
        Some(rest) => rest,
        None => ident,
    };
    if short.len() >= 2 && (short[0] == 'c' || short[0] == 'm' || short[0] == 'e') && uppercase(
        short[1],
    ) {
        Some(short.skip(1))
    } else {
        None
    }
}

/// The module or class that a call defines, where `vars` are assigned.
pub open spec fn defined_by(src: Seq<u8>, vars: Seq<Binding>, call: NodeView) -> Option<
    DefineView,
>
    decreases call, 0int,
{
    proof {
        lemma_arguments_inside(call);
    }
    let args = arguments(call);
    match callee_name(src, call) {
        Some(name) => match definer(name) {
            Some((kind, under)) => {
                let at = if under {
                    1int
                } else {
                    0int
                };
                if args.len() > at && args[at].kind == NodeKind::StringLiteral {
                    Some(
                        DefineView {
                            namespace: if under {
                                receiver(src, vars, args[0])
                            } else {
                                Seq::empty()
                            },
                            name: syntax::literal(src, args[at]),
                            kind,
                            name_span: syntax::literal_span(src, args[at]),
                        },
                    )
                } else {
                    None
                }
            },
            None => None,
        },
        None => None,
    }
}

/// The Ruby namespace that a receiver expression stands for: what it defines,
/// what is assigned to the variable, what its name says by convention, or
/// else its text.
pub open spec fn receiver(src: Seq<u8>, vars: Seq<Binding>, node: NodeView) -> Seq<char>
    decreases node, 1int,
{
    let ident = syntax::node_text(src, node);
    if node.kind == NodeKind::CallExpression && defined_by(src, vars, node) is Some {
        qualified(defined_by(src, vars, node).unwrap())
    } else {
        match bound(vars, ident) {
            Some(namespace) => namespace,
            None => match conventional(ident) {
                Some(namespace) => namespace,
                None => ident,
            },
        }
    }
}

/// What a function of the Ruby C API registers, and whether it takes a
/// receiver, its first argument. Global functions live on `Kernel`.
pub open spec fn registrar(name: Seq<char>) -> Option<(RubyExportKind, bool)> {
    if name == "rb_define_method"@ || name == "rb_define_private_method"@ || name
        == "rb_define_protected_method"@ {
        Some((RubyExportKind::Method, true))
    } else if name == "rb_define_module_function"@ || name == "rb_define_singleton_method"@ {
        Some((RubyExportKind::SingletonMethod, true))
    } else if name == "rb_define_global_function"@ {
        Some((RubyExportKind::Method, false))
    } else {
        None
    }
}

/// The method that a call registers.
pub open spec fn registered_method(
    src: Seq<u8>,
    rel: Seq<char>,
    vars: Seq<Binding>,
    call: NodeView,
) -> Option<RubyExportView> {
    let args = arguments(call);
    match callee_name(src, call) {
        Some(name) => match registrar(name) {
            Some((kind, has_receiver)) => {
                let at = if has_receiver {
                    1int
                } else {
                    0int
                };
                if args.len() > at + 1 && args[at].kind == NodeKind::StringLiteral
                    && syntax::last_identifier_of(src, args[at + 1]) is Some {
                    Some(
                        RubyExportView {
                            relative_path: rel,
                            namespace: if has_receiver {
                                receiver(src, vars, args[0])
                            } else {
                                "Kernel"@
                            },
                            ruby_name: syntax::literal(src, args[at]),
                            c_name: syntax::last_identifier_of(src, args[at + 1]).unwrap(),
                            kind,
                            name_span: syntax::literal_span(src, args[at]),
                        },
                    )
                } else {
                    None
                }
            },
            None => None,
        },
        None => None,
    }
}

/// The export of a call: the module or class that it defines, with the
/// enclosing `Init_*` function as C identifier, or the method that it
/// registers.
pub open spec fn call_export(
    src: Seq<u8>,
    rel: Seq<char>,
    vars: Seq<Binding>,
    call: NodeView,
    init: Option<Seq<char>>,
) -> Option<RubyExportView> {
    match defined_by(src, vars, call) {
        Some(d) => Some(
            RubyExportView {
                relative_path: rel,
                namespace: d.namespace,
                ruby_name: d.name,
                c_name: match init {
                    Some(name) => name,
                    None => Seq::empty(),
                },
                kind: d.kind,
                name_span: d.name_span,
            },
        ),
        None => registered_method(src, rel, vars, call),
    }
}

/// The last node of a kind.
pub open spec fn last_of_kind(nodes: Seq<NodeView>, kind: NodeKind) -> Option<NodeView>
    decreases nodes.len(),
{
    if nodes.len() == 0 {
        None
    } else if nodes.last().kind == kind {
        Some(nodes.last())
    } else {
        last_of_kind(nodes.drop_last(), kind)
    }
}

/// The variable to which an assignment gives a module or class, and that
/// module's or class's qualified name.
pub open spec fn assigned(src: Seq<u8>, vars: Seq<Binding>, node: NodeView) -> Option<Binding> {
    match (
        syntax::child(node, NodeKind::Identifier),
        last_of_kind(node.children, NodeKind::CallExpression),
    ) {
        (Some(var), Some(call)) => match defined_by(src, vars, call) {
            Some(d) => Some((syntax::node_text(src, var), qualified(d))),
            None => None,
        },
        _ => None,
    }
}

/// What is known after some nodes: the tracked variables and the exports.
#[verifier::ext_equal]
pub struct StateView {
    pub vars: Seq<Binding>,
    pub exports: Seq<RubyExportView>,
}

/// A node together with the identifier of the `Init_*` function around it.
struct RubyVisit<'a> {
    node: &'a SyntaxNode,
    init: Option<&'a SyntaxNode>,
}

/// What a visit holds: a node and the identifier of the `Init_*` function
/// around it.
pub struct RubyVisitView {
    pub node: NodeView,
    pub init: Option<NodeView>,
}

impl<'a> View for RubyVisit<'a> {
    type V = RubyVisitView;

    closed spec fn view(&self) -> RubyVisitView {
        RubyVisitView { node: self.node@, init: opt_node(self.init) }
    }
}

/// What an optional node holds.
pub open spec fn opt_node(node: Option<&SyntaxNode>) -> Option<NodeView> {
    match node {
        Some(n) => Some(n@),
        None => None,
    }
}

/// What each visit of a list holds.
spec fn ruby_visit_views(vs: Seq<RubyVisit>) -> Seq<RubyVisitView> {
    vs.map_values(|v: RubyVisit| v@)
}

/// What is known after one more node.
pub open spec fn after_node(src: Seq<u8>, rel: Seq<char>, before: StateView, v: RubyVisitView) -> StateView {
    let node = v.node;
    if node.kind == NodeKind::InitDeclarator || node.kind == NodeKind::AssignmentExpression {
        match assigned(src, before.vars, node) {
            Some(binding) => StateView { vars: before.vars.push(binding), ..before },
            None => before,
        }
    } else if node.kind == NodeKind::CallExpression {
        match call_export(src, rel, before.vars, node, opt_text(src, v.init)) {
            Some(e) => StateView { exports: before.exports.push(e), ..before },
            None => before,
        }
    } else {
        before
    }
}

/// What is known after the visited nodes.
pub open spec fn after_nodes(
    src: Seq<u8>,
    rel: Seq<char>,
    before: StateView,
    vs: Seq<RubyVisitView>,
) -> StateView
    decreases vs.len(),
{
    if vs.len() == 0 {
        before
    } else {
        after_node(src, rel, after_nodes(src, rel, before, vs.drop_last()), vs.last())
    }
}

/// The identifier of an `Init_*` function.
pub open spec fn init_function(src: Seq<u8>, node: NodeView) -> Option<NodeView> {
    if node.kind != NodeKind::FunctionDefinition {
        None
    } else {
        match syntax::child(node, NodeKind::FunctionDeclarator) {
            Some(decl) => match syntax::child(decl, NodeKind::Identifier) {
                Some(ident) => if text::has_prefix(syntax::node_text(src, ident), "Init_"@) {
                    Some(ident)
                } else {
                    None
                },
                None => None,
            },
            None => None,
        }
    }
}

/// The `Init_*` function around the inside of a node.
pub open spec fn inner_init(src: Seq<u8>, node: NodeView, init: Option<NodeView>) -> Option<
    NodeView,
> {
    match init_function(src, node) {
        Some(ident) => Some(ident),
        None => init,
    }
}

/// The nodes of a tree in preorder, each with the innermost `Init_*` function
/// that it is in.
pub open spec fn ruby_visits(src: Seq<u8>, node: NodeView, init: Option<NodeView>) -> Seq<
    RubyVisitView,
>
    decreases node,
{
    let init = inner_init(src, node, init);
    seq![RubyVisitView { node, init }] + ruby_visits_all(src, node.children, init)
}

/// The nodes of a list of siblings in preorder.
pub open spec fn ruby_visits_all(
    src: Seq<u8>,
    nodes: Seq<NodeView>,
    init: Option<NodeView>,
) -> Seq<RubyVisitView>
    decreases nodes,
{
    if nodes.len() == 0 {
        Seq::empty()
    } else {
        ruby_visits_all(src, nodes.drop_last(), init) + ruby_visits(src, nodes.last(), init)
    }
}

/// The Ruby exports of a source.
pub open spec fn ruby_exports(src: Seq<u8>, rel: Seq<char>, tree: NodeView) -> Seq<
    RubyExportView,
> {
    after_nodes(
        src,
        rel,
        StateView { vars: Seq::empty(), exports: Seq::empty() },
        ruby_visits(src, tree, None),
    ).exports
}

/// The arguments of a call, without punctuation and comments.
pub fn call_args<'a>(call: &'a SyntaxNode) -> (r: Vec<&'a SyntaxNode>)
    ensures
        syntax::node_views(r@) == arguments(call@),
        forall|len: int| syntax::fits(call@, len) ==> #[trigger] syntax::nodes_fit(r@, len),
{
    let mut out: Vec<&'a SyntaxNode> = Vec::new();
    assert(syntax::node_views(out@) =~= Seq::empty());
    let list = match syntax::arguments_child(call) {
        Some(list) => list,
        None => {
            return out;
        },
    };
    let ghost kids = list@.children;
    let mut i: usize = 0;
    while i < syntax::child_count(list)
        invariant
            0 <= i <= kids.len(),
            kids == list@.children,
            syntax::node_views(out@) == named_nodes(kids.take(i as int)),
            forall|len: int| syntax::fits(list@, len) ==> #[trigger] syntax::nodes_fit(out@, len),
        decreases list@.children.len() - i,
    {
        let c = syntax::nth_child(list, i);
        let ghost had = syntax::node_views(out@);
        assert(kids.take(i + 1).drop_last() =~= kids.take(i as int));
        assert(kids.take(i + 1).last() == c@);
        if c.named && c.kind != NodeKind::Comment {
            let ghost before = out@;
            out.push(c);
            assert(syntax::node_views(out@) =~= had.push(c@));
            assert forall|len: int| syntax::fits(list@, len) implies #[trigger] syntax::nodes_fit(
                out@,
                len,
            ) by {
                assert(syntax::nodes_fit(before, len));
                assert(syntax::fits(list@.children[i as int], len));
            }
        }
        i += 1;
    }
    assert(kids.take(i as int) =~= kids);
    assert forall|len: int| syntax::fits(call@, len) implies #[trigger] syntax::nodes_fit(out@, len) by {
        assert(syntax::fits(list@, len));
    }
    out
}

/// The name of a called function, if it is a bare identifier.
pub fn call_fn_name(src: &[u8], call: &SyntaxNode) -> (r: Option<String>)
    requires
        syntax::fits(call@, src@.len() as int),
    ensures
        text::opt_view(r) == callee_name(src@, call@),
{
    if syntax::child_count(call) == 0 {
        return None;
    }
    let f = syntax::nth_child(call, 0);
    assert(syntax::fits(f@, src@.len() as int));
    if f.kind == NodeKind::Identifier {
        Some(syntax::slice(src, f))
    } else {
        None
    }
}

/// The contents of a string literal and their range; none of another node.
pub fn string_value(src: &[u8], node: &SyntaxNode) -> (r: Option<(String, (u32, u32, u32))>)
    requires
        syntax::fits(node@, src@.len() as int),
        src@.len() < u32::MAX,
    ensures
        r is Some <==> node.kind == NodeKind::StringLiteral,
        r matches Some((value, span)) ==> value@ == syntax::literal(src@, node@) && span
            == syntax::literal_span(src@, node@),
{
    if node.kind == NodeKind::StringLiteral {
        Some(syntax::literal_value(src, node))
    } else {
        None
    }
}

/// The Ruby name that an identifier has by convention.
pub fn receiver_from_convention(ident: &str) -> (r: Option<String>)
    ensures
        text::opt_view(r) == conventional(ident@),
{
    let chars = text::chars_of(ident);
    let short = match text::strip_prefix(&chars, "rb_") {
        Some(rest) => rest,
        None => &chars,
    };
    let n: usize = short.len();
    if n >= 2 && (short[0] == 'c' || short[0] == 'm' || short[0] == 'e') && short[1].is_uppercase() {
        let name = &short[1..n];
        assert(name@ =~= short@.skip(1));
        Some(text::string_of(name))
    } else {
        None
    }
}

/// The tracked variables.
struct Vars {
    bindings: Vec<(String, String)>,
}

impl View for Vars {
    type V = Seq<Binding>;

    closed spec fn view(&self) -> Seq<Binding> {
        self.bindings@.map_values(|b: (String, String)| (b.0@, b.1@))
    }
}

impl Vars {
    /// Notes an assignment.
    fn assign(&mut self, var: String, name: String)
        ensures
            final(self)@ == old(self)@.push((var@, name@)),
    {
        let ghost before = self@;
        self.bindings.push((var, name));
        assert(self@ =~= before.push((var@, name@)));
    }

    /// The Ruby name last assigned to a variable.
    fn get(&self, name: &str) -> (r: Option<String>)
        ensures
            text::opt_view(r) == bound(self@, name@),
    {
        let ghost all = self@;
        let mut n: usize = self.bindings.len();
        assert(all.take(n as int) =~= all);
        while n > 0
            invariant
                0 <= n <= self.bindings@.len(),
                all == self@,
                bound(all, name@) == bound(all.take(n as int), name@),
            decreases n,
        {
            assert(all.take(n as int).drop_last() =~= all.take(n - 1));
            let b = &self.bindings[n - 1];
            assert(all[n - 1] == (b.0@, b.1@));
            if text::str_eq(b.0.as_str(), name) {
                return Some(b.1.clone());
            }
            n -= 1;
        }
        None
    }
}

/// A module or class that a call defines.
struct DefineInfo {
    namespace: String,
    name: String,
    kind: RubyExportKind,
    name_span: (u32, u32, u32),
}

impl View for DefineInfo {
    type V = DefineView;

    closed spec fn view(&self) -> DefineView {
        DefineView {
            namespace: self.namespace@,
            name: self.name@,
            kind: self.kind,
            name_span: self.name_span,
        }
    }
}

impl DefineInfo {
    /// The qualified name of a module or class.
    fn qualified(&self) -> (r: String)
        ensures
            r@ == qualified(self@),
    {
        if text::is_empty_text(self.namespace.as_str()) {
            self.name.clone()
        } else {
            let head = text::concat(self.namespace.as_str(), "::");
            text::concat(head.as_str(), self.name.as_str())
        }
    }
}

/// What a function defines, and whether it does so under a receiver.
fn classify_definer(name: &str) -> (r: Option<(RubyExportKind, bool)>)
    ensures
        r == definer(name@),
{
    if text::str_eq(name, "rb_define_module") {
        Some((RubyExportKind::Module, false))
    } else if text::str_eq(name, "rb_define_module_under") {
        Some((RubyExportKind::Module, true))
    } else if text::str_eq(name, "rb_define_class") {
        Some((RubyExportKind::Class, false))
    } else if text::str_eq(name, "rb_define_class_under") {
        Some((RubyExportKind::Class, true))
    } else {
        None
    }
}

/// What a function registers, and whether it takes a receiver.
fn classify_registrar(name: &str) -> (r: Option<(RubyExportKind, bool)>)
    ensures
        r == registrar(name@),
{
    if text::str_eq(name, "rb_define_method") || text::str_eq(name, "rb_define_private_method")
        || text::str_eq(name, "rb_define_protected_method") {
        Some((RubyExportKind::Method, true))
    } else if text::str_eq(name, "rb_define_module_function") || text::str_eq(
        name,
        "rb_define_singleton_method",
    ) {
        Some((RubyExportKind::SingletonMethod, true))
    } else if text::str_eq(name, "rb_define_global_function") {
        Some((RubyExportKind::Method, false))
    } else {
        None
    }
}

/// The module or class that a call defines.
fn define_call_info(src: &[u8], vars: &Vars, call: &SyntaxNode) -> (r: Option<DefineInfo>)
    requires
        syntax::fits(call@, src@.len() as int),
        src@.len() < u32::MAX,
    ensures
        r matches Some(d) ==> defined_by(src@, vars@, call@) == Some(d@),
        r is None ==> defined_by(src@, vars@, call@) is None,
    decreases call@, 0int,
{
    let name = match call_fn_name(src, call) {
        Some(name) => name,
        None => {
            return None;
        },
    };
    let (kind, under) = match classify_definer(name.as_str()) {
        Some(found) => found,
        None => {
            return None;
        },
    };
    let args = call_args(call);
    proof {
        lemma_arguments_inside(call@);
        assert(syntax::nodes_fit(args@, src@.len() as int));
    }
    let at: usize = if under {
        1
    } else {
        0
    };
    if args.len() <= at {
        return None;
    }
    proof {
        assert(syntax::node_views(args@)[at as int] == args@[at as int]@);
        assert(syntax::node_views(args@)[0] == args@[0]@);
        assert(syntax::fits(args@[at as int]@, src@.len() as int));
        assert(syntax::fits(args@[0]@, src@.len() as int));
        assert(decreases_to!(call@ => arguments(call@)[0]));
    }
    match string_value(src, args[at]) {
        Some((name, name_span)) => {
            let namespace = if under {
                resolve_receiver(src, vars, args[0])
            } else {
                String::new()
            };
            Some(DefineInfo { namespace, name, kind, name_span })
        },
        None => None,
    }
}

/// The Ruby namespace that a receiver expression stands for.
fn resolve_receiver(src: &[u8], vars: &Vars, node: &SyntaxNode) -> (r: String)
    requires
        syntax::fits(node@, src@.len() as int),
        src@.len() < u32::MAX,
    ensures
        r@ == receiver(src@, vars@, node@),
    decreases node@, 1int,
{
    if node.kind == NodeKind::CallExpression {
        if let Some(info) = define_call_info(src, vars, node) {
            return info.qualified();
        }
    }
    let ident = syntax::slice(src, node);
    if let Some(namespace) = vars.get(ident.as_str()) {
        return namespace;
    }
    match receiver_from_convention(ident.as_str()) {
        Some(namespace) => namespace,
        None => ident,
    }
}

/// The method that a call registers.
fn method_of_call(src: &[u8], rel: &str, vars: &Vars, call: &SyntaxNode) -> (r: Option<RubyExport>)
    requires
        syntax::fits(call@, src@.len() as int),
        src@.len() < u32::MAX,
    ensures
        r matches Some(e) ==> registered_method(src@, rel@, vars@, call@) == Some(e@),
        r is None ==> registered_method(src@, rel@, vars@, call@) is None,
{
    let name = match call_fn_name(src, call) {
        Some(name) => name,
        None => {
            return None;
        },
    };
    let (kind, has_receiver) = match classify_registrar(name.as_str()) {
        Some(found) => found,
        None => {
            return None;
        },
    };
    let args = call_args(call);
    assert(syntax::nodes_fit(args@, src@.len() as int));
    let at: usize = if has_receiver {
        1
    } else {
        0
    };
    if args.len() <= at + 1 {
        return None;
    }
    proof {
        assert(syntax::node_views(args@)[0] == args@[0]@);
        assert(syntax::node_views(args@)[at as int] == args@[at as int]@);
        assert(syntax::node_views(args@)[at + 1] == args@[at + 1]@);
        assert(syntax::fits(args@[0]@, src@.len() as int));
        assert(syntax::fits(args@[at as int]@, src@.len() as int));
        assert(syntax::fits(args@[at + 1]@, src@.len() as int));
    }
    let (ruby_name, name_span) = match string_value(src, args[at]) {
        Some(found) => found,
        None => {
            return None;
        },
    };
    let c_name = match syntax::last_identifier(src, args[at + 1]) {
        Some(c_name) => c_name,
        None => {
            return None;
        },
    };
    let namespace = if has_receiver {
        resolve_receiver(src, vars, args[0])
    } else {
        "Kernel".to_string()
    };
    let e = RubyExport {
        relative_path: rel.to_string(),
        namespace,
        ruby_name,
        c_name,
        kind,
        name_span,
    };
    assert(e@ =~= registered_method(src@, rel@, vars@, call@).unwrap());
    Some(e)
}

/// The text of an optional node.
pub open spec fn opt_text(src: Seq<u8>, node: Option<NodeView>) -> Option<Seq<char>> {
    match node {
        Some(n) => Some(syntax::node_text(src, n)),
        None => None,
    }
}

/// The export of a call.
fn handle_call(
    src: &[u8],
    rel: &str,
    vars: &Vars,
    call: &SyntaxNode,
    init: Option<&SyntaxNode>,
) -> (r: Option<RubyExport>)
    requires
        syntax::fits(call@, src@.len() as int),
        init matches Some(ident) ==> syntax::fits(ident@, src@.len() as int),
        src@.len() < u32::MAX,
    ensures
        r matches Some(e) ==> call_export(src@, rel@, vars@, call@, opt_text(src@, opt_node(init))) == Some(
            e@,
        ),
        r is None ==> call_export(src@, rel@, vars@, call@, opt_text(src@, opt_node(init))) is None,
{
    // Modules and classes are emitted where they are defined; assignments
    // only track the variable.
    if let Some(info) = define_call_info(src, vars, call) {
        let c_name = match init {
            Some(ident) => syntax::slice(src, ident),
            None => String::new(),
        };
        let e = RubyExport {
            relative_path: rel.to_string(),
            namespace: info.namespace,
            ruby_name: info.name,
            c_name,
            kind: info.kind,
            name_span: info.name_span,
        };
        assert(e@ =~= call_export(src@, rel@, vars@, call@, opt_text(src@, opt_node(init))).unwrap());
        return Some(e);
    }
    method_of_call(src, rel, vars, call)
}

/// The last child of a kind.
fn last_child_of_kind(node: &SyntaxNode, kind: NodeKind) -> (r: Option<&SyntaxNode>)
    ensures
        r matches Some(c) ==> {
            &&& last_of_kind(node@.children, kind) == Some(c@)
            &&& forall|len: int| syntax::fits(node@, len) ==> #[trigger] syntax::fits(c@, len)
        },
        r is None ==> last_of_kind(node@.children, kind) is None,
{
    let ghost kids = node@.children;
    let mut n: usize = syntax::child_count(node);
    assert(kids.take(n as int) =~= kids);
    while n > 0
        invariant
            0 <= n <= kids.len(),
            kids == node@.children,
            last_of_kind(kids, kind) == last_of_kind(kids.take(n as int), kind),
        decreases n,
    {
        assert(kids.take(n as int).drop_last() =~= kids.take(n - 1));
        let c = syntax::nth_child(node, n - 1);
        if c.kind == kind {
            return Some(c);
        }
        n -= 1;
    }
    None
}

/// Tracks the variable to which an assignment gives a module or class.
fn track_assignment(src: &[u8], vars: &mut Vars, node: &SyntaxNode)
    requires
        syntax::fits(node@, src@.len() as int),
        src@.len() < u32::MAX,
    ensures
        final(vars)@ == (match assigned(src@, old(vars)@, node@) {
            Some(binding) => old(vars)@.push(binding),
            None => old(vars)@,
        }),
{
    if let Some(var) = syntax::child_of_kind(node, NodeKind::Identifier) {
        if let Some(call) = last_child_of_kind(node, NodeKind::CallExpression) {
            assert(syntax::fits(var@, src@.len() as int));
            assert(syntax::fits(call@, src@.len() as int));
            if let Some(info) = define_call_info(src, vars, call) {
                vars.assign(syntax::slice(src, var), info.qualified());
            }
        }
    }
}

/// The identifier of an `Init_*` function.
fn find_init<'a>(src: &[u8], node: &'a SyntaxNode) -> (r: Option<&'a SyntaxNode>)
    requires
        syntax::fits(node@, src@.len() as int),
    ensures
        r matches Some(ident) ==> init_function(src@, node@) == Some(ident@) && syntax::fits(
            ident@,
            src@.len() as int,
        ),
        r is None ==> init_function(src@, node@) is None,
{
    if node.kind != NodeKind::FunctionDefinition {
        return None;
    }
    let decl = match syntax::child_of_kind(node, NodeKind::FunctionDeclarator) {
        Some(decl) => decl,
        None => {
            return None;
        },
    };
    assert(syntax::fits(decl@, src@.len() as int));
    let ident = match syntax::child_of_kind(decl, NodeKind::Identifier) {
        Some(ident) => ident,
        None => {
            return None;
        },
    };
    assert(syntax::fits(ident@, src@.len() as int));
    let name = text::chars_of(syntax::slice(src, ident).as_str());
    if text::starts_with(&name, "Init_") {
        Some(ident)
    } else {
        None
    }
}

/// Whether the visited nodes, and the functions around them, lie in a text of
/// `len` bytes.
pub open spec fn visits_fit(vs: Seq<RubyVisitView>, len: int) -> bool {
    forall|i: int|
        0 <= i < vs.len() ==> syntax::fits((#[trigger] vs[i]).node, len) && (vs[i].init matches Some(
            ident,
        ) ==> syntax::fits(ident, len))
}

/// Appends the nodes of a tree in preorder.
fn walk_into<'a>(
    src: &[u8],
    node: &'a SyntaxNode,
    init: Option<&'a SyntaxNode>,
    out: &mut Vec<RubyVisit<'a>>,
)
    requires
        syntax::fits(node@, src@.len() as int),
        init matches Some(ident) ==> syntax::fits(ident@, src@.len() as int),
        visits_fit(ruby_visit_views(old(out)@), src@.len() as int),
    ensures
        ruby_visit_views(final(out)@) == ruby_visit_views(old(out)@) + ruby_visits(
            src@,
            node@,
            opt_node(init),
        ),
        visits_fit(ruby_visit_views(final(out)@), src@.len() as int),
    decreases node,
{
    let ghost before = ruby_visit_views(out@);
    let inner = match find_init(src, node) {
        Some(ident) => Some(ident),
        None => init,
    };
    out.push(RubyVisit { node, init: inner });
    let ghost kids = node@.children;
    let ghost own = RubyVisitView { node: node@, init: opt_node(inner) };
    assert(ruby_visit_views(out@) =~= before.push(own));
    assert(ruby_visit_views(out@) =~= before + (seq![own] + ruby_visits_all(
        src@,
        kids.take(0),
        own.init,
    )));
    let mut i: usize = 0;
    while i < syntax::child_count(node)
        invariant
            0 <= i <= node@.children.len(),
            kids == node@.children,
            syntax::fits(node@, src@.len() as int),
            inner matches Some(ident) ==> syntax::fits(ident@, src@.len() as int),
            own == (RubyVisitView { node: node@, init: opt_node(inner) }),
            visits_fit(ruby_visit_views(out@), src@.len() as int),
            ruby_visit_views(out@) =~= before + (seq![own] + ruby_visits_all(
                src@,
                kids.take(i as int),
                own.init,
            )),
        decreases node@.children.len() - i,
    {
        walk_into(src, syntax::nth_child(node, i), inner, out);
        i += 1;
        assert(kids.take(i as int).drop_last() =~= kids.take(i - 1));
    }
    assert(kids.take(i as int) =~= kids);
}

/// Appends the Ruby exports of a source file, parsed into `tree`.
pub fn scan_tree(src: &[u8], rel: &str, tree: &SyntaxNode, out: &mut ScanResult)
    requires
        syntax::fits(tree@, src@.len() as int),
        src@.len() < u32::MAX,
    ensures
        final(out)@ == old(out)@ + ruby_exports(src@, rel@, tree@),
{
    let mut nodes: Vec<RubyVisit> = Vec::new();
    walk_into(src, tree, None, &mut nodes);
    let ghost vs = ruby_visit_views(nodes@);
    let ghost start = StateView { vars: Seq::empty(), exports: Seq::empty() };
    let ghost before = out@;
    assert(vs =~= ruby_visits(src@, tree@, None));
    let mut vars = Vars { bindings: Vec::new() };
    assert(vars@ =~= Seq::empty());
    assert(before + Seq::<RubyExportView>::empty() =~= before);
    let mut i: usize = 0;
    while i < nodes.len()
        invariant
            0 <= i <= vs.len(),
            vs == ruby_visit_views(nodes@),
            src@.len() < u32::MAX,
            visits_fit(vs, src@.len() as int),
            vars@ == after_nodes(src@, rel@, start, vs.take(i as int)).vars,
            out@ =~= before + after_nodes(src@, rel@, start, vs.take(i as int)).exports,
        decreases nodes.len() - i,
    {
        let v = &nodes[i];
        let ghost had = out@;
        let ghost state = after_nodes(src@, rel@, start, vs.take(i as int));
        proof {
            assert(vs.take(i + 1).drop_last() =~= vs.take(i as int));
            assert(vs.take(i + 1).last() == vs[i as int]);
            assert(vs[i as int] == v@);
            assert(syntax::fits(vs[i as int].node, src@.len() as int));
        }
        if v.node.kind == NodeKind::InitDeclarator || v.node.kind
            == NodeKind::AssignmentExpression {
            track_assignment(src, &mut vars, v.node);
        } else if v.node.kind == NodeKind::CallExpression {
            if let Some(e) = handle_call(src, rel, &vars, v.node, v.init) {
                let ghost ev = e@;
                out.exports.push(e);
                assert(out@ =~= had.push(ev));
                assert(out@ =~= before + state.exports.push(ev));
            }
        }
        i += 1;
    }
    assert(vs.take(i as int) =~= vs);
}

/// Whether every export is of the file `rel`.
pub open spec fn are_of(es: Seq<RubyExportView>, rel: Seq<char>) -> bool {
    forall|i: int| 0 <= i < es.len() ==> (#[trigger] es[i]).relative_path == rel
}

/// Whether `after` is `before` with more exports behind it, all of them of the
/// file `rel`.
pub open spec fn only_adds(before: Seq<RubyExportView>, after: Seq<RubyExportView>, rel: Seq<char>) -> bool {
    &&& before.len() <= after.len()
    &&& after.take(before.len() as int) == before
    &&& forall|i: int|
        before.len() <= i < after.len() ==> (#[trigger] after[i]).relative_path == rel
}

/// Visited nodes add exports of the file that is scanned.
proof fn lemma_nodes_are_of(
    src: Seq<u8>,
    rel: Seq<char>,
    before: StateView,
    vs: Seq<RubyVisitView>,
)
    requires
        are_of(before.exports, rel),
    ensures
        are_of(after_nodes(src, rel, before, vs).exports, rel),
    decreases vs.len(),
{
    if vs.len() > 0 {
        lemma_nodes_are_of(src, rel, before, vs.drop_last());
    }
}

/// The exports of a source are of the file that is scanned.
proof fn lemma_are_of(src: Seq<u8>, rel: Seq<char>, tree: NodeView)
    ensures
        are_of(ruby_exports(src, rel, tree), rel),
{
    lemma_nodes_are_of(
        src,
        rel,
        StateView { vars: Seq::empty(), exports: Seq::empty() },
        ruby_visits(src, tree, None),
    );
}

/// A scan leaves the exports that were found before as they are, and adds
/// exports of the scanned file behind them.
pub proof fn law_scan_only_adds(
    src: Seq<u8>,
    rel: Seq<char>,
    tree: NodeView,
    before: Seq<RubyExportView>,
)
    ensures
        only_adds(before, before + ruby_exports(src, rel, tree), rel),
{
    let added = ruby_exports(src, rel, tree);
    lemma_are_of(src, rel, tree);
    let after = before + added;
    assert(after.take(before.len() as int) =~= before);
    assert forall|i: int| before.len() <= i < after.len() implies (#[trigger] after[i]).relative_path
        == rel by {
        assert(after[i] == added[i - before.len()]);
    }
}

/// Whether a text can define Ruby names: files that define nothing through
/// the Ruby C API are the vast majority in most trees.
pub open spec fn mentions_ruby(text: Seq<char>) -> bool {
    text::first_index(text, "rb_define_"@) is Some
}

/// Appends the Ruby exports of the file at `path`, whose contents are `text`.
/// They are recorded under the path `rel`. Nothing is appended if the text
/// mentions no registration or has no syntax tree.
pub fn scan_file(text: &str, path: &str, rel: &str, out: &mut ScanResult) -> (r: Result<
    (),
    SyntaxError,
>)
    ensures
        ({
            let cpp = paths::cpp_source(path@);
            &&& r is Err <==> mentions_ruby(text@) && syntax::is_refused(text@, cpp)
            &&& (!mentions_ruby(text@) || !syntax::has_syntax(text@, cpp)) ==> final(out)@ == old(
                out,
            )@
            &&& mentions_ruby(text@) && syntax::has_syntax(text@, cpp) ==> final(out)@ == old(out)@
                + ruby_exports(encode_utf8(text@), rel@, syntax::syntax_of(text@, cpp))
        }),
        only_adds(old(out)@, final(out)@, rel@),
{
    proof {
        assert(out@.take(out@.len() as int) =~= out@);
    }
    let chars = text::chars_of(text);
    if !text::contains(&chars, "rb_define_") {
        return Ok(());
    }
    match syntax::parse_source(text, paths::is_cpp_source(path)) {
        Err(e) => Err(e),
        Ok(None) => Ok(()),
        Ok(Some(tree)) => {
            proof {
                law_scan_only_adds(encode_utf8(text@), rel@, tree@, out@);
            }
            scan_tree(text.as_bytes(), rel, &tree, out);
            Ok(())
        },
    }
}

} // verus!
