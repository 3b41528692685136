//! JavaScript names that Node.js native addons register.
//!
//! These registrations are recognised in C and C++ sources:
//!
//! * `NAPI_MODULE(name, init)` and `NODE_MODULE(name, init)` name the module
//!   and its init function.
//! * `Nan::SetMethod(target, "name", fn)`, `Nan::SetPrototypeMethod(...)`,
//!   `Nan::Export(...)`, `NODE_SET_METHOD(...)` and
//!   `NODE_SET_PROTOTYPE_METHOD(...)`.
//! * `napi_set_named_property(env, target, "name", value)` and
//!   `napi_create_function(env, "name", length, fn, ...)`.
//! * `exports.Set("name", Napi::Function::New(env, fn))`.
//! * `napi_property_descriptor` initializers, designated
//!   (`{ .utf8name = "name", .method = fn }`) or positional
//!   (`{ "name", NULL, fn }`).
//!
//! Names that exist only behind a project's own macros are not seen.

use crate::paths;
use crate::symbol;
use crate::syntax;
use crate::syntax::{NodeKind, NodeView, SyntaxError, SyntaxNode, Visit, VisitView};
use crate::text;
use vstd::prelude::*;
use vstd::utf8::*;

verus! {

/// A JavaScript name that native code registers.
#[derive(Debug)]
pub struct JsExport {
    pub relative_path: String,
    /// JavaScript-facing name.
    pub js_name: String,
    /// C or C++ identifier that the export wraps, such as
    /// `Connection::Connect`.
    pub c_name: String,
    pub kind: JsExportKind,
    /// Zero-based `(line, start_col, end_col)`: the range of the name's string
    /// literal without its quotes.
    pub name_span: (u32, u32, u32),
}

/// What native code registers.
#[derive(Debug, Clone, Copy, PartialEq, Eq, Structural)]
pub enum JsExportKind {
    Function,
    /// A property of a class prototype.
    Method,
}

/// What a [`JsExport`] holds.
#[verifier::ext_equal]
pub struct JsExportView {
    pub relative_path: Seq<char>,
    pub js_name: Seq<char>,
    pub c_name: Seq<char>,
    pub kind: JsExportKind,
    pub name_span: (u32, u32, u32),
}

impl View for JsExport {
    type V = JsExportView;

    open spec fn view(&self) -> JsExportView {
        JsExportView {
            relative_path: self.relative_path@,
            js_name: self.js_name@,
            c_name: self.c_name@,
            kind: self.kind,
            name_span: self.name_span,
        }
    }
}

/// What each export of a list holds.
pub open spec fn export_views(v: Seq<JsExport>) -> Seq<JsExportView> {
    v.map_values(|e: JsExport| e@)
}

/// The registrations found so far.
#[derive(Debug)]
pub struct ScanResult {
    pub exports: Vec<JsExport>,
    /// The module's name, if a `NAPI_MODULE` or `NODE_MODULE` was seen.
    pub module_name: Option<String>,
    /// The function that initialises the module.
    pub module_init: Option<String>,
}

/// What a [`ScanResult`] holds.
#[verifier::ext_equal]
pub struct ScanView {
    pub exports: Seq<JsExportView>,
    pub module_name: Option<Seq<char>>,
    pub module_init: Option<Seq<char>>,
}

impl View for ScanResult {
    type V = ScanView;

    open spec fn view(&self) -> ScanView {
        ScanView {
            exports: export_views(self.exports@),
            module_name: text::opt_view(self.module_name),
            module_init: text::opt_view(self.module_init),
        }
    }
}

impl ScanResult {
    /// Nothing found.
    pub fn new() -> (r: Self)
        ensures
            r@ == (ScanView { exports: Seq::empty(), module_name: None, module_init: None }),
    {
        let r = ScanResult { exports: Vec::new(), module_name: None, module_init: None };
        assert(r@.exports =~= Seq::empty());
        r
    }
}

/// The text of the first node that is not an argument list.
pub open spec fn first_target(src: Seq<u8>, nodes: Seq<NodeView>) -> Option<Seq<char>>
    decreases nodes.len(),
{
    if nodes.len() == 0 {
        None
    } else if nodes[0].kind == NodeKind::ArgumentList {
        first_target(src, nodes.skip(1))
    } else {
        Some(syntax::node_text(src, nodes[0]))
    }
}

/// A called function's name without template arguments:
/// `Nan::New<v8::FunctionTemplate>` is `Nan::New`.
pub open spec fn bare_name(name: Seq<char>) -> Seq<char> {
    text::trimmed(symbol::before_char(name, '<'))
}

/// The nodes that are not punctuation.
pub open spec fn without_punctuation(nodes: Seq<NodeView>) -> Seq<NodeView>
    decreases nodes.len(),
{
    if nodes.len() == 0 {
        Seq::empty()
    } else {
        let before = without_punctuation(nodes.drop_last());
        let kind = nodes.last().kind;
        if kind == NodeKind::OpenParen || kind == NodeKind::CloseParen || kind == NodeKind::Comma {
            before
        } else {
            before.push(nodes.last())
        }
    }
}

/// The arguments of a call.
pub open spec fn arguments(call: NodeView) -> Seq<NodeView> {
    match syntax::child(call, NodeKind::ArgumentList) {
        Some(list) => without_punctuation(list.children),
        None => Seq::empty(),
    }
}

/// The contents of a string literal; none of another node.
pub open spec fn string_value(src: Seq<u8>, node: NodeView) -> Option<Seq<char>> {
    if node.kind == NodeKind::StringLiteral && valid_utf8(
        src.subrange(node.start_byte as int, node.end_byte as int),
    ) {
        Some(syntax::literal(src, node))
    } else {
        None
    }
}

/// Whether a node names something.
pub open spec fn is_name(kind: NodeKind) -> bool {
    ||| kind == NodeKind::Identifier
    ||| kind == NodeKind::QualifiedIdentifier
    ||| kind == NodeKind::FieldIdentifier
}

/// The text of the last of the visited nodes that names something; empty if
/// there is none.
pub open spec fn last_name(src: Seq<u8>, vs: Seq<VisitView>) -> Seq<char>
    decreases vs.len(),
{
    if vs.len() == 0 {
        Seq::empty()
    } else if is_name(vs.last().node.kind) {
        syntax::node_text(src, vs.last().node)
    } else {
        last_name(src, vs.drop_last())
    }
}

/// The C or C++ identifier that is passed as a function: the node's own name,
/// or the last one inside it, which is that of the wrapped callback.
pub open spec fn callback(src: Seq<u8>, node: NodeView) -> Seq<char> {
    if is_name(node.kind) {
        syntax::node_text(src, node)
    } else {
        last_name(src, syntax::visits(node, None))
    }
}

/// The function that `Napi::Function::New(env, fn)` wraps.
pub open spec fn wrapped_function(src: Seq<u8>, node: NodeView) -> Option<Seq<char>> {
    let args = arguments(node);
    if node.kind == NodeKind::CallExpression && args.len() >= 2 && callback(src, args[1]).len() > 0
        && (first_target(src, node.children) matches Some(name) && bare_name(name)
        == "Napi::Function::New"@) {
        Some(callback(src, args[1]))
    } else {
        None
    }
}

/// Whether a call registers a module.
pub open spec fn is_module_macro(bare: Seq<char>) -> bool {
    bare == "NAPI_MODULE"@ || bare == "NODE_MODULE"@
}

/// Whether a call registers a method of a class prototype.
pub open spec fn is_prototype_call(bare: Seq<char>) -> bool {
    bare == "Nan::SetPrototypeMethod"@ || bare == "NODE_SET_PROTOTYPE_METHOD"@
}

/// Whether a call takes a target, a name and a function.
pub open spec fn is_nan_call(bare: Seq<char>) -> bool {
    ||| bare == "Nan::SetMethod"@
    ||| bare == "Nan::Export"@
    ||| bare == "NODE_SET_METHOD"@
    ||| is_prototype_call(bare)
}

/// An export under the name that a string literal holds.
pub open spec fn export_at(
    src: Seq<u8>,
    rel: Seq<char>,
    lit: NodeView,
    c_name: Seq<char>,
    kind: JsExportKind,
) -> Option<JsExportView> {
    match string_value(src, lit) {
        Some(js_name) => Some(
            JsExportView {
                relative_path: rel,
                js_name,
                c_name,
                kind,
                name_span: syntax::literal_span(src, lit),
            },
        ),
        None => None,
    }
}

/// The export that a call to the function `name` registers.
pub open spec fn registered(
    src: Seq<u8>,
    rel: Seq<char>,
    name: Seq<char>,
    args: Seq<NodeView>,
) -> Option<JsExportView> {
    let bare = bare_name(name);
    if is_module_macro(bare) {
        None
    } else if is_nan_call(bare) {
        if args.len() >= 3 && callback(src, args[2]).len() > 0 {
            let kind = if is_prototype_call(bare) {
                JsExportKind::Method
            } else {
                JsExportKind::Function
            };
            export_at(src, rel, args[1], callback(src, args[2]), kind)
        } else {
            None
        }
    } else if bare == "napi_set_named_property"@ {
        if args.len() >= 4 {
            export_at(src, rel, args[2], callback(src, args[3]), JsExportKind::Function)
        } else {
            None
        }
    } else if bare == "napi_create_function"@ {
        if args.len() >= 4 {
            export_at(src, rel, args[1], callback(src, args[3]), JsExportKind::Function)
        } else {
            None
        }
    } else if (text::has_suffix(name, ".Set"@) || text::has_suffix(name, "->Set"@)) && args.len()
        == 2 {
        match wrapped_function(src, args[1]) {
            Some(c_name) => export_at(src, rel, args[0], c_name, JsExportKind::Function),
            None => None,
        }
    } else {
        None
    }
}

/// What is found after a call to the function `name`.
pub open spec fn after_call(
    src: Seq<u8>,
    rel: Seq<char>,
    before: ScanView,
    name: Seq<char>,
    args: Seq<NodeView>,
) -> ScanView {
    if is_module_macro(bare_name(name)) {
        if args.len() >= 2 && syntax::node_text(src, args[0]).len() > 0 && syntax::node_text(
            src,
            args[1],
        ).len() > 0 {
            ScanView {
                module_name: Some(syntax::node_text(src, args[0])),
                module_init: Some(syntax::node_text(src, args[1])),
                ..before
            }
        } else {
            before
        }
    } else {
        match registered(src, rel, name, args) {
            Some(e) => ScanView { exports: before.exports.push(e), ..before },
            None => before,
        }
    }
}

/// The designator of an initializer pair, and the value that follows it.
pub struct PairView {
    pub designator: Option<Seq<char>>,
    pub value: Option<NodeView>,
}

/// The parts of an initializer pair with these nodes.
pub open spec fn pair_of(src: Seq<u8>, nodes: Seq<NodeView>) -> PairView
    decreases nodes.len(),
{
    if nodes.len() == 0 {
        PairView { designator: None, value: None }
    } else {
        let before = pair_of(src, nodes.drop_last());
        let node = nodes.last();
        if node.kind == NodeKind::FieldDesignator {
            PairView {
                designator: Some(text::trimmed_start_of(syntax::node_text(src, node), "."@)),
                ..before
            }
        } else if node.kind == NodeKind::Equals || node.kind == NodeKind::Comma || node.kind
            == NodeKind::OpenParen || node.kind == NodeKind::CloseParen {
            before
        } else if before.value is None && before.designator is Some {
            PairView { value: Some(node), ..before }
        } else {
            before
        }
    }
}

/// What is known of a property descriptor: the JavaScript name with its
/// range, and the C or C++ function.
pub struct PropertyView {
    pub name: Option<(Seq<char>, (u32, u32, u32))>,
    pub c_name: Option<Seq<char>>,
}

/// The descriptor after one more of its nodes.
pub open spec fn with_field(src: Seq<u8>, p: PropertyView, node: NodeView) -> PropertyView {
    if node.kind == NodeKind::InitializerPair {
        let pair = pair_of(src, node.children);
        match (pair.designator, pair.value) {
            (Some(field), Some(value)) => if field == "utf8name"@ || field == "name"@ {
                match string_value(src, value) {
                    Some(s) => PropertyView {
                        name: Some((s, syntax::literal_span(src, value))),
                        ..p
                    },
                    None => p,
                }
            } else if (field == "method"@ || field == "value"@ || field == "getter"@) && callback(
                src,
                value,
            ).len() > 0 {
                PropertyView { c_name: Some(callback(src, value)), ..p }
            } else {
                p
            },
            _ => p,
        }
    } else if node.kind == NodeKind::StringLiteral && p.name is None {
        match string_value(src, node) {
            Some(s) => PropertyView { name: Some((s, syntax::literal_span(src, node))), ..p },
            None => p,
        }
    } else if (node.kind == NodeKind::Identifier || node.kind == NodeKind::QualifiedIdentifier)
        && p.c_name is None && p.name is Some {
        let s = syntax::node_text(src, node);
        if s.len() > 0 && s != "NULL"@ {
            PropertyView { c_name: Some(s), ..p }
        } else {
            p
        }
    } else {
        p
    }
}

/// What the nodes of an initializer say of a property.
pub open spec fn property_of(src: Seq<u8>, nodes: Seq<NodeView>) -> PropertyView
    decreases nodes.len(),
{
    if nodes.len() == 0 {
        PropertyView { name: None, c_name: None }
    } else {
        with_field(src, property_of(src, nodes.drop_last()), nodes.last())
    }
}

/// The export that an initializer describes, if it is a property descriptor.
pub open spec fn described_property(src: Seq<u8>, rel: Seq<char>, list: NodeView) -> Option<
    JsExportView,
> {
    let p = property_of(src, list.children);
    match (p.name, p.c_name) {
        (Some((js_name, name_span)), Some(c_name)) => Some(
            JsExportView {
                relative_path: rel,
                js_name,
                c_name,
                kind: JsExportKind::Function,
                name_span,
            },
        ),
        _ => None,
    }
}

/// What is found after a node.
pub open spec fn after_node(src: Seq<u8>, rel: Seq<char>, before: ScanView, node: NodeView) -> ScanView {
    if node.kind == NodeKind::CallExpression {
        match first_target(src, node.children) {
            Some(name) => after_call(src, rel, before, name, arguments(node)),
            None => before,
        }
    } else if node.kind == NodeKind::InitializerList {
        match described_property(src, rel, node) {
            Some(e) => ScanView { exports: before.exports.push(e), ..before },
            None => before,
        }
    } else {
        before
    }
}

/// What is found after the visited nodes.
pub open spec fn after_nodes(src: Seq<u8>, rel: Seq<char>, before: ScanView, vs: Seq<VisitView>) -> ScanView
    decreases vs.len(),
{
    if vs.len() == 0 {
        before
    } else {
        after_node(src, rel, after_nodes(src, rel, before, vs.drop_last()), vs.last().node)
    }
}

/// What is found after a source: its nodes are taken in preorder.
pub open spec fn after_source(src: Seq<u8>, rel: Seq<char>, before: ScanView, tree: NodeView) -> ScanView {
    after_nodes(src, rel, before, syntax::visits(tree, None))
}

/// A called function as a plain text: a bare identifier, a qualified name, a
/// member access or a template.
pub fn call_target_name(src: &[u8], call: &SyntaxNode) -> (r: Option<String>)
    requires
        syntax::fits(call@, src@.len() as int),
    ensures
        text::opt_view(r) == first_target(src@, call@.children),
{
    let ghost kids = call@.children;
    let mut i: usize = 0;
    assert(kids.skip(0) =~= kids);
    while i < syntax::child_count(call)
        invariant
            0 <= i <= kids.len(),
            kids == call@.children,
            syntax::fits(call@, src@.len() as int),
            first_target(src@, kids) == first_target(src@, kids.skip(i as int)),
        decreases call@.children.len() - i,
    {
        let c = syntax::nth_child(call, i);
        assert(kids.skip(i as int)[0] == c@);
        assert(kids.skip(i as int).skip(1) =~= kids.skip(i + 1));
        assert(syntax::fits(c@, src@.len() as int));
        if c.kind != NodeKind::ArgumentList {
            return Some(syntax::slice(src, c));
        }
        i += 1;
    }
    None
}

/// A called function's name without template arguments.
fn strip_template(name: &str) -> (r: String)
    ensures
        r@ == bare_name(name@),
{
    let chars = text::chars_of(name);
    let n = symbol::position_of(&chars, 0, '<');
    let head = &chars[0..n];
    assert(chars@.skip(0) =~= chars@);
    assert(head@ =~= chars@.subrange(0, n as int));
    text::string_of(text::trim(head))
}

/// The arguments of a call.
pub fn call_args<'a>(call: &'a SyntaxNode) -> (r: Vec<&'a SyntaxNode>)
    ensures
        syntax::node_views(r@) == arguments(call@),
        forall|len: int| syntax::fits(call@, len) ==> #[trigger] syntax::nodes_fit(r@, len),
{
    let mut out: Vec<&'a SyntaxNode> = Vec::new();
    assert(syntax::node_views(out@) =~= Seq::empty());
    let list = match syntax::child_of_kind(call, NodeKind::ArgumentList) {
        Some(list) => list,
        None => {
            return out;
        },
    };
    let ghost kids = list@.children;
    let mut i: usize = 0;
    while i < syntax::child_count(list)
        invariant
            0 <= i <= kids.len(),
            kids == list@.children,
            syntax::node_views(out@) == without_punctuation(kids.take(i as int)),
            forall|len: int| syntax::fits(list@, len) ==> #[trigger] syntax::nodes_fit(out@, len),
        decreases list@.children.len() - i,
    {
        let c = syntax::nth_child(list, i);
        let ghost had = syntax::node_views(out@);
        assert(kids.take(i + 1).drop_last() =~= kids.take(i as int));
        assert(kids.take(i + 1).last() == c@);
        if c.kind != NodeKind::OpenParen && c.kind != NodeKind::CloseParen && c.kind
            != NodeKind::Comma {
            let ghost before = out@;
            out.push(c);
            assert(syntax::node_views(out@) =~= had.push(c@));
            assert forall|len: int| syntax::fits(list@, len) implies #[trigger] syntax::nodes_fit(
                out@,
                len,
            ) by {
                assert(syntax::nodes_fit(before, len));
                assert(syntax::fits(list@.children[i as int], len));
            }
        }
        i += 1;
    }
    assert(kids.take(i as int) =~= kids);
    assert forall|len: int| syntax::fits(call@, len) implies #[trigger] syntax::nodes_fit(out@, len) by {
        assert(syntax::fits(list@, len));
    }
    out
}

/// The contents of a string literal and their range; none of another node.
pub fn string_literal_value(src: &[u8], node: &SyntaxNode) -> (r: Option<
    (String, (u32, u32, u32)),
>)
    requires
        syntax::fits(node@, src@.len() as int),
        src@.len() < u32::MAX,
    ensures
        r matches Some((value, span)) ==> string_value(src@, node@) == Some(value@) && span
            == syntax::literal_span(src@, node@),
        r is None ==> string_value(src@, node@) is None,
{
    if node.kind != NodeKind::StringLiteral {
        return None;
    }
    let bytes = &src[node.start_byte..node.end_byte];
    if std::str::from_utf8(bytes).is_err() {
        return None;
    }
    Some(syntax::literal_value(src, node))
}

/// Whether a node names something.
fn names_something(kind: NodeKind) -> (r: bool)
    ensures
        r == is_name(kind),
{
    kind == NodeKind::Identifier || kind == NodeKind::QualifiedIdentifier || kind
        == NodeKind::FieldIdentifier
}

/// The C or C++ identifier that is passed as a function.
pub fn qualified_identifier_or_call_target(src: &[u8], node: &SyntaxNode) -> (r: String)
    requires
        syntax::fits(node@, src@.len() as int),
    ensures
        r@ == callback(src@, node@),
{
    if names_something(node.kind) {
        return syntax::slice(src, node);
    }
    let nodes = syntax::walk(node);
    let ghost vs = syntax::visit_views(nodes@);
    assert(syntax::all_fit(vs, src@.len() as int));
    let mut n: usize = nodes.len();
    assert(vs.take(n as int) =~= vs);
    while n > 0
        invariant
            0 <= n <= vs.len(),
            vs == syntax::visit_views(nodes@),
            syntax::all_fit(vs, src@.len() as int),
            last_name(src@, vs) == last_name(src@, vs.take(n as int)),
            callback(src@, node@) == last_name(src@, vs),
        decreases n,
    {
        assert(vs.take(n as int).drop_last() =~= vs.take(n - 1));
        assert(vs[n - 1] == nodes@[n - 1]@);
        assert(syntax::fits(vs[n - 1].node, src@.len() as int));
        if names_something(nodes[n - 1].node.kind) {
            return syntax::slice(src, nodes[n - 1].node);
        }
        n -= 1;
    }
    String::new()
}

/// The function that `Napi::Function::New(env, fn)` wraps.
pub fn extract_napi_function_new_target(src: &[u8], node: &SyntaxNode) -> (r: Option<String>)
    requires
        syntax::fits(node@, src@.len() as int),
    ensures
        text::opt_view(r) == wrapped_function(src@, node@),
{
    if node.kind != NodeKind::CallExpression {
        return None;
    }
    let name = match call_target_name(src, node) {
        Some(name) => name,
        None => {
            return None;
        },
    };
    if !text::str_eq(strip_template(name.as_str()).as_str(), "Napi::Function::New") {
        return None;
    }
    let args = call_args(node);
    if args.len() < 2 {
        return None;
    }
    proof {
        assert(syntax::nodes_fit(args@, src@.len() as int));
        assert(syntax::fits(args@[1]@, src@.len() as int));
        assert(syntax::node_views(args@)[1] == args@[1]@);
    }
    let ident = qualified_identifier_or_call_target(src, args[1]);
    if text::is_empty_text(ident.as_str()) {
        None
    } else {
        Some(ident)
    }
}

/// An export under the name that a string literal holds.
fn make_export(src: &[u8], rel: &str, lit: &SyntaxNode, c_name: String, kind: JsExportKind) -> (r:
    Option<JsExport>)
    requires
        syntax::fits(lit@, src@.len() as int),
        src@.len() < u32::MAX,
    ensures
        r matches Some(e) ==> export_at(src@, rel@, lit@, c_name@, kind) == Some(e@),
        r is None ==> export_at(src@, rel@, lit@, c_name@, kind) is None,
{
    match string_literal_value(src, lit) {
        Some((js_name, name_span)) => {
            let e = JsExport { relative_path: rel.to_string(), js_name, c_name, kind, name_span };
            assert(e@ =~= export_at(src@, rel@, lit@, c_name@, kind).unwrap());
            Some(e)
        },
        None => None,
    }
}

/// The export that a call to the function `name`, which is not a module
/// macro, registers.
fn registration(src: &[u8], rel: &str, name: &str, bare: &str, args: &Vec<&SyntaxNode>) -> (r:
    Option<JsExport>)
    requires
        syntax::nodes_fit(args@, src@.len() as int),
        src@.len() < u32::MAX,
        bare@ == bare_name(name@),
        !is_module_macro(bare@),
    ensures
        r matches Some(e) ==> registered(src@, rel@, name@, syntax::node_views(args@)) == Some(e@),
        r is None ==> registered(src@, rel@, name@, syntax::node_views(args@)) is None,
{
    let ghost all = syntax::node_views(args@);
    let n: usize = args.len();
    proof {
        assert forall|i: int| 0 <= i < n implies #[trigger] all[i] == args@[i]@ && syntax::fits(
            args@[i]@,
            src@.len() as int,
        ) by {}
    }
    let prototype = text::str_eq(bare, "Nan::SetPrototypeMethod") || text::str_eq(
        bare,
        "NODE_SET_PROTOTYPE_METHOD",
    );
    if prototype || text::str_eq(bare, "Nan::SetMethod") || text::str_eq(bare, "Nan::Export")
        || text::str_eq(bare, "NODE_SET_METHOD") {
        if n < 3 {
            return None;
        }
        assert(all[1] == args@[1]@ && all[2] == args@[2]@);
        let c_name = qualified_identifier_or_call_target(src, args[2]);
        if text::is_empty_text(c_name.as_str()) {
            return None;
        }
        let kind = if prototype {
            JsExportKind::Method
        } else {
            JsExportKind::Function
        };
        return make_export(src, rel, args[1], c_name, kind);
    }
    if text::str_eq(bare, "napi_set_named_property") {
        if n < 4 {
            return None;
        }
        assert(all[2] == args@[2]@ && all[3] == args@[3]@);
        let c_name = qualified_identifier_or_call_target(src, args[3]);
        return make_export(src, rel, args[2], c_name, JsExportKind::Function);
    }
    if text::str_eq(bare, "napi_create_function") {
        if n < 4 {
            return None;
        }
        assert(all[1] == args@[1]@ && all[3] == args@[3]@);
        let c_name = qualified_identifier_or_call_target(src, args[3]);
        return make_export(src, rel, args[1], c_name, JsExportKind::Function);
    }
    let chars = text::chars_of(name);
    if n == 2 && (text::ends_with(&chars, ".Set") || text::ends_with(&chars, "->Set")) {
        assert(all[0] == args@[0]@ && all[1] == args@[1]@);
        if let Some(c_name) = extract_napi_function_new_target(src, args[1]) {
            return make_export(src, rel, args[0], c_name, JsExportKind::Function);
        }
    }
    None
}

/// Records what a call to the function `name` registers.
pub fn classify_call(src: &[u8], rel: &str, name: &str, call: &SyntaxNode, out: &mut ScanResult)
    requires
        syntax::fits(call@, src@.len() as int),
        src@.len() < u32::MAX,
    ensures
        final(out)@ == after_call(src@, rel@, old(out)@, name@, arguments(call@)),
{
    let bare = strip_template(name);
    let args = call_args(call);
    assert(syntax::nodes_fit(args@, src@.len() as int));
    let ghost before = out@;
    if text::str_eq(bare.as_str(), "NAPI_MODULE") || text::str_eq(bare.as_str(), "NODE_MODULE") {
        if args.len() >= 2 {
            proof {
                assert(syntax::fits(args@[0]@, src@.len() as int));
                assert(syntax::fits(args@[1]@, src@.len() as int));
                assert(syntax::node_views(args@)[0] == args@[0]@);
                assert(syntax::node_views(args@)[1] == args@[1]@);
            }
            let module = syntax::slice(src, args[0]);
            let init = syntax::slice(src, args[1]);
            if !text::is_empty_text(module.as_str()) && !text::is_empty_text(init.as_str()) {
                out.module_name = Some(module);
                out.module_init = Some(init);
            }
        }
        return;
    }
    if let Some(e) = registration(src, rel, name, bare.as_str(), &args) {
        let ghost ev = e@;
        out.exports.push(e);
        assert(out@.exports =~= before.exports.push(ev));
    }
}

/// The designator of an initializer pair, and the value that follows it.
pub fn split_initializer_pair<'a>(src: &[u8], pair: &'a SyntaxNode) -> (r: (
    Option<String>,
    Option<&'a SyntaxNode>,
))
    requires
        syntax::fits(pair@, src@.len() as int),
    ensures
        text::opt_view(r.0) == pair_of(src@, pair@.children).designator,
        r.1 matches Some(v) ==> pair_of(src@, pair@.children).value == Some(v@) && syntax::fits(
            v@,
            src@.len() as int,
        ),
        r.1 is None ==> pair_of(src@, pair@.children).value is None,
{
    let ghost kids = pair@.children;
    let mut designator: Option<String> = None;
    let mut value: Option<&'a SyntaxNode> = None;
    let mut i: usize = 0;
    while i < syntax::child_count(pair)
        invariant
            0 <= i <= kids.len(),
            kids == pair@.children,
            syntax::fits(pair@, src@.len() as int),
            text::opt_view(designator) == pair_of(src@, kids.take(i as int)).designator,
            value matches Some(v) ==> pair_of(src@, kids.take(i as int)).value == Some(v@)
                && syntax::fits(v@, src@.len() as int),
            value is None ==> pair_of(src@, kids.take(i as int)).value is None,
        decreases pair@.children.len() - i,
    {
        let c = syntax::nth_child(pair, i);
        assert(kids.take(i + 1).drop_last() =~= kids.take(i as int));
        assert(kids.take(i + 1).last() == c@);
        assert(syntax::fits(c@, src@.len() as int));
        match c.kind {
            NodeKind::FieldDesignator => {
                let name = text::chars_of(syntax::slice(src, c).as_str());
                designator = Some(text::string_of(text::trim_start_of(&name, ".")));
            },
            NodeKind::Equals => {},
            NodeKind::Comma => {},
            NodeKind::OpenParen => {},
            NodeKind::CloseParen => {},
            _ => {
                if value.is_none() && designator.is_some() {
                    value = Some(c);
                }
            },
        }
        i += 1;
    }
    assert(kids.take(i as int) =~= kids);
    (designator, value)
}

/// What is known of a property descriptor.
struct Property {
    name: Option<(String, (u32, u32, u32))>,
    c_name: Option<String>,
}

impl View for Property {
    type V = PropertyView;

    closed spec fn view(&self) -> PropertyView {
        PropertyView {
            name: match self.name {
                Some((s, span)) => Some((s@, span)),
                None => None,
            },
            c_name: text::opt_view(self.c_name),
        }
    }
}

/// Takes one more node of a property descriptor into account.
fn add_field(src: &[u8], p: &mut Property, node: &SyntaxNode)
    requires
        syntax::fits(node@, src@.len() as int),
        src@.len() < u32::MAX,
    ensures
        final(p)@ == with_field(src@, old(p)@, node@),
{
    match node.kind {
        NodeKind::InitializerPair => {
            let (designator, value) = split_initializer_pair(src, node);
            if let (Some(field), Some(value)) = (designator, value) {
                if text::str_eq(field.as_str(), "utf8name") || text::str_eq(
                    field.as_str(),
                    "name",
                ) {
                    if let Some(found) = string_literal_value(src, value) {
                        p.name = Some(found);
                    }
                } else if text::str_eq(field.as_str(), "method") || text::str_eq(
                    field.as_str(),
                    "value",
                ) || text::str_eq(field.as_str(), "getter") {
                    let c_name = qualified_identifier_or_call_target(src, value);
                    if !text::is_empty_text(c_name.as_str()) {
                        p.c_name = Some(c_name);
                    }
                }
            }
        },
        NodeKind::StringLiteral => {
            if p.name.is_none() {
                if let Some(found) = string_literal_value(src, node) {
                    p.name = Some(found);
                }
            }
        },
        NodeKind::Identifier | NodeKind::QualifiedIdentifier => {
            if p.c_name.is_none() && p.name.is_some() {
                let s = syntax::slice(src, node);
                if !text::is_empty_text(s.as_str()) && !text::str_eq(s.as_str(), "NULL") {
                    p.c_name = Some(s);
                }
            }
        },
        _ => {},
    }
}

/// The export that an initializer describes, if it is a property descriptor.
pub fn collect_property_descriptor(src: &[u8], rel: &str, list: &SyntaxNode) -> (r: Option<
    JsExport,
>)
    requires
        syntax::fits(list@, src@.len() as int),
        src@.len() < u32::MAX,
    ensures
        r matches Some(e) ==> described_property(src@, rel@, list@) == Some(e@),
        r is None ==> described_property(src@, rel@, list@) is None,
{
    let ghost kids = list@.children;
    let mut p = Property { name: None, c_name: None };
    let mut i: usize = 0;
    while i < syntax::child_count(list)
        invariant
            0 <= i <= kids.len(),
            kids == list@.children,
            src@.len() < u32::MAX,
            syntax::fits(list@, src@.len() as int),
            p@ == property_of(src@, kids.take(i as int)),
        decreases list@.children.len() - i,
    {
        assert(kids.take(i + 1).drop_last() =~= kids.take(i as int));
        assert(kids.take(i + 1).last() == list@.children[i as int]);
        add_field(src, &mut p, syntax::nth_child(list, i));
        i += 1;
    }
    assert(kids.take(i as int) =~= kids);
    match (p.name, p.c_name) {
        (Some((js_name, name_span)), Some(c_name)) => {
            let e = JsExport {
                relative_path: rel.to_string(),
                js_name,
                c_name,
                kind: JsExportKind::Function,
                name_span,
            };
            assert(e@ =~= described_property(src@, rel@, list@).unwrap());
            Some(e)
        },
        _ => None,
    }
}

/// Records the registrations of a source file, parsed into `tree`.
pub fn scan_tree(src: &[u8], rel: &str, tree: &SyntaxNode, out: &mut ScanResult)
    requires
        syntax::fits(tree@, src@.len() as int),
        src@.len() < u32::MAX,
    ensures
        final(out)@ == after_source(src@, rel@, old(out)@, tree@),
{
    let nodes = syntax::walk(tree);
    let ghost vs = syntax::visit_views(nodes@);
    let ghost before = out@;
    assert(syntax::all_fit(vs, src@.len() as int));
    let mut i: usize = 0;
    while i < nodes.len()
        invariant
            0 <= i <= vs.len(),
            vs == syntax::visit_views(nodes@),
            src@.len() < u32::MAX,
            syntax::all_fit(vs, src@.len() as int),
            out@ == after_nodes(src@, rel@, before, vs.take(i as int)),
        decreases nodes.len() - i,
    {
        let node = nodes[i].node;
        let ghost had = out@;
        assert(vs.take(i + 1).drop_last() =~= vs.take(i as int));
        assert(vs.take(i + 1).last() == vs[i as int]);
        assert(vs[i as int] == nodes@[i as int]@);
        assert(syntax::fits(vs[i as int].node, src@.len() as int));
        if node.kind == NodeKind::CallExpression {
            if let Some(name) = call_target_name(src, node) {
                classify_call(src, rel, name.as_str(), node, out);
            }
        } else if node.kind == NodeKind::InitializerList {
            if let Some(e) = collect_property_descriptor(src, rel, node) {
                let ghost ev = e@;
                out.exports.push(e);
                assert(out@.exports =~= had.exports.push(ev));
            }
        }
        i += 1;
    }
    assert(vs.take(i as int) =~= vs);
}

/// Whether `after` is `before` with more exports behind it, all of them of the
/// file `rel`.
pub open spec fn only_adds(before: Seq<JsExportView>, after: Seq<JsExportView>, rel: Seq<char>) -> bool {
    &&& before.len() <= after.len()
    &&& after.take(before.len() as int) == before
    &&& forall|i: int|
        before.len() <= i < after.len() ==> (#[trigger] after[i]).relative_path == rel
}

/// Visited nodes add exports of the file that is scanned.
proof fn lemma_nodes_only_add(
    src: Seq<u8>,
    rel: Seq<char>,
    before: ScanView,
    vs: Seq<VisitView>,
)
    ensures
        only_adds(before.exports, after_nodes(src, rel, before, vs).exports, rel),
    decreases vs.len(),
{
    if vs.len() == 0 {
        assert(before.exports.take(before.exports.len() as int) =~= before.exports);
    } else {
        let had = after_nodes(src, rel, before, vs.drop_last()).exports;
        let all = after_nodes(src, rel, before, vs).exports;
        lemma_nodes_only_add(src, rel, before, vs.drop_last());
        assert(all == had || all == had.push(all.last()) && all.last().relative_path == rel);
        assert forall|i: int| 0 <= i < before.exports.len() implies all[i] == before.exports[i] by {
            assert(had.take(before.exports.len() as int)[i] == had[i]);
        }
        assert(all.take(before.exports.len() as int) =~= before.exports);
        assert forall|i: int| before.exports.len() <= i < all.len() implies (
        #[trigger] all[i]).relative_path == rel by {
            if i < had.len() {
                assert(all[i] == had[i]);
            }
        }
    }
}

/// A scan leaves the exports that were found before as they are, and adds
/// exports of the scanned file behind them.
pub proof fn law_scan_only_adds(src: Seq<u8>, rel: Seq<char>, before: ScanView, tree: NodeView)
    ensures
        only_adds(before.exports, after_source(src, rel, before, tree).exports, rel),
{
    lemma_nodes_only_add(src, rel, before, syntax::visits(tree, None));
}

/// Whether a text can register JavaScript names: most files in a source tree
/// are neither addons nor use their interfaces.
pub open spec fn mentions_node(text: Seq<char>) -> bool {
    ||| text::first_index(text, "napi_"@) is Some
    ||| text::first_index(text, "NODE_"@) is Some
    ||| text::first_index(text, "NAPI_"@) is Some
    ||| text::first_index(text, "Nan::"@) is Some
    ||| text::first_index(text, "Napi::"@) is Some
}

/// Records the registrations of the file at `path`, whose contents are
/// `text`, under the path `rel`. Nothing is recorded if the text mentions no
/// addon interface or has no syntax tree.
pub fn scan_file(text: &str, path: &str, rel: &str, out: &mut ScanResult) -> (r: Result<
    (),
    SyntaxError,
>)
    ensures
        ({
            let cpp = paths::cpp_source(path@);
            &&& r is Err <==> mentions_node(text@) && syntax::is_refused(text@, cpp)
            &&& (!mentions_node(text@) || !syntax::has_syntax(text@, cpp)) ==> final(out)@ == old(
                out,
            )@
            &&& mentions_node(text@) && syntax::has_syntax(text@, cpp) ==> final(out)@
                == after_source(
                encode_utf8(text@),
                rel@,
                old(out)@,
                syntax::syntax_of(text@, cpp),
            )
        }),
        only_adds(old(out)@.exports, final(out)@.exports, rel@),
{
    proof {
        assert(out@.exports.take(out@.exports.len() as int) =~= out@.exports);
    }
    let chars = text::chars_of(text);
    if !text::contains(&chars, "napi_") && !text::contains(&chars, "NODE_") && !text::contains(
        &chars,
        "NAPI_",
    ) && !text::contains(&chars, "Nan::") && !text::contains(&chars, "Napi::") {
        return Ok(());
    }
    match syntax::parse_source(text, paths::is_cpp_source(path)) {
        Err(e) => Err(e),
        Ok(None) => Ok(()),
        Ok(Some(tree)) => {
            proof {
                law_scan_only_adds(encode_utf8(text@), rel@, out@, tree@);
            }
            scan_tree(text.as_bytes(), rel, &tree, out);
            Ok(())
        },
    }
}

} // verus!
