//! What the Ruby scanner finds in calls and assignments of given shapes.

use crate::c_ruby::scan;
use crate::c_ruby::scan::{Binding, RubyExportKind, RubyExportView, RubyVisitView, StateView};
use crate::shape;
use crate::shape::{ends_in, has_none, is_first, is_last, names, quotes, reads};
use crate::syntax;
use crate::syntax::{NodeKind, NodeView};
use crate::text;
use crate::c_ruby;
use crate::companion;
use crate::companion_laws;
use crate::index;
use crate::lookup;
use crate::symbol;
use crate::symbol::{DescriptorView, Suffix};
use crate::symbol_laws;
use crate::text_laws;
use crate::paths;
use vstd::prelude::*;
use vstd::utf8::*;

verus! {

/// Whether a node counts as an argument.
pub open spec fn is_argument(node: NodeView) -> bool {
    node.named && node.kind != NodeKind::Comment
}

/// Whether a node calls the function `f` with the arguments `args`: what
/// stands in its first argument list and is named and no comment.
pub open spec fn calls(src: Seq<u8>, call: NodeView, f: Seq<char>, args: Seq<NodeView>) -> bool {
    &&& call.kind == NodeKind::CallExpression
    &&& call.children.len() > 0
    &&& names(src, call.children[0], f)
    &&& exists|i: int| #[trigger] lists_arguments(call.children, i, args)
}

/// Whether the node at `i` is the first argument list, and holds `args`.
pub open spec fn lists_arguments(nodes: Seq<NodeView>, i: int, args: Seq<NodeView>) -> bool {
    &&& 0 <= i < nodes.len()
    &&& nodes[i].is_arguments
    &&& forall|j: int| 0 <= j < i ==> !(#[trigger] nodes[j]).is_arguments
    &&& nodes[i].children.filter(|n: NodeView| is_argument(n)) == args
}

/// The arguments are those that count.
proof fn lemma_named_nodes(nodes: Seq<NodeView>)
    ensures
        scan::named_nodes(nodes) == nodes.filter(|n: NodeView| is_argument(n)),
    decreases nodes.len(),
{
    reveal(Seq::filter);
    if nodes.len() > 0 {
        lemma_named_nodes(nodes.drop_last());
    }
}

/// The function and the arguments of a call are read off it.
pub proof fn law_call_is_read(src: Seq<u8>, call: NodeView, f: Seq<char>, args: Seq<NodeView>)
    requires
        calls(src, call, f, args),
    ensures
        scan::callee_name(src, call) == Some(f),
        scan::arguments(call) == args,
{
    let i = choose|i: int| #[trigger] lists_arguments(call.children, i, args);
    shape::law_first_arguments(call.children, i);
    shape::law_text_is_read(src, call.children[0], f);
    lemma_named_nodes(call.children[i].children);
}

/// Whether `name` is last bound to `value`.
pub open spec fn is_bound(vars: Seq<Binding>, name: Seq<char>, value: Seq<char>) -> bool {
    exists|k: int|
        0 <= k < vars.len() && (#[trigger] vars[k]).0 == name && vars[k].1 == value && forall|j: int|
            k < j < vars.len() ==> (#[trigger] vars[j]).0 != name
}

/// Whether `name` is bound to nothing.
pub open spec fn is_unbound(vars: Seq<Binding>, name: Seq<char>) -> bool {
    forall|j: int| 0 <= j < vars.len() ==> (#[trigger] vars[j]).0 != name
}

/// A variable stands for what was last assigned to it.
pub proof fn law_last_binding(vars: Seq<Binding>, name: Seq<char>, value: Seq<char>)
    ensures
        is_bound(vars, name, value) ==> scan::bound(vars, name) == Some(value),
        is_unbound(vars, name) ==> scan::bound(vars, name) is None,
    decreases vars.len(),
{
    if vars.len() > 0 {
        let front = vars.drop_last();
        law_last_binding(front, name, value);
        if is_bound(vars, name, value) {
            let k = choose|k: int|
                0 <= k < vars.len() && (#[trigger] vars[k]).0 == name && vars[k].1 == value
                    && forall|j: int| k < j < vars.len() ==> (#[trigger] vars[j]).0 != name;
            if k < vars.len() - 1 {
                assert(vars[vars.len() - 1].0 != name);
                assert(front[k] == vars[k]);
                assert forall|j: int| k < j < front.len() implies (#[trigger] front[j]).0 != name by {
                    assert(front[j] == vars[j]);
                }
                assert(is_bound(front, name, value));
            }
        }
        if is_unbound(vars, name) {
            assert(vars[vars.len() - 1].0 != name);
            assert forall|j: int| 0 <= j < front.len() implies (#[trigger] front[j]).0 != name by {
                assert(front[j] == vars[j]);
            }
        }
    }
}

/// Whether a function of the Ruby C API defines a module or class.
pub open spec fn defines(f: Seq<char>, kind: RubyExportKind, under: bool) -> bool {
    ||| f == "rb_define_module"@ && kind == RubyExportKind::Module && !under
    ||| f == "rb_define_module_under"@ && kind == RubyExportKind::Module && under
    ||| f == "rb_define_class"@ && kind == RubyExportKind::Class && !under
    ||| f == "rb_define_class_under"@ && kind == RubyExportKind::Class && under
}

/// Whether a function of the Ruby C API registers a method of a receiver.
pub open spec fn registers(f: Seq<char>, kind: RubyExportKind) -> bool {
    ||| f == "rb_define_method"@ && kind == RubyExportKind::Method
    ||| f == "rb_define_private_method"@ && kind == RubyExportKind::Method
    ||| f == "rb_define_protected_method"@ && kind == RubyExportKind::Method
    ||| f == "rb_define_module_function"@ && kind == RubyExportKind::SingletonMethod
    ||| f == "rb_define_singleton_method"@ && kind == RubyExportKind::SingletonMethod
}

/// The functions of the Ruby C API have names of their own.
proof fn lemma_words(f: Seq<char>, kind: RubyExportKind, under: bool)
    ensures
        defines(f, kind, under) ==> scan::definer(f) == Some((kind, under)),
        registers(f, kind) ==> scan::definer(f) is None && scan::registrar(f) == Some((kind, true)),
        f == "rb_define_global_function"@ ==> scan::definer(f) is None && scan::registrar(f)
            == Some((RubyExportKind::Method, false)),
{
    reveal_strlit("rb_define_module");
    reveal_strlit("rb_define_module_under");
    reveal_strlit("rb_define_class");
    reveal_strlit("rb_define_class_under");
    reveal_strlit("rb_define_method");
    reveal_strlit("rb_define_private_method");
    reveal_strlit("rb_define_protected_method");
    reveal_strlit("rb_define_module_function");
    reveal_strlit("rb_define_singleton_method");
    reveal_strlit("rb_define_global_function");
    assert("rb_define_module"@.len() == 16);
    assert("rb_define_module_under"@.len() == 22);
    assert("rb_define_class"@.len() == 15);
    assert("rb_define_class_under"@.len() == 21);
    assert("rb_define_method"@.len() == 16);
    assert("rb_define_private_method"@.len() == 24);
    assert("rb_define_protected_method"@.len() == 26);
    assert("rb_define_module_function"@.len() == 25);
    assert("rb_define_singleton_method"@.len() == 26);
    assert("rb_define_global_function"@.len() == 25);
    assert("rb_define_method"@[11] == 'e' && "rb_define_module"@[11] == 'o');
    assert("rb_define_protected_method"@[10] == 'p' && "rb_define_singleton_method"@[10] == 's');
    assert("rb_define_module_function"@[10] == 'm' && "rb_define_global_function"@[10] == 'g');
}

/// A call to any other function defines and registers nothing.
pub proof fn law_other_calls(
    src: Seq<u8>,
    rel: Seq<char>,
    vars: Seq<Binding>,
    call: NodeView,
    f: Seq<char>,
    args: Seq<NodeView>,
    init: Option<Seq<char>>,
)
    requires
        calls(src, call, f, args),
        f != "rb_define_global_function"@,
        forall|kind: RubyExportKind, under: bool| !defines(f, kind, under),
        forall|kind: RubyExportKind| !registers(f, kind),
    ensures
        scan::call_export(src, rel, vars, call, init) is None,
{
    law_call_is_read(src, call, f, args);
    assert(!defines(f, RubyExportKind::Module, false));
    assert(!defines(f, RubyExportKind::Module, true));
    assert(!defines(f, RubyExportKind::Class, false));
    assert(!defines(f, RubyExportKind::Class, true));
    assert(!registers(f, RubyExportKind::Method));
    assert(!registers(f, RubyExportKind::SingletonMethod));
}

/// Whether a receiver expression stands for the namespace `p`: a variable that
/// is bound to it; an unbound name that says so by convention, or else says
/// only itself; or a call that would bind a variable to it. A call that defines
/// nothing is taken for a name.
pub open spec fn stands_for(src: Seq<u8>, vars: Seq<Binding>, node: NodeView, p: Seq<char>) -> bool {
    if node.kind == NodeKind::CallExpression && scan::defined_by(src, vars, node) is Some {
        assigns(src, vars, node, p)
    } else {
        exists|v: Seq<char>| #[trigger]
            reads(src, node, v) && {
                ||| is_bound(vars, v, p)
                ||| is_unbound(vars, v) && {
                    ||| is_conventional(v, p)
                    ||| p == v && forall|q: Seq<char>| !is_conventional(v, q)
                }
            }
    }
}

/// Whether an identifier is `p` with a prefix: an optional `rb_`, and then `c`,
/// `m` or `e`.
pub open spec fn is_conventional(v: Seq<char>, p: Seq<char>) -> bool {
    &&& p.len() > 0
    &&& scan::uppercase(p[0])
    &&& {
        ||| v == "rb_c"@ + p
        ||| v == "rb_m"@ + p
        ||| v == "rb_e"@ + p
        ||| v == "c"@ + p
        ||| v == "m"@ + p
        ||| v == "e"@ + p
    }
}

/// Whether a call defines the module or class `n` at the top level.
pub open spec fn defines_top(
    src: Seq<u8>,
    call: NodeView,
    f: Seq<char>,
    args: Seq<NodeView>,
    kind: RubyExportKind,
    n: Seq<char>,
) -> bool {
    &&& calls(src, call, f, args)
    &&& defines(f, kind, false)
    &&& args.len() > 0
    &&& quotes(src, args[0], n)
}

/// A name by convention gives the Ruby name.
pub proof fn law_convention(v: Seq<char>, p: Seq<char>)
    ensures
        is_conventional(v, p) ==> scan::conventional(v) == Some(p),
        (forall|q: Seq<char>| !is_conventional(v, q)) ==> scan::conventional(v) is None,
{
    reveal_strlit("rb_");
    reveal_strlit("rb_c");
    reveal_strlit("rb_m");
    reveal_strlit("rb_e");
    reveal_strlit("c");
    reveal_strlit("m");
    reveal_strlit("e");
    let long = "rb_c"@ + p == v || "rb_m"@ + p == v || "rb_e"@ + p == v;
    if is_conventional(v, p) {
        if long {
            assert(v.take(3) =~= "rb_"@);
            assert(v.skip(3).skip(1) =~= p);
            assert(v.skip(3)[1] == p[0]);
        } else {
            assert(v[0] != 'r');
            if text::has_prefix(v, "rb_"@) {
                assert(v.take(3)[0] == v[0]);
            }
            assert(v.skip(1) =~= p);
        }
    }
    if scan::conventional(v) is Some {
        let q = scan::conventional(v).unwrap();
        if text::has_prefix(v, "rb_"@) {
            let short = v.skip(3);
            assert(q == short.skip(1));
            assert(q[0] == short[1]);
            assert(v =~= v.take(3) + short);
            if short[0] == 'c' {
                assert(v =~= "rb_c"@ + q);
            } else if short[0] == 'm' {
                assert(v =~= "rb_m"@ + q);
            } else {
                assert(v =~= "rb_e"@ + q);
            }
        } else {
            assert(q[0] == v[1]);
            if v[0] == 'c' {
                assert(v =~= "c"@ + q);
            } else if v[0] == 'm' {
                assert(v =~= "m"@ + q);
            } else {
                assert(v =~= "e"@ + q);
            }
        }
        assert(is_conventional(v, q));
    }
}

/// A receiver is the namespace that it stands for.
pub proof fn law_receiver(src: Seq<u8>, vars: Seq<Binding>, node: NodeView, p: Seq<char>)
    requires
        stands_for(src, vars, node, p),
    ensures
        scan::receiver(src, vars, node) == p,
{
    if node.kind != NodeKind::CallExpression || scan::defined_by(src, vars, node) is None {
        let v = choose|v: Seq<char>| #[trigger]
            reads(src, node, v) && {
                ||| is_bound(vars, v, p)
                ||| is_unbound(vars, v) && {
                    ||| is_conventional(v, p)
                    ||| p == v && forall|q: Seq<char>| !is_conventional(v, q)
                }
            };
        shape::law_text_is_read(src, node, v);
        law_last_binding(vars, v, p);
        law_convention(v, p);
    }
}

/// The C name of a definition is that of the `Init_*` function around it.
pub open spec fn init_name(init: Option<Seq<char>>) -> Seq<char> {
    match init {
        Some(name) => name,
        None => Seq::empty(),
    }
}

/// A call to `rb_define_module_under` or `rb_define_class_under` exports the
/// module or class that its second argument names, in the namespace that its
/// first stands for.
pub proof fn law_defined_under(
    src: Seq<u8>,
    rel: Seq<char>,
    vars: Seq<Binding>,
    call: NodeView,
    f: Seq<char>,
    args: Seq<NodeView>,
    kind: RubyExportKind,
    p: Seq<char>,
    n: Seq<char>,
    init: Option<Seq<char>>,
)
    requires
        calls(src, call, f, args),
        defines(f, kind, true),
        args.len() > 1,
        stands_for(src, vars, args[0], p),
        quotes(src, args[1], n),
    ensures
        scan::call_export(src, rel, vars, call, init) == Some(
            RubyExportView {
                relative_path: rel,
                namespace: p,
                ruby_name: n,
                c_name: init_name(init),
                kind,
                name_span: (
                    args[1].row as u32,
                    (args[1].column + 1) as u32,
                    (args[1].column + 1 + encode_utf8(n).len()) as u32,
                ),
            },
        ),
        p.len() > 0 ==> assigns(src, vars, call, p + "::"@ + n),
        p.len() == 0 ==> assigns(src, vars, call, n),
{
    law_call_is_read(src, call, f, args);
    lemma_words(f, kind, true);
    law_receiver(src, vars, args[0], p);
    shape::law_literal_is_quoted(src, args[1], n);
}

/// Whether assigning a call to a variable binds the variable to `q`.
pub open spec fn assigns(src: Seq<u8>, vars: Seq<Binding>, call: NodeView, q: Seq<char>) -> bool {
    scan::defined_by(src, vars, call) matches Some(d) && scan::qualified(d) == q
}

/// A call to `rb_define_module` or `rb_define_class` exports the module or
/// class that its first argument names, in no namespace.
pub proof fn law_defined_at_top(
    src: Seq<u8>,
    rel: Seq<char>,
    vars: Seq<Binding>,
    call: NodeView,
    f: Seq<char>,
    args: Seq<NodeView>,
    kind: RubyExportKind,
    n: Seq<char>,
    init: Option<Seq<char>>,
)
    requires
        defines_top(src, call, f, args, kind, n),
    ensures
        scan::call_export(src, rel, vars, call, init) == Some(
            RubyExportView {
                relative_path: rel,
                namespace: Seq::empty(),
                ruby_name: n,
                c_name: init_name(init),
                kind,
                name_span: (
                    args[0].row as u32,
                    (args[0].column + 1) as u32,
                    (args[0].column + 1 + encode_utf8(n).len()) as u32,
                ),
            },
        ),
        assigns(src, vars, call, n),
{
    law_call_is_read(src, call, f, args);
    lemma_words(f, kind, false);
    shape::law_literal_is_quoted(src, args[0], n);
}

/// A call that registers a method exports the name in its second argument, in
/// the namespace that its first stands for, with the last identifier of its
/// third as C function.
pub proof fn law_registered_on_receiver(
    src: Seq<u8>,
    rel: Seq<char>,
    vars: Seq<Binding>,
    call: NodeView,
    f: Seq<char>,
    args: Seq<NodeView>,
    kind: RubyExportKind,
    p: Seq<char>,
    n: Seq<char>,
    k: int,
    c: Seq<char>,
    init: Option<Seq<char>>,
)
    requires
        calls(src, call, f, args),
        registers(f, kind),
        args.len() > 2,
        stands_for(src, vars, args[0], p),
        quotes(src, args[1], n),
        ends_in(src, args[2], k, c),
    ensures
        scan::call_export(src, rel, vars, call, init) == Some(
            RubyExportView {
                relative_path: rel,
                namespace: p,
                ruby_name: n,
                c_name: c,
                kind,
                name_span: (
                    args[1].row as u32,
                    (args[1].column + 1) as u32,
                    (args[1].column + 1 + encode_utf8(n).len()) as u32,
                ),
            },
        ),
{
    law_call_is_read(src, call, f, args);
    lemma_words(f, kind, true);
    law_receiver(src, vars, args[0], p);
    shape::law_literal_is_quoted(src, args[1], n);
    shape::law_last_identifier(src, args[2], k, c);
}

/// A global function is a method of `Kernel`: its name is the first argument,
/// its C function the last identifier of the second.
pub proof fn law_global_function(
    src: Seq<u8>,
    rel: Seq<char>,
    vars: Seq<Binding>,
    call: NodeView,
    args: Seq<NodeView>,
    n: Seq<char>,
    k: int,
    c: Seq<char>,
    init: Option<Seq<char>>,
)
    requires
        calls(src, call, "rb_define_global_function"@, args),
        args.len() > 1,
        quotes(src, args[0], n),
        ends_in(src, args[1], k, c),
    ensures
        scan::call_export(src, rel, vars, call, init) == Some(
            RubyExportView {
                relative_path: rel,
                namespace: "Kernel"@,
                ruby_name: n,
                c_name: c,
                kind: RubyExportKind::Method,
                name_span: (
                    args[0].row as u32,
                    (args[0].column + 1) as u32,
                    (args[0].column + 1 + encode_utf8(n).len()) as u32,
                ),
            },
        ),
{
    law_call_is_read(src, call, "rb_define_global_function"@, args);
    lemma_words("rb_define_global_function"@, RubyExportKind::Method, false);
    shape::law_literal_is_quoted(src, args[0], n);
    shape::law_last_identifier(src, args[1], k, c);
}

/// A call whose name is no string literal, or that has no such argument,
/// exports nothing.
pub proof fn law_unnamed_call(
    src: Seq<u8>,
    rel: Seq<char>,
    vars: Seq<Binding>,
    call: NodeView,
    f: Seq<char>,
    args: Seq<NodeView>,
    kind: RubyExportKind,
    under: bool,
    init: Option<Seq<char>>,
)
    requires
        calls(src, call, f, args),
        ({
            let at = if under {
                1int
            } else {
                0int
            };
            args.len() <= at || args[at].kind != NodeKind::StringLiteral
        }),
        ({
            ||| defines(f, kind, under)
            ||| registers(f, kind) && under
            ||| f == "rb_define_global_function"@ && !under
        }),
    ensures
        scan::call_export(src, rel, vars, call, init) is None,
{
    law_call_is_read(src, call, f, args);
    lemma_words(f, kind, under);
    reveal_strlit("rb_define_module");
    reveal_strlit("rb_define_module_under");
    reveal_strlit("rb_define_class");
    reveal_strlit("rb_define_class_under");
    reveal_strlit("rb_define_method");
    reveal_strlit("rb_define_private_method");
    reveal_strlit("rb_define_protected_method");
    reveal_strlit("rb_define_module_function");
    reveal_strlit("rb_define_singleton_method");
    reveal_strlit("rb_define_global_function");
    assert("rb_define_method"@[11] == 'e' && "rb_define_module"@[11] == 'o');
}

/// A visited call that makes an export adds it behind the others; one that
/// makes none changes nothing. The variables stay as they are.
pub proof fn law_calls_add_exports(
    src: Seq<u8>,
    rel: Seq<char>,
    before: StateView,
    v: RubyVisitView,
    init: Option<Seq<char>>,
)
    requires
        v.node.kind == NodeKind::CallExpression,
        v.init matches Some(ident) ==> init is Some && reads(src, ident, init.unwrap()),
        v.init is None ==> init is None,
    ensures
        ({
            let after = scan::after_node(src, rel, before, v);
            &&& after.vars == before.vars
            &&& match scan::call_export(src, rel, before.vars, v.node, init) {
                Some(e) => after.exports == before.exports.push(e),
                None => after.exports == before.exports,
            }
        }),
{
    if let Some(ident) = v.init {
        shape::law_text_is_read(src, ident, init.unwrap());
    }
}

/// A declaration or assignment whose last call defines a module or class binds
/// its first identifier to the qualified name, and adds no export.
pub proof fn law_assignments_bind(
    src: Seq<u8>,
    rel: Seq<char>,
    before: StateView,
    v: RubyVisitView,
    i: int,
    var: Seq<char>,
    c: int,
    q: Seq<char>,
)
    requires
        v.node.kind == NodeKind::InitDeclarator || v.node.kind == NodeKind::AssignmentExpression,
        is_first(v.node.children, i, NodeKind::Identifier),
        reads(src, v.node.children[i], var),
        is_last(v.node.children, c, NodeKind::CallExpression),
        assigns(src, before.vars, v.node.children[c], q),
    ensures
        ({
            let after = scan::after_node(src, rel, before, v);
            &&& after.exports == before.exports
            &&& after.vars == before.vars.push((var, q))
            &&& is_bound(after.vars, var, q)
        }),
{
    shape::law_first_child(v.node.children, i, NodeKind::Identifier);
    shape::law_text_is_read(src, v.node.children[i], var);
    lemma_last_of_kind(v.node.children, c, NodeKind::CallExpression);
    let after = scan::after_node(src, rel, before, v);
    assert(after.vars[before.vars.len() as int] == (var, q));
}

/// The last node of a kind is the one that no other follows.
proof fn lemma_last_of_kind(nodes: Seq<NodeView>, c: int, kind: NodeKind)
    ensures
        is_last(nodes, c, kind) ==> scan::last_of_kind(nodes, kind) == Some(nodes[c]),
        has_none(nodes, kind) ==> scan::last_of_kind(nodes, kind) is None,
    decreases nodes.len(),
{
    if nodes.len() > 0 {
        let front = nodes.drop_last();
        lemma_last_of_kind(front, c, kind);
        if is_last(nodes, c, kind) && c < nodes.len() - 1 {
            assert(nodes[nodes.len() - 1].kind != kind);
            assert forall|j: int| c < j < front.len() implies (#[trigger] front[j]).kind != kind by {
                assert(front[j] == nodes[j]);
            }
        }
        if has_none(nodes, kind) {
            assert(nodes[nodes.len() - 1].kind != kind);
            assert forall|j: int| 0 <= j < front.len() implies (#[trigger] front[j]).kind != kind by {
                assert(front[j] == nodes[j]);
            }
        }
    }
}

/// Other nodes, and assignments without a call, change nothing.
pub proof fn law_others_change_nothing(
    src: Seq<u8>,
    rel: Seq<char>,
    before: StateView,
    v: RubyVisitView,
)
    requires
        v.node.kind != NodeKind::CallExpression,
        v.node.kind == NodeKind::InitDeclarator || v.node.kind == NodeKind::AssignmentExpression
            ==> has_none(v.node.children, NodeKind::CallExpression),
    ensures
        scan::after_node(src, rel, before, v) == before,
{
    lemma_last_of_kind(v.node.children, 0, NodeKind::CallExpression);
}

/// The nodes of a source are taken one after the other, each with what the
/// ones before it left.
pub proof fn law_nodes_in_turn(
    src: Seq<u8>,
    rel: Seq<char>,
    before: StateView,
    a: Seq<RubyVisitView>,
    b: Seq<RubyVisitView>,
    v: RubyVisitView,
)
    ensures
        scan::after_nodes(src, rel, before, a + b) == scan::after_nodes(
            src,
            rel,
            scan::after_nodes(src, rel, before, a),
            b,
        ),
        scan::after_nodes(src, rel, before, seq![v]) == scan::after_node(src, rel, before, v),
    decreases b.len(),
{
    assert(seq![v].drop_last() =~= Seq::empty());
    assert(scan::after_nodes(src, rel, before, seq![v].drop_last()) == before);
    if b.len() == 0 {
        assert(a + b =~= a);
    } else {
        law_nodes_in_turn(src, rel, before, a, b.drop_last(), v);
        assert((a + b).drop_last() =~= a + b.drop_last());
        assert((a + b).last() == b.last());
    }
}

/// A source is scanned from nothing: its exports are those that its nodes
/// leave, in the order in which a tree is visited.
pub proof fn law_source_is_scanned(
    src: Seq<u8>,
    rel: Seq<char>,
    tree: NodeView,
    vs: Seq<RubyVisitView>,
)
    requires
        vs == scan::ruby_visits(src, tree, None),
    ensures
        ({
            let nothing = StateView { vars: Seq::empty(), exports: Seq::empty() };
            scan::ruby_exports(src, rel, tree) == scan::after_nodes(src, rel, nothing, vs).exports
        }),
        vs.len() == syntax::visits(tree, None).len(),
        forall|k: int|
            0 <= k < vs.len() ==> (#[trigger] vs[k]).node == syntax::visits(tree, None)[k].node,
{
    lemma_same_nodes(src, tree, None, None);
}

/// The Ruby scanner visits the nodes of a tree, in order.
proof fn lemma_same_nodes(
    src: Seq<u8>,
    node: NodeView,
    init: Option<NodeView>,
    parent: Option<NodeKind>,
)
    ensures
        ({
            let (vs, ws) = (scan::ruby_visits(src, node, init), syntax::visits(node, parent));
            &&& vs.len() == ws.len()
            &&& forall|k: int| 0 <= k < vs.len() ==> (#[trigger] vs[k]).node == ws[k].node
        }),
    decreases node, 1int,
{
    lemma_same_nodes_all(src, node.children, scan::inner_init(src, node, init), node.kind);
}

/// The same of siblings.
proof fn lemma_same_nodes_all(
    src: Seq<u8>,
    nodes: Seq<NodeView>,
    init: Option<NodeView>,
    parent: NodeKind,
)
    ensures
        ({
            let (vs, ws) = (
                scan::ruby_visits_all(src, nodes, init),
                syntax::visits_all(nodes, parent),
            );
            &&& vs.len() == ws.len()
            &&& forall|k: int| 0 <= k < vs.len() ==> (#[trigger] vs[k]).node == ws[k].node
        }),
    decreases nodes, 0int,
{
    if nodes.len() > 0 {
        assert(decreases_to!(nodes => nodes.drop_last()));
        assert(decreases_to!(nodes => nodes[nodes.len() - 1]));
        lemma_same_nodes_all(src, nodes.drop_last(), init, parent);
        lemma_same_nodes(src, nodes.last(), init, Some(parent));
    }
}

/// Whether a node is a function whose declarator names `f`.
pub open spec fn is_function(
    src: Seq<u8>,
    node: NodeView,
    d: int,
    i: int,
    f: Seq<char>,
) -> bool {
    &&& node.kind == NodeKind::FunctionDefinition
    &&& is_first(node.children, d, NodeKind::FunctionDeclarator)
    &&& is_first(node.children[d].children, i, NodeKind::Identifier)
    &&& reads(src, node.children[d].children[i], f)
}

/// What stands in a function `Init_*` is visited with that function around it,
/// and what stands in any other node with what is around the node.
pub proof fn law_init_functions(
    src: Seq<u8>,
    node: NodeView,
    init: Option<NodeView>,
    d: int,
    i: int,
    rest: Seq<char>,
)
    ensures
        is_function(src, node, d, i, "Init_"@ + rest) ==> scan::inner_init(src, node, init) == Some(
            node.children[d].children[i],
        ),
        is_function(src, node, d, i, rest) && !text::has_prefix(rest, "Init_"@)
            ==> scan::inner_init(src, node, init) == init,
        node.kind != NodeKind::FunctionDefinition ==> scan::inner_init(src, node, init) == init,
        scan::ruby_visits(src, node, init).len() > 0,
        scan::ruby_visits(src, node, init)[0] == (RubyVisitView {
            node,
            init: scan::inner_init(src, node, init),
        }),
        node.children.len() == 1 ==> scan::ruby_visits(src, node, init).skip(1)
            == scan::ruby_visits(src, node.children[0], scan::inner_init(src, node, init)),
{
    let name = "Init_"@ + rest;
    reveal_strlit("Init_");
    if is_function(src, node, d, i, name) {
        shape::law_first_child(node.children, d, NodeKind::FunctionDeclarator);
        shape::law_first_child(node.children[d].children, i, NodeKind::Identifier);
        shape::law_text_is_read(src, node.children[d].children[i], name);
        assert(name.take(5) =~= "Init_"@);
    }
    if is_function(src, node, d, i, rest) && !text::has_prefix(rest, "Init_"@) {
        shape::law_first_child(node.children, d, NodeKind::FunctionDeclarator);
        shape::law_first_child(node.children[d].children, i, NodeKind::Identifier);
        shape::law_text_is_read(src, node.children[d].children[i], rest);
    }
    if node.children.len() == 1 {
        let inner = scan::inner_init(src, node, init);
        assert(node.children.drop_last() =~= Seq::empty());
        assert(scan::ruby_visits_all(src, node.children.drop_last(), inner) =~= Seq::empty());
        assert(scan::ruby_visits(src, node, init).skip(1) =~= scan::ruby_visits(
            src,
            node.children[0],
            inner,
        ));
    }
}

/// Siblings are visited with the same function around them.
pub proof fn law_siblings_share_init(
    src: Seq<u8>,
    a: Seq<NodeView>,
    b: Seq<NodeView>,
    init: Option<NodeView>,
)
    ensures
        scan::ruby_visits_all(src, a + b, init) == scan::ruby_visits_all(src, a, init)
            + scan::ruby_visits_all(src, b, init),
    decreases b.len(),
{
    if b.len() == 0 {
        assert(a + b =~= a);
    } else {
        law_siblings_share_init(src, a, b.drop_last(), init);
        assert((a + b).drop_last() =~= a + b.drop_last());
        assert((a + b).last() == b.last());
        assert(scan::ruby_visits_all(src, a + b, init) =~= scan::ruby_visits_all(src, a, init)
            + scan::ruby_visits_all(src, b, init));
    }
}

/// A text in which a definition stands is read.
pub proof fn law_interface_words(a: Seq<char>, b: Seq<char>)
    ensures
        scan::mentions_ruby(a + "rb_define_"@ + b),
{
    shape::law_found_where_it_stands(a, "rb_define_"@, b);
}

/// A module that is defined under another and assigned to a variable is where
/// the methods go that are registered on that variable: the qualified name of
/// the outer module, `::`, and its own.
pub proof fn law_nested_module(
    src: Seq<u8>,
    rel: Seq<char>,
    before: StateView,
    bind: RubyVisitView,
    at: (int, int),
    var: Seq<char>,
    f: Seq<char>,
    args: Seq<NodeView>,
    kind: RubyExportKind,
    p: Seq<char>,
    n: Seq<char>,
    method: RubyVisitView,
    g: Seq<char>,
    margs: Seq<NodeView>,
    mkind: RubyExportKind,
    m: Seq<char>,
    k: int,
    c: Seq<char>,
)
    requires
        bind.node.kind == NodeKind::InitDeclarator || bind.node.kind
            == NodeKind::AssignmentExpression,
        is_first(bind.node.children, at.0, NodeKind::Identifier),
        reads(src, bind.node.children[at.0], var),
        is_last(bind.node.children, at.1, NodeKind::CallExpression),
        calls(src, bind.node.children[at.1], f, args),
        defines(f, kind, true),
        args.len() > 1,
        stands_for(src, before.vars, args[0], p),
        p.len() > 0,
        quotes(src, args[1], n),
        calls(src, method.node, g, margs),
        registers(g, mkind),
        margs.len() > 2,
        names(src, margs[0], var),
        quotes(src, margs[1], m),
        ends_in(src, margs[2], k, c),
        method.init is None,
    ensures
        ({
            let after = scan::after_nodes(src, rel, before, seq![bind, method]);
            let e = after.exports.last();
            &&& after.exports.len() == before.exports.len() + 1
            &&& e.namespace == p + "::"@ + n
            &&& e.ruby_name == m
            &&& e.c_name == c
            &&& e.kind == mkind
            &&& e.relative_path == rel
        }),
{
    let q = p + "::"@ + n;
    law_defined_under(
        src,
        rel,
        before.vars,
        bind.node.children[at.1],
        f,
        args,
        kind,
        p,
        n,
        None,
    );
    law_assignments_bind(src, rel, before, bind, at.0, var, at.1, q);
    let middle = scan::after_node(src, rel, before, bind);
    assert(stands_for(src, middle.vars, margs[0], q));
    law_registered_on_receiver(
        src,
        rel,
        middle.vars,
        method.node,
        g,
        margs,
        mkind,
        q,
        m,
        k,
        c,
        None,
    );
    law_calls_add_exports(src, rel, middle, method, None);
    law_nodes_in_turn(src, rel, before, seq![bind], seq![method], bind);
    law_nodes_in_turn(src, rel, middle, seq![bind], seq![method], method);
    assert(seq![bind] + seq![method] =~= seq![bind, method]);
}

/// Descriptors of one kind.
pub open spec fn all_of(parts: Seq<Seq<char>>, suffix: Suffix) -> Seq<DescriptorView> {
    Seq::new(parts.len(), |i: int| DescriptorView { name: parts[i], suffix })
}

/// The symbol of a Ruby name: the parts of its namespace as types, and then the
/// name itself, a method or a type, under the gem and its version.
pub proof fn law_ruby_symbols(
    gem: Seq<char>,
    version: Seq<char>,
    parts: Seq<Seq<char>>,
    name: Seq<char>,
    is_method: bool,
)
    requires
        forall|i: int| 0 <= i < parts.len() ==> symbol_laws::is_plain_name(#[trigger] parts[i]),
        symbol_laws::is_plain_name(name),
    ensures
        c_ruby::name_symbol(gem, version, text_laws::joined_by(parts, "::"@), name, is_method)
            == "scip-ruby"@ + seq![' '] + "gem"@ + seq![' '] + symbol_laws::dotted(gem) + seq![' ']
            + symbol_laws::dotted(version) + seq![' '] + symbol_laws::written(
            all_of(parts, Suffix::Type).push(
                DescriptorView {
                    name,
                    suffix: if is_method {
                        Suffix::Method
                    } else {
                        Suffix::Type
                    },
                },
            ),
        ),
{
    reveal_strlit("::");
    reveal_strlit("gem");
    let suffix = if is_method {
        Suffix::Method
    } else {
        Suffix::Type
    };
    let ds = all_of(parts, Suffix::Type).push(DescriptorView { name, suffix });
    let pieces = text::nonempty(text::split_text(text_laws::joined_by(parts, "::"@), "::"@));
    if parts.len() == 0 {
        let none = Seq::<char>::empty();
        text_laws::law_split(none, "::"@, none);
        text_laws::law_nonempty(Seq::empty(), Seq::empty(), none);
        assert(pieces =~= parts);
    } else {
        assert forall|i: int| 0 <= i < parts.len() implies !(#[trigger] parts[i]).contains(
            "::"@[0],
        ) && parts[i].len() > 0 by {
            assert(symbol_laws::is_plain_name(parts[i]));
            if parts[i].contains(':') {
                let k = parts[i].index_of(':');
                assert(symbol_laws::is_plain_char(parts[i][k]));
            }
        }
        text_laws::law_split_joined(parts, "::"@);
        text_laws::law_nonempty(parts, Seq::empty(), Seq::empty());
    }
    assert(symbol::named(pieces, Suffix::Type) =~= all_of(parts, Suffix::Type));
    assert forall|i: int| 0 <= i < ds.len() implies symbol_laws::is_plain_name(
        (#[trigger] ds[i]).name,
    ) by {
        if i < parts.len() {
            assert(symbol_laws::is_plain_name(parts[i]));
        }
    }
    let p = c_ruby::package_view(gem, version);
    assert(symbol_laws::dotted(p.manager) == "gem"@);
    symbol_laws::law_symbols_are_written(p, ds);
}

/// A companion holds every export, in the document of its file, under its Ruby
/// name and as what it is, and linked to the first C symbol of the input index
/// with its C name, if it has one and there is one.
pub proof fn law_companion_holds_exports(
    input: index::IndexView,
    gem: Seq<char>,
    version: Seq<char>,
    exports: Seq<RubyExportView>,
    m: int,
)
    requires
        0 <= m < exports.len(),
    ensures
        ({
            let out = c_ruby::ruby_companion(input, gem, version, exports);
            let e = exports[m];
            let native = if e.c_name.len() > 0 {
                lookup::least_symbol(lookup::c_entries(input.documents), e.c_name)
            } else {
                None
            };
            &&& out.metadata.tool_name == "scip-c-ruby-augment"@
            &&& out.metadata.project_root == input.metadata.project_root
            &&& exists|d: int, i: int|
                0 <= d < out.documents.len() && 0 <= i < out.documents[d].symbols.len() && ({
                    let s = #[trigger] out.documents[d].symbols[i];
                    &&& out.documents[d].relative_path == e.relative_path
                    &&& out.documents[d].language == "Ruby"@
                    &&& s.symbol == c_ruby::name_symbol(
                        gem,
                        version,
                        e.namespace,
                        e.ruby_name,
                        e.kind == RubyExportKind::Method || e.kind
                            == RubyExportKind::SingletonMethod,
                    )
                    &&& s.display_name == e.ruby_name
                    &&& e.kind == RubyExportKind::Module ==> s.kind == 29
                    &&& e.kind == RubyExportKind::Class ==> s.kind == 7
                    &&& e.kind == RubyExportKind::Method ==> s.kind == 26
                    &&& e.kind == RubyExportKind::SingletonMethod ==> s.kind == 80
                    &&& native is None ==> s.relationships.len() == 0
                    &&& native matches Some(symbol) ==> s.relationships.len() == 1
                        && s.relationships[0].symbol == symbol
                })
        }),
{
    let out = c_ruby::ruby_companion(input, gem, version, exports);
    let c_entries = lookup::c_entries(input.documents);
    let es = exports.map_values(
        |e: RubyExportView| c_ruby::export_emission(gem, version, c_entries, e),
    );
    assert(es[m] == c_ruby::export_emission(gem, version, c_entries, exports[m]));
    companion::law_documents_cover("Ruby"@, es);
    let d = choose|d: int|
        0 <= d < out.documents.len() && (#[trigger] out.documents[d]).relative_path == es[m].path
            && out.documents[d].symbols.contains(companion::emitted_symbol(es[m]));
    let path = companion::emitted_paths(es)[d];
    companion::law_document_symbols("Ruby"@, path, es, es[m]);
    let i = out.documents[d].symbols.index_of(companion::emitted_symbol(es[m]));
    assert(out.documents[d].symbols[i] == companion::emitted_symbol(es[m]));
}

/// A line of a gem specification that assigns a string to an attribute gives
/// the attribute that string, whatever object the attribute is of.
pub proof fn law_gemspec_line(
    blank: (Seq<char>, Seq<char>, Seq<char>),
    object: Seq<char>,
    attr: Seq<char>,
    quote: char,
    value: Seq<char>,
    rest: Seq<char>,
)
    requires
        text_laws::is_blank(blank.0),
        text_laws::is_blank(blank.1),
        text_laws::is_blank(blank.2),
        object.len() > 0,
        !text::white_space(object[0]),
        !object.contains('.'),
        quote == '"' || quote == '\'',
        value.len() > 0,
        !value.contains(quote),
        rest.len() > 0 ==> !text::white_space(rest.last()),
    ensures
        c_ruby::line_value(
            blank.0 + (object + ("."@ + attr) + (blank.1 + (seq!['='] + (blank.2 + (seq![quote] + (
            value + (seq![quote] + rest))))))),
            "."@ + attr,
        ) == Some(value),
{
    reveal_strlit(".");
    reveal_strlit("=");
    let needle = "."@ + attr;
    let tail = value + (seq![quote] + rest);
    let quoted = seq![quote] + tail;
    let spaced = blank.2 + quoted;
    let assigned = seq!['='] + spaced;
    let after = blank.1 + assigned;
    let core = object + needle + after;
    let line = blank.0 + core;
    assert(core.last() == quote || core.last() == rest.last());
    assert(line =~= blank.0 + core + Seq::<char>::empty());
    assert(core[0] == object[0]);
    text_laws::law_trimmed(blank.0, core, Seq::empty());
    let n = object.len() as int;
    text::lemma_first_index(core, needle);
    assert(core.skip(n).take(needle.len() as int) =~= needle);
    assert(text::has_prefix(core.skip(n), needle));
    match text::first_index(core, needle) {
        Some(i) => {
            if i > n {
                assert(!text::has_prefix(core.skip(n), needle));
            } else if i < n {
                assert(core.subrange(i, i + needle.len())[0] == core[i]);
                assert(object.contains(object[i]));
                assert(needle[0] == '.');
            }
        },
        None => {},
    }
    assert(core.skip(n + needle.len()) =~= after);
    text_laws::law_trimmed_start(blank.1, assigned);
    assert(assigned.take(1) =~= "="@);
    assert(assigned.skip(1) =~= spaced);
    text_laws::law_trimmed_start(blank.2, quoted);
    assert(quoted.skip(1) =~= tail);
    symbol_laws::lemma_before(value, seq![quote] + rest, quote);
}

/// The first line of a gem specification that gives an attribute a value
/// counts.
pub proof fn law_first_line_counts(
    lines: Seq<Seq<char>>,
    needle: Seq<char>,
    k: int,
    value: Seq<char>,
)
    ensures
        0 <= k < lines.len() && c_ruby::line_value(lines[k], needle) == Some(value) && (forall|j: int|
            0 <= j < k ==> c_ruby::line_value(#[trigger] lines[j], needle) is None)
            ==> c_ruby::lines_value(lines, needle) == Some(value),
        (forall|j: int|
            0 <= j < lines.len() ==> c_ruby::line_value(#[trigger] lines[j], needle) is None)
            ==> c_ruby::lines_value(lines, needle) is None,
    decreases lines.len(),
{
    if lines.len() > 0 {
        let rest = lines.skip(1);
        law_first_line_counts(rest, needle, k - 1, value);
        if 0 < k < lines.len() && forall|j: int|
            0 <= j < k ==> c_ruby::line_value(#[trigger] lines[j], needle) is None {
            assert(c_ruby::line_value(lines[0], needle) is None);
            assert forall|j: int| 0 <= j < k - 1 implies c_ruby::line_value(
                #[trigger] rest[j],
                needle,
            ) is None by {
                assert(rest[j] == lines[j + 1]);
            }
        }
        if forall|j: int|
            0 <= j < lines.len() ==> c_ruby::line_value(#[trigger] lines[j], needle) is None {
            assert(c_ruby::line_value(lines[0], needle) is None);
            assert forall|j: int| 0 <= j < rest.len() implies c_ruby::line_value(
                #[trigger] rest[j],
                needle,
            ) is None by {
                assert(rest[j] == lines[j + 1]);
            }
        }
    }
}

/// The attributes of a gem specification are those of its lines; the version of
/// a gem is the one given, else that of its specification, else the first of the
/// index that is no placeholder, else `0.0.0`.
pub proof fn law_chosen_gem(
    doc: &str,
    attr: Seq<char>,
    given: Option<Seq<char>>,
    docs: Seq<index::DocumentView>,
)
    ensures
        c_ruby::opt_attr(Some(doc), attr) == c_ruby::lines_value(
            text::lines_of(doc@),
            "."@ + attr,
        ),
        c_ruby::opt_attr(None, attr) is None,
        given matches Some(v) ==> c_ruby::chosen_version(given, Some(doc), docs) == v,
        given is None ==> match c_ruby::opt_attr(Some(doc), "version"@) {
            Some(v) => c_ruby::chosen_version(given, Some(doc), docs) == v,
            None => c_ruby::chosen_version(given, Some(doc), docs) == c_ruby::chosen_version(
                given,
                None,
                docs,
            ),
        },
        given is None ==> match companion::first_version(docs, true, true) {
            Some(v) => c_ruby::chosen_version(given, None, docs) == v,
            None => c_ruby::chosen_version(given, None, docs) == "0.0.0"@,
        },
{
}

/// A companion is written if there are exports and a gem is given or named by
/// its specification, and only then.
pub proof fn law_outcome(
    r: (companion::AugmentOutcome, Option<Vec<u8>>),
    input: index::IndexView,
    found: Seq<RubyExportView>,
    opts: c_ruby::AugmentOptions,
    gemspec: Option<&str>,
)
    requires
        c_ruby::is_augmented(r, input, found, opts, gemspec),
    ensures
        (r.0 is Written) <==> found.len() > 0 && (opts.ruby_gem is Some || c_ruby::opt_attr(
            gemspec,
            "name"@,
        ) is Some),
        (r.1 is Some) <==> r.0 is Written,
        r.0 matches companion::AugmentOutcome::Written(stats) ==> stats.exports == found.len(),
{
}

/// A scan of a file adds what the scanner finds in the tree that the parser
/// gives for its text, as C++ if its extension says so and as C if not, under the given path. A text
/// without the words of the interface, and one without a tree, adds nothing.
pub proof fn law_scan_file(
    text: &str,
    path: &str,
    rel: &str,
    out: &mut scan::ScanResult,
    r: Result<(), syntax::SyntaxError>,
)
    requires
        call_ensures(scan::scan_file, (text, path, rel, out), r),
    ensures
        ({
            let cpp = paths::cpp_source(path@);
            &&& scan::mentions_ruby(text@) && syntax::has_syntax(text@, cpp) ==> final(out)@ == old(out)@
                + scan::ruby_exports(encode_utf8(text@), rel@, syntax::syntax_of(text@, cpp))
            &&& !scan::mentions_ruby(text@) ==> final(out)@ == old(out)@ && r is Ok
            &&& !syntax::has_syntax(text@, cpp) ==> final(out)@ == old(out)@
        }),
{
}

/// An augmentation with a package and a version given writes the companion of
/// the index for the exports, if there are any, and counts them. Bytes that are
/// no index are refused.
pub proof fn law_augment_file(
    input: &[u8],
    found: &scan::ScanResult,
    opts: &c_ruby::AugmentOptions,
    doc: Option<&str>,
    r: Result<(companion::AugmentOutcome, Option<Vec<u8>>), index::IndexError>,
    m: index::IndexView,
    package: String,
    version: String,
)
    requires
        call_ensures(c_ruby::augment_file, (input, found, opts, doc), r),
    ensures
        index::index_message(input@) is None ==> r is Err,
        index::index_message(input@) == Some(m) && opts.ruby_gem == Some(package)
            && opts.ruby_version == Some(version) && found@.len() > 0 ==> ({
            let out = c_ruby::ruby_companion(index::read_part(m), package@, version@, found@);
            &&& r matches Ok(done)
            &&& done.0 matches companion::AugmentOutcome::Written(stats)
            &&& stats.exports == found@.len()
            &&& stats.documents == out.documents.len()
            &&& done.1 matches Some(bytes)
            &&& (bytes@.len() <= i32::MAX ==> index::index_message(bytes@) == Some(out))
        }),
{
}

/// Directories of build outputs, dependencies and hidden ones are not searched.
pub proof fn law_skipped_directories(name: &str, r: bool)
    requires
        call_ensures(c_ruby::is_hidden_or_build, (name,), r),
    ensures
        r <==> (name@ == "tmp"@ || name@ == "vendor"@ || name@ == "build"@ || name@ == "target"@ || (
        name@.len() > 0 && name@[0] == '.')),
{
    reveal_strlit(".");
    if name@.len() > 0 {
        assert(name@.take(1)[0] == name@[0]);
        if name@[0] == '.' {
            assert(name@.take(1) =~= "."@);
        }
    }
}

/// The gem specification of a directory is the first of its files with the
/// extension `gemspec`, in the order of their names.
pub proof fn law_first_gemspec(names: &Vec<String>, r: Option<String>)
    requires
        call_ensures(c_ruby::pick_gemspec, (names,), r),
    ensures
        r matches Some(name) ==> {
            &&& paths::extension_of(name@) == Some("gemspec"@)
            &&& text::strings_view(names@).contains(name@)
            &&& forall|i: int|
                0 <= i < names@.len() && paths::extension_of((#[trigger] names@[i])@) == Some(
                    "gemspec"@,
                ) ==> !text::precedes(names@[i]@, name@)
        },
{
}

/// A companion defines every export where its name stands in the source.
pub proof fn law_exports_are_placed(
    input: index::IndexView,
    gem: Seq<char>,
    version: Seq<char>,
    exports: Seq<RubyExportView>,
    m: int,
)
    requires
        0 <= m < exports.len(),
    ensures
        companion_laws::is_defined_at(
            c_ruby::ruby_companion(input, gem, version, exports).documents,
            exports[m].relative_path,
            c_ruby::name_symbol(
                gem,
                version,
                exports[m].namespace,
                exports[m].ruby_name,
                exports[m].kind == RubyExportKind::Method || exports[m].kind
                    == RubyExportKind::SingletonMethod,
            ),
            companion_laws::on_line(exports[m].name_span),
        ),
{
    let c_entries = lookup::c_entries(input.documents);
    let es = exports.map_values(
        |e: RubyExportView| c_ruby::export_emission(gem, version, c_entries, e),
    );
    assert(es[m] == c_ruby::export_emission(gem, version, c_entries, exports[m]));
    companion_laws::law_placed("Ruby"@, es, m, companion_laws::on_line(exports[m].name_span));
}

} // verus!
