//! What the addon scanner finds in calls and initialisers of given shapes.

use crate::node_addon::scan;
use crate::node_addon::scan::{JsExportKind, JsExportView, ScanView};
use crate::shape;
use crate::shape::{is_first, names, quotes, reads};
use crate::symbol;
use crate::syntax;
use crate::syntax::{NodeKind, NodeView, VisitView};
use crate::text;
use crate::companion;
use crate::companion_laws;
use crate::index;
use crate::jni::span;
use crate::lookup;
use crate::node_addon;
use crate::paths;
use crate::symbol::{DescriptorView, Suffix};
use crate::symbol_laws;
use crate::text_laws;
use vstd::prelude::*;
use vstd::utf8::*;

verus! {

/// Whether a node is punctuation between arguments.
pub open spec fn is_punctuation(node: NodeView) -> bool {
    ||| node.kind == NodeKind::OpenParen
    ||| node.kind == NodeKind::CloseParen
    ||| node.kind == NodeKind::Comma
}

/// Whether a node calls the function `f`, written so, with the arguments
/// `args`.
pub open spec fn calls(
    src: Seq<u8>,
    call: NodeView,
    t: int,
    f: Seq<char>,
    l: int,
    args: Seq<NodeView>,
) -> bool {
    &&& call.kind == NodeKind::CallExpression
    &&& 0 <= t < call.children.len()
    &&& call.children[t].kind != NodeKind::ArgumentList
    &&& forall|j: int| 0 <= j < t ==> (#[trigger] call.children[j]).kind == NodeKind::ArgumentList
    &&& reads(src, call.children[t], f)
    &&& is_first(call.children, l, NodeKind::ArgumentList)
    &&& call.children[l].children.filter(|n: NodeView| !is_punctuation(n)) == args
}

/// The arguments are what is no punctuation.
proof fn lemma_without_punctuation(nodes: Seq<NodeView>)
    ensures
        scan::without_punctuation(nodes) == nodes.filter(|n: NodeView| !is_punctuation(n)),
    decreases nodes.len(),
{
    reveal(Seq::filter);
    if nodes.len() > 0 {
        lemma_without_punctuation(nodes.drop_last());
    }
}

/// What is called is the first node that is no argument list.
proof fn lemma_first_target(src: Seq<u8>, nodes: Seq<NodeView>, t: int, f: Seq<char>)
    requires
        0 <= t < nodes.len(),
        nodes[t].kind != NodeKind::ArgumentList,
        forall|j: int| 0 <= j < t ==> (#[trigger] nodes[j]).kind == NodeKind::ArgumentList,
        reads(src, nodes[t], f),
    ensures
        scan::first_target(src, nodes) == Some(f),
    decreases nodes.len(),
{
    if t == 0 {
        shape::law_text_is_read(src, nodes[0], f);
    } else {
        let rest = nodes.skip(1);
        assert(nodes[0].kind == NodeKind::ArgumentList);
        assert forall|j: int| 0 <= j < t - 1 implies (#[trigger] rest[j]).kind
            == NodeKind::ArgumentList by {
            assert(rest[j] == nodes[j + 1]);
        }
        lemma_first_target(src, rest, t - 1, f);
    }
}

/// The function and the arguments of a call are read off it.
pub proof fn law_call_is_read(
    src: Seq<u8>,
    call: NodeView,
    t: int,
    f: Seq<char>,
    l: int,
    args: Seq<NodeView>,
)
    requires
        calls(src, call, t, f, l, args),
    ensures
        scan::first_target(src, call.children) == Some(f),
        scan::arguments(call) == args,
{
    lemma_first_target(src, call.children, t, f);
    shape::law_first_child(call.children, l, NodeKind::ArgumentList);
    lemma_without_punctuation(call.children[l].children);
}

/// Whether `f` is `bare` with template arguments, if any: `bare` holds no `<`
/// and has no white space at its ends.
pub open spec fn is_instance(f: Seq<char>, bare: Seq<char>) -> bool {
    &&& !bare.contains('<')
    &&& bare.len() > 0 ==> !text::white_space(bare[0]) && !text::white_space(bare.last())
    &&& f == bare || exists|rest: Seq<char>| f == bare + #[trigger] (seq!['<'] + rest)
}

/// Template arguments do not matter to the name of a function.
pub proof fn law_template_arguments(f: Seq<char>, bare: Seq<char>)
    requires
        is_instance(f, bare),
    ensures
        scan::bare_name(f) == bare,
{
    lemma_before(f, bare);
    lemma_untrimmed(bare);
}

/// What stands before the first `<`.
proof fn lemma_before(f: Seq<char>, bare: Seq<char>)
    requires
        !bare.contains('<'),
        f == bare || exists|rest: Seq<char>| f == bare + #[trigger] (seq!['<'] + rest),
    ensures
        symbol::before_char(f, '<') == bare,
    decreases bare.len(),
{
    if bare.len() == 0 {
        if f != bare {
            let rest = choose|rest: Seq<char>| f == bare + #[trigger] (seq!['<'] + rest);
            assert(f[0] == '<');
        }
        assert(symbol::before_char(f, '<') =~= bare);
    } else {
        assert(bare.contains(bare[0]));
        let (g, less) = (f.skip(1), bare.skip(1));
        assert(f[0] == bare[0]);
        if f == bare {
            assert(g == less);
        } else {
            let rest = choose|rest: Seq<char>| f == bare + #[trigger] (seq!['<'] + rest);
            assert(g =~= less + (seq!['<'] + rest));
        }
        assert forall|i: int| 0 <= i < less.len() implies less[i] != '<' by {
            assert(bare.contains(bare[i + 1]));
        }
        lemma_before(g, less);
        assert(seq![f[0]] + less =~= bare);
    }
}

/// A text without white space at its ends is trimmed.
proof fn lemma_untrimmed(s: Seq<char>)
    requires
        s.len() > 0 ==> !text::white_space(s[0]) && !text::white_space(s.last()),
    ensures
        text::trimmed(s) == s,
{
}

/// A callback is the name that a node is, or else the last name in it.
pub open spec fn passes(src: Seq<u8>, node: NodeView, c: Seq<char>) -> bool {
    if is_name(node.kind) {
        reads(src, node, c)
    } else {
        exists|k: int| #[trigger] is_last_name(syntax::visits(node, None), k) && reads(
            src,
            syntax::visits(node, None)[k].node,
            c,
        )
    }
}

/// Whether a kind of node is a name.
pub open spec fn is_name(kind: NodeKind) -> bool {
    kind == NodeKind::Identifier || kind == NodeKind::QualifiedIdentifier || kind
        == NodeKind::FieldIdentifier
}

/// Whether the visit at `k` is the last of a name.
pub open spec fn is_last_name(vs: Seq<VisitView>, k: int) -> bool {
    &&& 0 <= k < vs.len()
    &&& is_name(vs[k].node.kind)
    &&& forall|j: int| k < j < vs.len() ==> !is_name((#[trigger] vs[j]).node.kind)
}

/// The last name among visits.
proof fn lemma_last_name(src: Seq<u8>, vs: Seq<VisitView>, k: int)
    requires
        is_last_name(vs, k),
    ensures
        scan::last_name(src, vs) == syntax::node_text(src, vs[k].node),
    decreases vs.len(),
{
    if k < vs.len() - 1 {
        let front = vs.drop_last();
        assert(!is_name(vs[vs.len() - 1].node.kind));
        assert forall|j: int| k < j < front.len() implies !is_name(
            (#[trigger] front[j]).node.kind,
        ) by {
            assert(front[j] == vs[j]);
        }
        lemma_last_name(src, front, k);
    }
}

/// The C function that an argument passes is its name, or the last name in it.
pub proof fn law_callback(src: Seq<u8>, node: NodeView, c: Seq<char>)
    requires
        passes(src, node, c),
    ensures
        scan::callback(src, node) == c,
{
    if is_name(node.kind) {
        shape::law_text_is_read(src, node, c);
    } else {
        let vs = syntax::visits(node, None);
        let k = choose|k: int| #[trigger] is_last_name(vs, k) && reads(src, vs[k].node, c);
        lemma_last_name(src, vs, k);
        shape::law_text_is_read(src, vs[k].node, c);
    }
}

/// A string literal has its contents as value, and no other node has one.
pub proof fn law_string_value(src: Seq<u8>, node: NodeView, n: Seq<char>)
    ensures
        quotes(src, node, n) ==> scan::string_value(src, node) == Some(n),
        node.kind != NodeKind::StringLiteral ==> scan::string_value(src, node) is None,
{
    if quotes(src, node, n) {
        shape::law_literal_is_quoted(src, node, n);
        encode_utf8_valid_utf8(seq!['"'] + n + seq!['"']);
    }
}

/// Whether `after` is `before` with one more export: of the JavaScript name
/// `n`, which the literal `lit` holds, and the C function `c`.
pub open spec fn adds(
    before: ScanView,
    after: ScanView,
    rel: Seq<char>,
    lit: NodeView,
    n: Seq<char>,
    c: Seq<char>,
    kind: JsExportKind,
) -> bool {
    &&& after.module_name == before.module_name
    &&& after.module_init == before.module_init
    &&& after.exports == before.exports.push(
        JsExportView {
            relative_path: rel,
            js_name: n,
            c_name: c,
            kind,
            name_span: (
                lit.row as u32,
                (lit.column + 1) as u32,
                (lit.column + 1 + encode_utf8(n).len()) as u32,
            ),
        },
    )
}

/// The functions that register, and the place of the name among their
/// arguments, that of the C function and what is registered.
pub open spec fn registers(bare: Seq<char>, name: int, function: int, kind: JsExportKind) -> bool {
    ||| bare == "napi_create_function"@ && name == 1 && function == 3 && kind
        == JsExportKind::Function
    ||| bare == "napi_set_named_property"@ && name == 2 && function == 3 && kind
        == JsExportKind::Function
    ||| bare == "Nan::SetMethod"@ && name == 1 && function == 2 && kind == JsExportKind::Function
    ||| bare == "Nan::Export"@ && name == 1 && function == 2 && kind == JsExportKind::Function
    ||| bare == "NODE_SET_METHOD"@ && name == 1 && function == 2 && kind == JsExportKind::Function
    ||| bare == "Nan::SetPrototypeMethod"@ && name == 1 && function == 2 && kind
        == JsExportKind::Method
    ||| bare == "NODE_SET_PROTOTYPE_METHOD"@ && name == 1 && function == 2 && kind
        == JsExportKind::Method
}

/// The functions of the addon interfaces have names of their own.
proof fn lemma_words(bare: Seq<char>, name: int, function: int, kind: JsExportKind)
    requires
        registers(bare, name, function, kind),
    ensures
        !scan::is_module_macro(bare),
        scan::is_nan_call(bare) == (function == 2),
        scan::is_prototype_call(bare) == (kind == JsExportKind::Method),
        function == 3 && name == 1 ==> bare == "napi_create_function"@ && bare
            != "napi_set_named_property"@,
        function == 3 && name == 2 ==> bare == "napi_set_named_property"@,
{
    reveal_strlit("NAPI_MODULE");
    reveal_strlit("NODE_MODULE");
    reveal_strlit("napi_create_function");
    reveal_strlit("napi_set_named_property");
    reveal_strlit("Nan::SetMethod");
    reveal_strlit("Nan::Export");
    reveal_strlit("NODE_SET_METHOD");
    reveal_strlit("Nan::SetPrototypeMethod");
    reveal_strlit("NODE_SET_PROTOTYPE_METHOD");
    assert("NAPI_MODULE"@.len() == 11);
    assert("NODE_MODULE"@.len() == 11);
    assert("napi_create_function"@.len() == 20);
    assert("napi_set_named_property"@.len() == 23);
    assert("Nan::SetMethod"@.len() == 14);
    assert("Nan::Export"@.len() == 11);
    assert("NODE_SET_METHOD"@.len() == 15);
    assert("Nan::SetPrototypeMethod"@.len() == 23);
    assert("NODE_SET_PROTOTYPE_METHOD"@.len() == 25);
    assert("NODE_MODULE"@[1] == 'O' && "NAPI_MODULE"@[1] == 'A');
    assert("Nan::Export"@[1] == 'a' && "NAPI_MODULE"@[1] == 'A');
    assert("Nan::Export"@[1] == 'a' && "NODE_MODULE"@[1] == 'O');
    assert("Nan::SetPrototypeMethod"@[0] == 'N' && "napi_set_named_property"@[0] == 'n');
}

/// A call that registers adds one export: the JavaScript name is the string in
/// one argument, the C function what another passes, whatever the other
/// arguments are. Where the function is not to be empty, it has to have a name.
pub proof fn law_call_registers(
    src: Seq<u8>,
    rel: Seq<char>,
    before: ScanView,
    call: NodeView,
    t: int,
    f: Seq<char>,
    l: int,
    args: Seq<NodeView>,
    bare: Seq<char>,
    name: int,
    function: int,
    kind: JsExportKind,
    n: Seq<char>,
    c: Seq<char>,
)
    requires
        calls(src, call, t, f, l, args),
        is_instance(f, bare),
        registers(bare, name, function, kind),
        args.len() > function,
        quotes(src, args[name], n),
        passes(src, args[function], c),
        c.len() > 0,
    ensures
        adds(before, scan::after_node(src, rel, before, call), rel, args[name], n, c, kind),
{
    law_call_is_read(src, call, t, f, l, args);
    law_template_arguments(f, bare);
    lemma_words(bare, name, function, kind);
    law_string_value(src, args[name], n);
    shape::law_literal_is_quoted(src, args[name], n);
    law_callback(src, args[function], c);
}

/// A call that registers, but has too few arguments or no string for a name,
/// adds nothing.
pub proof fn law_call_without_name(
    src: Seq<u8>,
    rel: Seq<char>,
    before: ScanView,
    call: NodeView,
    t: int,
    f: Seq<char>,
    l: int,
    args: Seq<NodeView>,
    bare: Seq<char>,
    name: int,
    function: int,
    kind: JsExportKind,
)
    requires
        calls(src, call, t, f, l, args),
        is_instance(f, bare),
        registers(bare, name, function, kind),
        args.len() <= function || args[name].kind != NodeKind::StringLiteral,
    ensures
        scan::after_node(src, rel, before, call) == before,
{
    law_call_is_read(src, call, t, f, l, args);
    law_template_arguments(f, bare);
    lemma_words(bare, name, function, kind);
    if args.len() > function {
        law_string_value(src, args[name], Seq::empty());
    }
}

/// Setting a property of an object to a wrapped function registers the
/// function under the property's name.
pub proof fn law_set_registers(
    src: Seq<u8>,
    rel: Seq<char>,
    before: ScanView,
    call: NodeView,
    t: int,
    f: Seq<char>,
    object: Seq<char>,
    arrow: bool,
    l: int,
    args: Seq<NodeView>,
    n: Seq<char>,
    wt: int,
    w: Seq<char>,
    wl: int,
    wargs: Seq<NodeView>,
    c: Seq<char>,
)
    requires
        calls(src, call, t, f, l, args),
        f == object + (if arrow {
            "->Set"@
        } else {
            ".Set"@
        }),
        forall|bare: Seq<char>, name: int, function: int, kind: JsExportKind| #[trigger]
            registers(bare, name, function, kind) ==> scan::bare_name(f) != bare,
        scan::bare_name(f) != "NAPI_MODULE"@,
        scan::bare_name(f) != "NODE_MODULE"@,
        args.len() == 2,
        quotes(src, args[0], n),
        calls(src, args[1], wt, w, wl, wargs),
        is_instance(w, "Napi::Function::New"@),
        wargs.len() >= 2,
        passes(src, wargs[1], c),
        c.len() > 0,
    ensures
        adds(
            before,
            scan::after_node(src, rel, before, call),
            rel,
            args[0],
            n,
            c,
            JsExportKind::Function,
        ),
{
    law_call_is_read(src, call, t, f, l, args);
    law_call_is_read(src, args[1], wt, w, wl, wargs);
    law_template_arguments(w, "Napi::Function::New"@);
    law_callback(src, wargs[1], c);
    law_string_value(src, args[0], n);
    shape::law_literal_is_quoted(src, args[0], n);
    let bare = scan::bare_name(f);
    assert(!registers(bare, 1, 3, JsExportKind::Function));
    assert(!registers(bare, 2, 3, JsExportKind::Function));
    assert(!registers(bare, 1, 2, JsExportKind::Function));
    assert(!registers(bare, 1, 2, JsExportKind::Method));
    reveal_strlit("->Set");
    reveal_strlit(".Set");
    let tail = if arrow {
        "->Set"@
    } else {
        ".Set"@
    };
    assert(f.skip(f.len() - tail.len()) =~= tail);
}

/// A call of a module macro records the module's name and its init function,
/// and adds no export.
pub proof fn law_module_macro(
    src: Seq<u8>,
    rel: Seq<char>,
    before: ScanView,
    call: NodeView,
    t: int,
    f: Seq<char>,
    l: int,
    args: Seq<NodeView>,
    module: Seq<char>,
    init: Seq<char>,
)
    requires
        calls(src, call, t, f, l, args),
        f == "NAPI_MODULE"@ || f == "NODE_MODULE"@,
        args.len() >= 2,
        reads(src, args[0], module),
        module.len() > 0,
        reads(src, args[1], init),
        init.len() > 0,
    ensures
        ({
            let after = scan::after_node(src, rel, before, call);
            &&& after.module_name == Some(module)
            &&& after.module_init == Some(init)
            &&& after.exports == before.exports
        }),
{
    law_call_is_read(src, call, t, f, l, args);
    reveal_strlit("NAPI_MODULE");
    reveal_strlit("NODE_MODULE");
    assert forall|i: int| 0 <= i < f.len() implies f[i] != '<' by {}
    law_template_arguments(f, f);
    shape::law_text_is_read(src, args[0], module);
    shape::law_text_is_read(src, args[1], init);
}

/// A call of any other function adds nothing.
pub proof fn law_other_calls(
    src: Seq<u8>,
    rel: Seq<char>,
    before: ScanView,
    call: NodeView,
    t: int,
    f: Seq<char>,
    l: int,
    args: Seq<NodeView>,
    bare: Seq<char>,
)
    requires
        calls(src, call, t, f, l, args),
        is_instance(f, bare),
        forall|name: int, function: int, kind: JsExportKind| !registers(bare, name, function, kind),
        bare != "NAPI_MODULE"@,
        bare != "NODE_MODULE"@,
        !text::has_suffix(f, ".Set"@),
        !text::has_suffix(f, "->Set"@),
    ensures
        scan::after_node(src, rel, before, call) == before,
{
    law_call_is_read(src, call, t, f, l, args);
    law_template_arguments(f, bare);
    assert(!registers(bare, 1, 3, JsExportKind::Function));
    assert(!registers(bare, 2, 3, JsExportKind::Function));
    assert(!registers(bare, 1, 2, JsExportKind::Function));
    assert(!registers(bare, 1, 2, JsExportKind::Method));
}

/// Nodes that are neither calls nor initialisers add nothing.
pub proof fn law_others_add_nothing(
    src: Seq<u8>,
    rel: Seq<char>,
    before: ScanView,
    node: NodeView,
)
    requires
        node.kind != NodeKind::CallExpression,
        node.kind != NodeKind::InitializerList,
    ensures
        scan::after_node(src, rel, before, node) == before,
{
}

/// Whether a node of an initialiser says nothing of a property by its place:
/// it is no string, name or pair.
pub open spec fn is_silent(node: NodeView) -> bool {
    &&& node.kind != NodeKind::InitializerPair
    &&& node.kind != NodeKind::StringLiteral
    &&& node.kind != NodeKind::Identifier
    &&& node.kind != NodeKind::QualifiedIdentifier
}

/// What is known of a property after some nodes is kept by silent ones.
proof fn lemma_silent(src: Seq<u8>, a: Seq<NodeView>, b: Seq<NodeView>)
    requires
        forall|j: int| 0 <= j < b.len() ==> is_silent(#[trigger] b[j]),
    ensures
        scan::property_of(src, a + b) == scan::property_of(src, a),
    decreases b.len(),
{
    if b.len() == 0 {
        assert(a + b =~= a);
    } else {
        let front = b.drop_last();
        assert forall|j: int| 0 <= j < front.len() implies is_silent(#[trigger] front[j]) by {
            assert(front[j] == b[j]);
        }
        lemma_silent(src, a, front);
        assert(is_silent(b[b.len() - 1]));
        assert((a + b).drop_last() =~= a + front);
        assert((a + b).last() == b.last());
    }
}

/// Whether nodes behind the C function say nothing more: none is a pair.
pub open spec fn has_no_pairs(nodes: Seq<NodeView>) -> bool {
    forall|j: int|
        0 <= j < nodes.len() ==> (#[trigger] nodes[j]).kind != NodeKind::InitializerPair
}

/// A property with a name and a function keeps them, but for pairs.
proof fn lemma_settled(src: Seq<u8>, a: Seq<NodeView>, b: Seq<NodeView>)
    requires
        scan::property_of(src, a).name is Some,
        scan::property_of(src, a).c_name is Some,
        has_no_pairs(b),
    ensures
        scan::property_of(src, a + b) == scan::property_of(src, a),
    decreases b.len(),
{
    if b.len() == 0 {
        assert(a + b =~= a);
    } else {
        let front = b.drop_last();
        assert forall|j: int| 0 <= j < front.len() implies (#[trigger] front[j]).kind
            != NodeKind::InitializerPair by {
            assert(front[j] == b[j]);
        }
        lemma_settled(src, a, front);
        assert(b[b.len() - 1].kind != NodeKind::InitializerPair);
        assert((a + b).drop_last() =~= a + front);
        assert((a + b).last() == b.last());
    }
}

/// Whether nodes between the name and the function name no function: they are
/// silent, strings, or `NULL`.
pub open spec fn names_no_function(src: Seq<u8>, nodes: Seq<NodeView>) -> bool {
    forall|j: int|
        0 <= j < nodes.len() ==> {
            ||| is_silent(#[trigger] nodes[j])
            ||| nodes[j].kind == NodeKind::StringLiteral
            ||| names(src, nodes[j], "NULL"@)
        }
}

/// Such nodes change nothing once there is a name.
proof fn lemma_no_function(src: Seq<u8>, a: Seq<NodeView>, b: Seq<NodeView>)
    requires
        scan::property_of(src, a).name is Some,
        names_no_function(src, b),
    ensures
        scan::property_of(src, a + b) == scan::property_of(src, a),
    decreases b.len(),
{
    if b.len() == 0 {
        assert(a + b =~= a);
    } else {
        let front = b.drop_last();
        assert forall|j: int| 0 <= j < front.len() implies {
            ||| is_silent(#[trigger] front[j])
            ||| front[j].kind == NodeKind::StringLiteral
            ||| names(src, front[j], "NULL"@)
        } by {
            assert(front[j] == b[j]);
        }
        lemma_no_function(src, a, front);
        let node = b[b.len() - 1];
        if names(src, node, "NULL"@) {
            shape::law_text_is_read(src, node, "NULL"@);
        }
        assert((a + b).drop_last() =~= a + front);
        assert((a + b).last() == node);
    }
}

/// An initialiser that holds a string and behind it the name of a function is
/// a property descriptor: it exports the function under that string. Skipped
/// fields between them, and whatever stands behind them, do not matter.
pub proof fn law_positional_property(
    src: Seq<u8>,
    rel: Seq<char>,
    before: ScanView,
    list: NodeView,
    a: Seq<NodeView>,
    lit: NodeView,
    n: Seq<char>,
    b: Seq<NodeView>,
    function: NodeView,
    c: Seq<char>,
    d: Seq<NodeView>,
)
    requires
        list.kind == NodeKind::InitializerList,
        list.children == a + (seq![lit] + (b + (seq![function] + d))),
        forall|j: int| 0 <= j < a.len() ==> is_silent(#[trigger] a[j]),
        quotes(src, lit, n),
        names_no_function(src, b),
        function.kind == NodeKind::Identifier || function.kind == NodeKind::QualifiedIdentifier,
        reads(src, function, c),
        c.len() > 0,
        c != "NULL"@,
        has_no_pairs(d),
    ensures
        adds(
            before,
            scan::after_node(src, rel, before, list),
            rel,
            lit,
            n,
            c,
            JsExportKind::Function,
        ),
{
    let none = Seq::<NodeView>::empty();
    assert(none + a =~= a);
    lemma_silent(src, none, a);
    law_string_value(src, lit, n);
    shape::law_literal_is_quoted(src, lit, n);
    shape::law_text_is_read(src, function, c);
    let x = a + seq![lit];
    assert(x.drop_last() =~= a);
    lemma_no_function(src, x, b);
    let y = x + b + seq![function];
    assert(y.drop_last() =~= x + b);
    lemma_settled(src, y, d);
    assert(list.children =~= y + d);
}

/// An initialiser without a string, or one without a name behind it, exports
/// nothing, unless pairs say more.
pub proof fn law_no_property(
    src: Seq<u8>,
    rel: Seq<char>,
    before: ScanView,
    list: NodeView,
)
    requires
        list.kind == NodeKind::InitializerList,
        has_no_pairs(list.children),
        shape::has_none(list.children, NodeKind::StringLiteral) || names_no_function(
            src,
            list.children,
        ),
    ensures
        scan::after_node(src, rel, before, list) == before,
{
    lemma_no_property(src, list.children);
}

/// What such nodes say of a property is not enough.
proof fn lemma_no_property(src: Seq<u8>, nodes: Seq<NodeView>)
    requires
        has_no_pairs(nodes),
        shape::has_none(nodes, NodeKind::StringLiteral) || names_no_function(src, nodes),
    ensures
        shape::has_none(nodes, NodeKind::StringLiteral) ==> scan::property_of(src, nodes).name is None,
        names_no_function(src, nodes) ==> scan::property_of(src, nodes).c_name is None,
    decreases nodes.len(),
{
    if nodes.len() > 0 {
        let front = nodes.drop_last();
        let node = nodes[nodes.len() - 1];
        assert(node.kind != NodeKind::InitializerPair);
        assert forall|j: int| 0 <= j < front.len() implies (#[trigger] front[j]).kind
            != NodeKind::InitializerPair by {
            assert(front[j] == nodes[j]);
        }
        if shape::has_none(nodes, NodeKind::StringLiteral) {
            assert(node.kind != NodeKind::StringLiteral);
            assert forall|j: int| 0 <= j < front.len() implies (#[trigger] front[j]).kind
                != NodeKind::StringLiteral by {
                assert(front[j] == nodes[j]);
            }
        }
        if names_no_function(src, nodes) {
            assert forall|j: int| 0 <= j < front.len() implies {
                ||| is_silent(#[trigger] front[j])
                ||| front[j].kind == NodeKind::StringLiteral
                ||| names(src, front[j], "NULL"@)
            } by {
                assert(front[j] == nodes[j]);
            }
            if names(src, node, "NULL"@) {
                shape::law_text_is_read(src, node, "NULL"@);
            }
        }
        lemma_no_property(src, front);
    }
}

/// Whether a node is `.<field> = <value>`.
pub open spec fn is_pair(
    src: Seq<u8>,
    node: NodeView,
    field: Seq<char>,
    value: NodeView,
) -> bool {
    &&& node.kind == NodeKind::InitializerPair
    &&& node.children.len() == 3
    &&& node.children[0].kind == NodeKind::FieldDesignator
    &&& reads(src, node.children[0], "."@ + field)
    &&& field.len() > 0 ==> field[0] != '.'
    &&& node.children[1].kind == NodeKind::Equals
    &&& node.children[2] == value
    &&& value.kind != NodeKind::FieldDesignator
    &&& value.kind != NodeKind::Equals
    &&& !is_punctuation(value)
}

/// A designated pair gives its field and its value.
proof fn lemma_pair(src: Seq<u8>, node: NodeView, field: Seq<char>, value: NodeView)
    requires
        is_pair(src, node, field, value),
    ensures
        scan::pair_of(src, node.children).designator == Some(field),
        scan::pair_of(src, node.children).value == Some(value),
{
    let kids = node.children;
    let (one, two) = (kids.drop_last().drop_last(), kids.drop_last());
    assert(one.drop_last() =~= Seq::empty());
    assert(one.last() == kids[0]);
    assert(two.last() == kids[1]);
    shape::law_text_is_read(src, kids[0], "."@ + field);
    reveal_strlit(".");
    let dotted = "."@ + field;
    assert(dotted.skip(1) =~= field);
    assert("."@[0] == '.');
    assert("."@.contains(dotted[0]));
    assert(field.len() > 0 ==> !"."@.contains(field[0]));
    reveal_with_fuel(text::trimmed_start_of, 3);
    reveal_with_fuel(scan::pair_of, 4);
}

/// In a pair, signs and brackets do not matter, wherever they stand.
pub proof fn law_pair_signs(src: Seq<u8>, a: Seq<NodeView>, sign: NodeView, b: Seq<NodeView>)
    requires
        sign.kind == NodeKind::Equals || sign.kind == NodeKind::Comma || sign.kind
            == NodeKind::OpenParen || sign.kind == NodeKind::CloseParen,
    ensures
        scan::pair_of(src, a + seq![sign] + b) == scan::pair_of(src, a + b),
    decreases b.len(),
{
    let all = a + seq![sign] + b;
    if b.len() == 0 {
        assert(all.drop_last() =~= a);
        assert(all.last() == sign);
        assert(a + b =~= a);
    } else {
        law_pair_signs(src, a, sign, b.drop_last());
        assert(all.drop_last() =~= a + seq![sign] + b.drop_last());
        assert((a + b).drop_last() =~= a + b.drop_last());
        assert(all.last() == (a + b).last());
    }
}

/// A pair's value is the first node behind its designator, signs and brackets
/// aside; what stands before the designator is none, and what follows the value
/// does not replace it.
pub proof fn law_pair_value(src: Seq<u8>, a: Seq<NodeView>, v: NodeView)
    requires
        v.kind != NodeKind::FieldDesignator,
        v.kind != NodeKind::Equals,
        !is_punctuation(v),
    ensures
        scan::pair_of(src, a).designator is None ==> scan::pair_of(src, a.push(v))
            == scan::pair_of(src, a),
        scan::pair_of(src, a).value is Some ==> scan::pair_of(src, a.push(v)) == scan::pair_of(
            src,
            a,
        ),
        scan::pair_of(src, a).designator is Some && scan::pair_of(src, a).value is None
            ==> scan::pair_of(src, a.push(v)).value == Some(v),
        (forall|j: int| 0 <= j < a.len() ==> (#[trigger] a[j]).kind != NodeKind::FieldDesignator)
            ==> scan::pair_of(src, a).designator is None,
    decreases a.len(),
{
    assert(a.push(v).drop_last() =~= a);
    if a.len() > 0 && forall|j: int|
        0 <= j < a.len() ==> (#[trigger] a[j]).kind != NodeKind::FieldDesignator {
        let front = a.drop_last();
        assert(a[a.len() - 1].kind != NodeKind::FieldDesignator);
        assert forall|j: int| 0 <= j < front.len() implies (#[trigger] front[j]).kind
            != NodeKind::FieldDesignator by {
            assert(front[j] == a[j]);
        }
        law_pair_value(src, front, v);
    }
}

/// Fields that name a property's function.
pub open spec fn is_function_field(field: Seq<char>) -> bool {
    field == "method"@ || field == "value"@ || field == "getter"@
}

/// An initialiser of designated pairs exports the function of `.method`,
/// `.value` or `.getter` under the string of `.utf8name` or `.name`, whichever
/// comes first. Silent nodes between the pairs do not matter.
pub proof fn law_designated_property(
    src: Seq<u8>,
    rel: Seq<char>,
    before: ScanView,
    list: NodeView,
    a: Seq<NodeView>,
    first: NodeView,
    b: Seq<NodeView>,
    second: NodeView,
    c: Seq<NodeView>,
    name_first: bool,
    name_field: Seq<char>,
    lit: NodeView,
    n: Seq<char>,
    function_field: Seq<char>,
    value: NodeView,
    f: Seq<char>,
)
    requires
        list.kind == NodeKind::InitializerList,
        list.children == a + (seq![first] + (b + (seq![second] + c))),
        forall|j: int| 0 <= j < a.len() ==> is_silent(#[trigger] a[j]),
        forall|j: int| 0 <= j < b.len() ==> is_silent(#[trigger] b[j]),
        forall|j: int| 0 <= j < c.len() ==> is_silent(#[trigger] c[j]),
        name_field == "utf8name"@ || name_field == "name"@,
        is_function_field(function_field),
        is_pair(
            src,
            if name_first {
                first
            } else {
                second
            },
            name_field,
            lit,
        ),
        is_pair(
            src,
            if name_first {
                second
            } else {
                first
            },
            function_field,
            value,
        ),
        quotes(src, lit, n),
        passes(src, value, f),
        f.len() > 0,
    ensures
        adds(
            before,
            scan::after_node(src, rel, before, list),
            rel,
            lit,
            n,
            f,
            JsExportKind::Function,
        ),
{
    reveal_strlit("utf8name");
    reveal_strlit("name");
    reveal_strlit("method");
    reveal_strlit("value");
    reveal_strlit("getter");
    assert("name"@.len() == 4 && "utf8name"@.len() == 8);
    assert("method"@.len() == 6 && "value"@.len() == 5 && "getter"@.len() == 6);
    let (name, function) = if name_first {
        (first, second)
    } else {
        (second, first)
    };
    lemma_pair(src, name, name_field, lit);
    lemma_pair(src, function, function_field, value);
    law_string_value(src, lit, n);
    shape::law_literal_is_quoted(src, lit, n);
    law_callback(src, value, f);
    let none = Seq::<NodeView>::empty();
    assert(none + a =~= a);
    lemma_silent(src, none, a);
    let x = a + seq![first];
    assert(x.drop_last() =~= a);
    lemma_silent(src, x, b);
    let y = x + b + seq![second];
    assert(y.drop_last() =~= x + b);
    lemma_silent(src, y, c);
    assert(list.children =~= y + c);
}

/// The nodes of a source are taken one after the other, each with what the
/// ones before it left.
pub proof fn law_nodes_in_turn(
    src: Seq<u8>,
    rel: Seq<char>,
    before: ScanView,
    a: Seq<VisitView>,
    b: Seq<VisitView>,
    v: VisitView,
)
    ensures
        scan::after_nodes(src, rel, before, a + b) == scan::after_nodes(
            src,
            rel,
            scan::after_nodes(src, rel, before, a),
            b,
        ),
        scan::after_nodes(src, rel, before, seq![v]) == scan::after_node(src, rel, before, v.node),
        scan::after_nodes(src, rel, before, Seq::empty()) == before,
    decreases b.len(),
{
    assert(seq![v].drop_last() =~= Seq::empty());
    if b.len() == 0 {
        assert(a + b =~= a);
    } else {
        law_nodes_in_turn(src, rel, before, a, b.drop_last(), v);
        assert((a + b).drop_last() =~= a + b.drop_last());
        assert((a + b).last() == b.last());
    }
}

/// A source is scanned node by node, in the order in which a tree is visited.
pub proof fn law_source_is_scanned(
    src: Seq<u8>,
    rel: Seq<char>,
    before: ScanView,
    tree: NodeView,
    vs: Seq<VisitView>,
)
    requires
        vs == syntax::visits(tree, None),
    ensures
        scan::after_source(src, rel, before, tree) == scan::after_nodes(src, rel, before, vs),
{
}

/// A text in which a word of an addon interface stands is read.
pub proof fn law_interface_words(a: Seq<char>, b: Seq<char>)
    ensures
        scan::mentions_node(a + "napi_"@ + b),
        scan::mentions_node(a + "NODE_"@ + b),
        scan::mentions_node(a + "NAPI_"@ + b),
        scan::mentions_node(a + "Nan::"@ + b),
        scan::mentions_node(a + "Napi::"@ + b),
{
    shape::law_found_where_it_stands(a, "napi_"@, b);
    shape::law_found_where_it_stands(a, "NODE_"@, b);
    shape::law_found_where_it_stands(a, "NAPI_"@, b);
    shape::law_found_where_it_stands(a, "Nan::"@, b);
    shape::law_found_where_it_stands(a, "Napi::"@, b);
}

/// A scan of a file adds what the scanner finds in the tree that the parser
/// gives for its text, as C++ if its extension says so and as C if not, under the given path. A text
/// without the words of the interface, and one without a tree, adds nothing.
pub proof fn law_scan_file(
    text: &str,
    path: &str,
    rel: &str,
    out: &mut scan::ScanResult,
    r: Result<(), syntax::SyntaxError>,
)
    requires
        call_ensures(scan::scan_file, (text, path, rel, out), r),
    ensures
        ({
            let cpp = paths::cpp_source(path@);
            &&& scan::mentions_node(text@) && syntax::has_syntax(text@, cpp) ==> final(out)@ == scan::after_source(
                encode_utf8(text@),
                rel@,
                old(out)@,
                syntax::syntax_of(text@, cpp),
            )
            &&& !scan::mentions_node(text@) ==> final(out)@ == old(out)@ && r is Ok
            &&& !syntax::has_syntax(text@, cpp) ==> final(out)@ == old(out)@
        }),
{
}

/// An augmentation with a package and a version given writes the companion of
/// the index for the exports, if there are any, and counts them. Bytes that are
/// no index are refused.
pub proof fn law_augment_file(
    input: &[u8],
    found: &scan::ScanResult,
    opts: &node_addon::AugmentOptions,
    doc: Option<&str>,
    r: Result<(companion::AugmentOutcome, Option<Vec<u8>>), index::IndexError>,
    m: index::IndexView,
    package: String,
    version: String,
)
    requires
        call_ensures(node_addon::augment_file, (input, found, opts, doc), r),
    ensures
        index::index_message(input@) is None ==> r is Err,
        index::index_message(input@) == Some(m) && opts.js_package == Some(package)
            && opts.js_version == Some(version) && found@.exports.len() > 0 ==> ({
            let out = node_addon::js_companion(index::read_part(m), package@, version@, found@);
            &&& r matches Ok(done)
            &&& done.0 matches companion::AugmentOutcome::Written(stats)
            &&& stats.exports == found@.exports.len()
            &&& stats.documents == out.documents.len()
            &&& done.1 matches Some(bytes)
            &&& (bytes@.len() <= i32::MAX ==> index::index_message(bytes@) == Some(out))
        }),
{
}

/// The value of a field of a JSON text is the string behind its first mention,
/// whatever white space stands around the colon.
pub proof fn law_json_field(
    a: Seq<char>,
    key: Seq<char>,
    blank: (Seq<char>, Seq<char>),
    value: Seq<char>,
    rest: Seq<char>,
)
    requires
        text::first_index(a + (seq!['"'] + key + seq!['"']), seq!['"'] + key + seq!['"']) == Some(
            a.len() as int,
        ),
        text_laws::is_blank(blank.0),
        text_laws::is_blank(blank.1),
        value.len() > 0,
        !value.contains('"'),
    ensures
        node_addon::json_field(
            a + (seq!['"'] + key + seq!['"']) + (blank.0 + (seq![':'] + (blank.1 + (seq!['"'] + (value
                + (seq!['"'] + rest)))))),
            key,
        ) == Some(value),
{
    reveal_strlit("\"");
    reveal_strlit(":");
    assert("\""@ =~= seq!['"']);
    let needle = seq!['"'] + key + seq!['"'];
    let tail = value + (seq!['"'] + rest);
    let quoted = seq!['"'] + tail;
    let spaced = blank.1 + quoted;
    let assigned = seq![':'] + spaced;
    let after = blank.0 + assigned;
    let doc = a + needle + after;
    span::lemma_first_stays(a + needle, after, needle);
    assert(doc.skip(a.len() + needle.len() as int) =~= after);
    text_laws::law_trimmed_start(blank.0, assigned);
    assert(assigned.take(1) =~= ":"@);
    assert(assigned.skip(1) =~= spaced);
    text_laws::law_trimmed_start(blank.1, quoted);
    assert(quoted.take(1) =~= "\""@);
    assert(quoted.skip(1) =~= tail);
    assert forall|i: int| 0 <= i < value.len() implies tail[i] != '"' by {
        assert(value.contains(value[i]));
    }
    text::lemma_first_char(tail, "\""@, value.len() as int);
    assert(tail.take(value.len() as int) =~= value);
}

/// A function is looked up by its name alone, and one in a namespace by its
/// qualified and by its bare name.
pub proof fn law_function_keys(space: Seq<char>, name: Seq<char>, hash: Seq<char>)
    requires
        symbol_laws::is_plain_name(space),
        symbol_laws::is_plain_name(name),
        !hash.contains('('),
        !hash.contains(')'),
        name != "$"@,
        space != "$"@,
    ensures
        node_addon::lookup_keys("cxx . . $ "@ + (name + (seq!['('] + hash + seq![')', '.'])))
            == seq![name],
        node_addon::lookup_keys(
            "cxx . . $ "@ + (space + seq!['/'] + name + (seq!['('] + hash + seq![')', '.'])),
        ) == seq![space + seq!['/'] + name, name],
{
    reveal_strlit("$ ");
    reveal_strlit("$");
    reveal_strlit("#/:");
    let tail = seq!['('] + hash + seq![')', '.'];
    let set = "#/:"@;
    assert(set[0] == '#' && set[1] == '/' && set[2] == ':');
    assert(set.contains('/'));
    assert forall|i: int| 1 <= i < tail.len() - 2 implies tail[i] != '(' && tail[i] != ')' by {
        assert(hash.contains(hash[i - 1]));
    }
    assert(symbol_laws::is_tail(tail));
    lemma_plain_core(name, tail);
    let d1 = name + tail;
    symbol::lemma_clang_descriptors(d1);
    assert(Seq::<char>::empty() + name + tail =~= d1);
    symbol_laws::law_descriptor_core(Seq::empty(), name, tail);
    text_laws::law_after_last_of(Seq::empty(), name, set);
    assert(Seq::<char>::empty() + name =~= name);
    assert(node_addon::lookup_keys("cxx . . $ "@ + d1) =~= seq![name]);
    let core = space + seq!['/'] + name;
    let d2 = core + tail;
    symbol::lemma_clang_descriptors(d2);
    lemma_plain_core(space, seq!['/'] + name + tail);
    assert(d2 =~= space + (seq!['/'] + name + tail));
    assert forall|i: int| 0 <= i < core.len() implies (#[trigger] core[i]) != '(' && core[i]
        != '#' by {
        if i < space.len() {
            assert(symbol_laws::is_plain_char(space[i]));
        } else if i > space.len() {
            assert(symbol_laws::is_plain_char(name[i - space.len() - 1]));
        }
    }
    assert(symbol_laws::is_plain_char(space[0]));
    assert(Seq::<char>::empty() + core + tail =~= d2);
    symbol_laws::law_descriptor_core(Seq::empty(), core, tail);
    assert forall|i: int| 0 <= i < name.len() implies !set.contains(#[trigger] name[i]) by {
        assert(symbol_laws::is_plain_char(name[i]));
        if set.contains(name[i]) {
            let k = set.index_of(name[i]);
            assert(set[k] == name[i]);
        }
    }
    text_laws::law_after_last_of(space + seq!['/'], name, set);
    assert(name.len() != core.len());
    assert(node_addon::lookup_keys("cxx . . $ "@ + d2) =~= seq![core, name]);
}

/// A plain name is no mark of the global namespace, and holds no separator.
proof fn lemma_plain_core(name: Seq<char>, tail: Seq<char>)
    requires
        symbol_laws::is_plain_name(name),
        name != "$"@,
        tail.len() > 0,
        tail[0] == '(' || tail[0] == '/',
    ensures
        !text::has_prefix(name + tail, "$ "@),
        !name.contains('('),
        !name.contains('#'),
        name[0] != '.' && name[0] != ':' && name[0] != '!',
        forall|i: int| 0 <= i < name.len() ==> !"#/:"@.contains(#[trigger] name[i]),
{
    reveal_strlit("$ ");
    reveal_strlit("$");
    reveal_strlit("#/:");
    let set = "#/:"@;
    let s = name + tail;
    assert(symbol_laws::is_plain_char(name[0]));
    if text::has_prefix(s, "$ "@) {
        assert(s.take(2)[0] == s[0]);
        assert(s.take(2)[1] == s[1]);
        if name.len() > 1 {
            assert(symbol_laws::is_plain_char(name[1]));
        }
    }
    assert forall|i: int| 0 <= i < name.len() implies name[i] != '(' && name[i] != '#' by {
        assert(symbol_laws::is_plain_char(name[i]));
    }
    assert forall|i: int| 0 <= i < name.len() implies !set.contains(#[trigger] name[i]) by {
        assert(symbol_laws::is_plain_char(name[i]));
        if set.contains(name[i]) {
            let k = set.index_of(name[i]);
            assert(set[k] == name[i]);
        }
    }
}

/// An identifier is looked up as it is; only if nothing is found so, with a
/// hash for its colons; and only then by its last part.
pub proof fn law_lookup_order(
    entries: Seq<(Seq<char>, Seq<char>)>,
    class: Seq<char>,
    method: Seq<char>,
)
    requires
        symbol_laws::is_plain_name(class),
        symbol_laws::is_plain_name(method),
    ensures
        ({
            let ident = class + "::"@ + method;
            let found = node_addon::find_symbol(entries, ident);
            match lookup::least_symbol(entries, ident) {
                Some(s) => found == Some(s),
                None => match lookup::least_symbol(entries, class + "#"@ + method) {
                    Some(s) => found == Some(s),
                    None => found == lookup::least_symbol(entries, method),
                },
            }
        }),
{
    reveal_strlit("::");
    reveal_strlit("#");
    let ident = class + "::"@ + method;
    assert(!class.contains(':')) by {
        if class.contains(':') {
            let k = class.index_of(':');
            assert(symbol_laws::is_plain_char(class[k]));
        }
    }
    assert(!method.contains(':')) by {
        if method.contains(':') {
            let k = method.index_of(':');
            assert(symbol_laws::is_plain_char(method[k]));
        }
    }
    text_laws::law_split(class, "::"@, method);
    text_laws::law_split(method, "::"@, Seq::empty());
    assert(text::split_text(ident, "::"@) =~= seq![class, method]);
    let parts = seq![class, method];
    assert(parts.drop_last() =~= seq![class]);
    assert(text::joined(seq![class], "#"@) == class);
    assert(text::joined(parts, "#"@) == class + "#"@ + method);
    assert("::"@.last() == ':');
    text_laws::law_after_last(class, "::"@, method);
}

/// The symbols of JavaScript: a module is a namespace with `__init__`, an export
/// a method of its module, under the npm package and its version.
pub proof fn law_js_symbols(
    package: Seq<char>,
    version: Seq<char>,
    module: Seq<char>,
    name: Seq<char>,
    suffix: Suffix,
)
    requires
        symbol_laws::is_plain_name(module),
        symbol_laws::is_plain_name(name),
    ensures
        node_addon::member_symbol(package, version, module, name, suffix) == "scip-typescript"@
            + seq![' '] + "npm"@ + seq![' '] + symbol_laws::dotted(package) + seq![' ']
            + symbol_laws::dotted(version) + seq![' '] + (module + seq!['/'] + name
            + symbol_laws::tail_of(suffix)),
{
    reveal_strlit("npm");
    let ds = seq![
        DescriptorView { name: module, suffix: Suffix::Namespace },
        DescriptorView { name, suffix },
    ];
    let p = node_addon::package_view(package, version);
    assert(symbol_laws::dotted(p.manager) == "npm"@);
    assert(symbol_laws::are_plain(ds));
    symbol_laws::law_symbols_are_written(p, ds);
    let one = ds.drop_last();
    assert(one.drop_last() =~= Seq::empty());
    assert(symbol_laws::written(one.drop_last()) =~= Seq::empty());
    assert(symbol_laws::written(one) =~= module + seq!['/']);
    assert(symbol_laws::written(ds) =~= module + seq!['/'] + name + symbol_laws::tail_of(suffix));
}

/// A scan with a module emits the module first, in the document of the first
/// export, with no place and linked to the module's init function; each export
/// follows, in order, as a member of the module. Without a module the exports
/// are members of one named like the package.
pub proof fn law_emissions(
    package: Seq<char>,
    version: Seq<char>,
    entries: Seq<(Seq<char>, Seq<char>)>,
    found: ScanView,
    k: int,
)
    requires
        0 <= k < found.exports.len(),
    ensures
        ({
            let es = node_addon::emissions(package, version, entries, found);
            let start = if found.module_name is Some {
                1int
            } else {
                0int
            };
            let module = match found.module_name {
                Some(module) => module,
                None => package,
            };
            let e = found.exports[k];
            let m = es[start + k];
            &&& es.len() == start + found.exports.len()
            &&& found.module_name is Some ==> {
                &&& es[0].display_name == module
                &&& es[0].kind == 29
                &&& es[0].path == found.exports[0].relative_path
                &&& es[0].range is None
                &&& es[0].symbol == node_addon::member_symbol(
                    package,
                    version,
                    module,
                    "__init__"@,
                    Suffix::Meta,
                )
                &&& es[0].target == (match found.module_init {
                    Some(init) => node_addon::find_symbol(entries, init),
                    None => None,
                })
            }
            &&& m.path == e.relative_path
            &&& m.display_name == e.js_name
            &&& m.symbol == node_addon::member_symbol(
                package,
                version,
                module,
                e.js_name,
                Suffix::Method,
            )
            &&& e.kind == JsExportKind::Function ==> m.kind == 17
            &&& e.kind == JsExportKind::Method ==> m.kind == 26
            &&& e.c_name.len() > 0 ==> m.target == node_addon::find_symbol(entries, e.c_name)
            &&& e.c_name.len() == 0 ==> m.target is None
        }),
{
}

/// A module without exports stands in a document named after it.
pub proof fn law_module_alone(
    package: Seq<char>,
    version: Seq<char>,
    entries: Seq<(Seq<char>, Seq<char>)>,
    module: Seq<char>,
    init: Option<Seq<char>>,
)
    ensures
        ({
            let found = ScanView {
                exports: Seq::empty(),
                module_name: Some(module),
                module_init: init,
            };
            let es = node_addon::emissions(package, version, entries, found);
            es.len() == 1 && es[0].path == module + ".js"@ && es[0].display_name == module
        }),
{
}

/// A companion holds every export, in the document of its file, under its
/// JavaScript name, and linked to the symbol of the input index that is found
/// for its C name, if it has one and there is one.
pub proof fn law_companion_holds_exports(
    input: index::IndexView,
    package: Seq<char>,
    version: Seq<char>,
    found: ScanView,
    k: int,
)
    requires
        0 <= k < found.exports.len(),
    ensures
        ({
            let out = node_addon::js_companion(input, package, version, found);
            let e = found.exports[k];
            let native = if e.c_name.len() > 0 {
                node_addon::find_symbol(node_addon::node_entries(input.documents), e.c_name)
            } else {
                None
            };
            &&& out.metadata.tool_name == "scip-node-addon-augment"@
            &&& out.metadata.project_root == input.metadata.project_root
            &&& exists|d: int, i: int|
                0 <= d < out.documents.len() && 0 <= i < out.documents[d].symbols.len() && ({
                    let s = #[trigger] out.documents[d].symbols[i];
                    &&& out.documents[d].relative_path == e.relative_path
                    &&& out.documents[d].language == "JavaScript"@
                    &&& s.display_name == e.js_name
                    &&& native is None ==> s.relationships.len() == 0
                    &&& native matches Some(symbol) ==> s.relationships.len() == 1
                        && s.relationships[0].symbol == symbol
                })
        }),
{
    let out = node_addon::js_companion(input, package, version, found);
    let entries = node_addon::node_entries(input.documents);
    let es = node_addon::emissions(package, version, entries, found);
    law_emissions(package, version, entries, found, k);
    let m = if found.module_name is Some {
        k + 1
    } else {
        k
    };
    companion::law_documents_cover("JavaScript"@, es);
    let d = choose|d: int|
        0 <= d < out.documents.len() && (#[trigger] out.documents[d]).relative_path == es[m].path
            && out.documents[d].symbols.contains(companion::emitted_symbol(es[m]));
    let path = companion::emitted_paths(es)[d];
    companion::law_document_symbols("JavaScript"@, path, es, es[m]);
    let i = out.documents[d].symbols.index_of(companion::emitted_symbol(es[m]));
    assert(out.documents[d].symbols[i] == companion::emitted_symbol(es[m]));
}

/// The version is the one given, else that of `package.json`, else the first of
/// the index that is no placeholder, else `0.0.0`.
pub proof fn law_chosen_version(
    given: Option<Seq<char>>,
    doc: &str,
    docs: Seq<index::DocumentView>,
)
    ensures
        given matches Some(v) ==> node_addon::chosen_version(given, Some(doc), docs) == v,
        given is None ==> match node_addon::json_field(doc@, "version"@) {
            Some(v) => node_addon::chosen_version(given, Some(doc), docs) == v,
            None => node_addon::chosen_version(given, Some(doc), docs)
                == node_addon::chosen_version(given, None, docs),
        },
        given is None ==> match companion::first_version(docs, true, true) {
            Some(v) => node_addon::chosen_version(given, None, docs) == v,
            None => node_addon::chosen_version(given, None, docs) == "0.0.0"@,
        },
{
}

/// A companion is written if there are exports or a module, and a package is
/// given or named by `package.json`, and only then.
pub proof fn law_outcome(
    r: (companion::AugmentOutcome, Option<Vec<u8>>),
    input: index::IndexView,
    found: ScanView,
    opts: node_addon::AugmentOptions,
    doc: Option<&str>,
)
    requires
        node_addon::is_augmented(r, input, found, opts, doc),
    ensures
        (r.0 is Written) <==> (found.exports.len() > 0 || found.module_name is Some) && (
        opts.js_package is Some || (doc matches Some(doc) && node_addon::json_field(
            doc@,
            "name"@,
        ) is Some)),
        (r.1 is Some) <==> r.0 is Written,
        r.0 matches companion::AugmentOutcome::Written(stats) ==> stats.exports
            == found.exports.len(),
{
}

/// Directories of build outputs, dependencies and hidden ones are not searched.
pub proof fn law_skipped_directories(name: &str, r: bool)
    requires
        call_ensures(node_addon::is_hidden_or_build, (name,), r),
    ensures
        r <==> (name@ == "node_modules"@ || name@ == "deps"@ || name@ == "third_party"@ || name@
            == "build"@ || name@ == "target"@ || (name@.len() > 0 && name@[0] == '.')),
{
    reveal_strlit(".");
    if name@.len() > 0 {
        assert(name@.take(1)[0] == name@[0]);
        if name@[0] == '.' {
            assert(name@.take(1) =~= "."@);
        }
    }
}

/// A companion defines every export where its name stands in the source.
pub proof fn law_exports_are_placed(
    input: index::IndexView,
    package: Seq<char>,
    version: Seq<char>,
    found: ScanView,
    k: int,
)
    requires
        0 <= k < found.exports.len(),
    ensures
        companion_laws::is_defined_at(
            node_addon::js_companion(input, package, version, found).documents,
            found.exports[k].relative_path,
            node_addon::member_symbol(
                package,
                version,
                match found.module_name {
                    Some(module) => module,
                    None => package,
                },
                found.exports[k].js_name,
                Suffix::Method,
            ),
            companion_laws::on_line(found.exports[k].name_span),
        ),
{
    let entries = node_addon::node_entries(input.documents);
    let es = node_addon::emissions(package, version, entries, found);
    law_emissions(package, version, entries, found, k);
    let m = if found.module_name is Some {
        k + 1
    } else {
        k
    };
    companion_laws::law_placed(
        "JavaScript"@,
        es,
        m,
        companion_laws::on_line(found.exports[k].name_span),
    );
}

} // verus!
