//! What the CPython scanner finds in sources of given shapes.

use crate::c_python::scan;
use crate::c_python::scan::{CExportKind, CExportView, Found, ModuleDefView, NamedView};
use crate::shape;
use crate::shape::{has_none, is_first, is_last, names, quotes, reads};
use crate::syntax;
use crate::syntax::{NodeKind, NodeView};
use crate::text;
use crate::c_python;
use crate::companion;
use crate::companion_laws;
use crate::index;
use crate::lookup;
use crate::python;
use crate::symbol::Suffix;
use vstd::prelude::*;
use vstd::utf8::*;

verus! {

/// Whether no C function can be read off a node: it is no identifier, nor a
/// cast of one.
pub open spec fn gives_no_function(node: NodeView) -> bool {
    &&& node.kind != NodeKind::Identifier
    &&& node.kind == NodeKind::CastExpression ==> has_none(node.children, NodeKind::Identifier)
}

/// Whether the node at `j` is the first that gives a C function, and that
/// function is `f`: an identifier, or a cast that ends in one.
pub open spec fn gives_function(src: Seq<u8>, nodes: Seq<NodeView>, j: int, f: Seq<char>) -> bool {
    &&& 0 <= j < nodes.len()
    &&& forall|i: int| 0 <= i < j ==> gives_no_function(#[trigger] nodes[i])
    &&& {
        ||| names(src, nodes[j], f)
        ||| nodes[j].kind == NodeKind::CastExpression && exists|k: int|
            is_last(nodes[j].children, k, NodeKind::Identifier) && reads(
                src,
                #[trigger] nodes[j].children[k],
                f,
            )
    }
}

/// A cast applies to the last identifier in it.
proof fn lemma_cast(src: Seq<u8>, nodes: Seq<NodeView>, k: int)
    ensures
        is_last(nodes, k, NodeKind::Identifier) ==> scan::cast_target(src, nodes) == Some(
            syntax::node_text(src, nodes[k]),
        ),
        has_none(nodes, NodeKind::Identifier) ==> scan::cast_target(src, nodes) is None,
    decreases nodes.len(),
{
    if nodes.len() > 0 {
        let front = nodes.drop_last();
        lemma_cast(src, front, k);
        if is_last(nodes, k, NodeKind::Identifier) && k < nodes.len() - 1 {
            assert(nodes[nodes.len() - 1].kind != NodeKind::Identifier);
            assert forall|j: int| k < j < front.len() implies (#[trigger] front[j]).kind
                != NodeKind::Identifier by {
                assert(front[j] == nodes[j]);
            }
        }
        if has_none(nodes, NodeKind::Identifier) {
            assert(nodes[nodes.len() - 1].kind != NodeKind::Identifier);
            assert forall|j: int| 0 <= j < front.len() implies (#[trigger] front[j]).kind
                != NodeKind::Identifier by {
                assert(front[j] == nodes[j]);
            }
        }
    }
}

/// The C function of a row is the first identifier or cast identifier in it,
/// whether it is cast or not.
pub proof fn law_first_function(src: Seq<u8>, nodes: Seq<NodeView>, j: int, f: Seq<char>)
    requires
        gives_function(src, nodes, j, f),
    ensures
        scan::first_function(src, nodes) == Some(f),
    decreases nodes.len(),
{
    if j == 0 {
        let node = nodes[0];
        if node.kind == NodeKind::CastExpression {
            let k = choose|k: int|
                is_last(node.children, k, NodeKind::Identifier) && reads(
                    src,
                    #[trigger] node.children[k],
                    f,
                );
            lemma_cast(src, node.children, k);
            shape::law_text_is_read(src, node.children[k], f);
        } else {
            shape::law_text_is_read(src, node, f);
        }
    } else {
        let rest = nodes.skip(1);
        assert(gives_no_function(nodes[0]));
        lemma_cast(src, nodes[0].children, 0);
        assert forall|i: int| 0 <= i < j - 1 implies gives_no_function(#[trigger] rest[i]) by {
            assert(rest[i] == nodes[i + 1]);
        }
        law_first_function(src, rest, j - 1, f);
    }
}

/// A row without identifiers and casts of them has no C function.
pub proof fn law_no_function(src: Seq<u8>, nodes: Seq<NodeView>)
    requires
        forall|i: int| 0 <= i < nodes.len() ==> gives_no_function(#[trigger] nodes[i]),
    ensures
        scan::first_function(src, nodes) is None,
    decreases nodes.len(),
{
    if nodes.len() > 0 {
        let rest = nodes.skip(1);
        assert(gives_no_function(nodes[0]));
        lemma_cast(src, nodes[0].children, 0);
        assert forall|i: int| 0 <= i < rest.len() implies gives_no_function(#[trigger] rest[i]) by {
            assert(rest[i] == nodes[i + 1]);
        }
        law_no_function(src, rest);
    }
}

/// A row of a `PyMethodDef` array maps the Python name in its first string
/// literal to its first C function, cast or not, whatever else stands in it.
/// The name's place is that of the literal's contents.
pub proof fn law_row_maps_name_to_function(
    src: Seq<u8>,
    row: NodeView,
    i: int,
    n: Seq<char>,
    j: int,
    f: Seq<char>,
)
    requires
        is_first(row.children, i, NodeKind::StringLiteral),
        quotes(src, row.children[i], n),
        gives_function(src, row.children, j, f),
    ensures
        n.len() > 0 && n != "NULL"@ && f != "NULL"@ ==> scan::method_entry(src, row) == Some(
            NamedView {
                python_name: n,
                c_name: f,
                name_span: (
                    row.children[i].row as u32,
                    (row.children[i].column + 1) as u32,
                    (row.children[i].column + 1 + encode_utf8(n).len()) as u32,
                ),
            },
        ),
        n.len() == 0 || n == "NULL"@ || f == "NULL"@ ==> scan::method_entry(src, row) is None,
{
    shape::law_first_child(row.children, i, NodeKind::StringLiteral);
    shape::law_literal_is_quoted(src, row.children[i], n);
    law_first_function(src, row.children, j, f);
}

/// A row that lacks a name or a function makes no entry.
pub proof fn law_row_without_name_or_function(src: Seq<u8>, row: NodeView)
    requires
        has_none(row.children, NodeKind::StringLiteral) || forall|i: int|
            0 <= i < row.children.len() ==> gives_no_function(#[trigger] row.children[i]),
    ensures
        scan::method_entry(src, row) is None,
{
    shape::law_first_child(row.children, 0, NodeKind::StringLiteral);
    if !has_none(row.children, NodeKind::StringLiteral) {
        law_no_function(src, row.children);
    }
}

/// The entries of an array are those of its first rows, then those of the
/// others; one row makes one entry or none, and what is no row makes none.
pub proof fn law_rows_add_up(src: Seq<u8>, a: Seq<NodeView>, b: Seq<NodeView>, node: NodeView)
    ensures
        scan::row_entries(src, a + b) == scan::row_entries(src, a) + scan::row_entries(src, b),
        node.kind != NodeKind::InitializerList ==> scan::row_entries(src, seq![node]).len() == 0,
        node.kind == NodeKind::InitializerList ==> match scan::method_entry(src, node) {
            Some(e) => scan::row_entries(src, seq![node]) == seq![e],
            None => scan::row_entries(src, seq![node]).len() == 0,
        },
    decreases b.len(),
{
    assert(seq![node].drop_last() =~= Seq::empty());
    assert(scan::row_entries(src, seq![node].drop_last()) =~= Seq::empty());
    assert(seq![node].last() == node);
    if let Some(e) = scan::method_entry(src, node) {
        assert(Seq::empty().push(e) =~= seq![e]);
    }
    if b.len() == 0 {
        assert(a + b =~= a);
        assert(scan::row_entries(src, a) + scan::row_entries(src, b) =~= scan::row_entries(src, a));
    } else {
        law_rows_add_up(src, a, b.drop_last(), node);
        assert((a + b).drop_last() =~= a + b.drop_last());
        assert(scan::row_entries(src, a + b) =~= scan::row_entries(src, a) + scan::row_entries(
            src,
            b,
        ));
    }
}

/// Every row that makes an entry is among the entries of its array.
pub proof fn law_every_row_counts(src: Seq<u8>, nodes: Seq<NodeView>, k: int)
    requires
        0 <= k < nodes.len(),
        nodes[k].kind == NodeKind::InitializerList,
        scan::method_entry(src, nodes[k]) is Some,
    ensures
        scan::row_entries(src, nodes).contains(scan::method_entry(src, nodes[k]).unwrap()),
{
    let (a, b) = (nodes.take(k), nodes.skip(k + 1));
    let one = seq![nodes[k]];
    assert(nodes =~= a + (one + b));
    law_rows_add_up(src, a, one + b, nodes[k]);
    law_rows_add_up(src, one, b, nodes[k]);
    let n = scan::row_entries(src, a).len() as int;
    assert(scan::row_entries(src, nodes)[n] == scan::method_entry(src, nodes[k]).unwrap());
}

/// Whether a declaration's type is `t`: the first type name in it, or in its
/// first `struct`.
pub open spec fn has_type(src: Seq<u8>, node: NodeView, t: Seq<char>) -> bool {
    ||| exists|i: int|
        is_first(node.children, i, NodeKind::TypeIdentifier) && reads(
            src,
            #[trigger] node.children[i],
            t,
        )
    ||| has_none(node.children, NodeKind::TypeIdentifier) && exists|i: int, j: int|
        is_first(node.children, i, NodeKind::StructSpecifier) && is_first(
            node.children[i].children,
            j,
            NodeKind::TypeIdentifier,
        ) && reads(src, #[trigger] node.children[i].children[j], t)
}

/// The type of a declaration is read off a type name, with or without
/// `struct`.
pub proof fn law_declared_type(src: Seq<u8>, node: NodeView, t: Seq<char>)
    requires
        has_type(src, node, t),
    ensures
        scan::declared_type(src, node) == Some(t),
{
    let kind = NodeKind::TypeIdentifier;
    if exists|i: int|
        is_first(node.children, i, kind) && reads(src, #[trigger] node.children[i], t) {
        let i = choose|i: int|
            is_first(node.children, i, kind) && reads(src, #[trigger] node.children[i], t);
        shape::law_first_child(node.children, i, kind);
        shape::law_text_is_read(src, node.children[i], t);
    } else {
        shape::law_first_child(node.children, 0, kind);
        let (i, j) = choose|i: int, j: int|
            is_first(node.children, i, NodeKind::StructSpecifier) && is_first(
                node.children[i].children,
                j,
                kind,
            ) && reads(src, #[trigger] node.children[i].children[j], t);
        shape::law_first_child(node.children, i, NodeKind::StructSpecifier);
        shape::law_first_child(node.children[i].children, j, kind);
        shape::law_text_is_read(src, node.children[i].children[j], t);
    }
}

/// Whether an initialised declarator is `<name>[] = <list>`: the array
/// declarator at `i` is its first child that declares a name, and the list at
/// `l` its first initialiser.
pub open spec fn declares_array(
    src: Seq<u8>,
    init: NodeView,
    i: int,
    j: int,
    name: Seq<char>,
    l: int,
) -> bool {
    &&& init.kind == NodeKind::InitDeclarator
    &&& is_first(init.children, i, NodeKind::ArrayDeclarator)
    &&& forall|k: int| 0 <= k < i ==> (#[trigger] init.children[k]).kind != NodeKind::Identifier
    &&& is_first(init.children[i].children, j, NodeKind::Identifier)
    &&& reads(src, init.children[i].children[j], name)
    &&& is_first(init.children, l, NodeKind::InitializerList)
}

/// The name that an array declarator declares.
proof fn lemma_declared_name(src: Seq<u8>, nodes: Seq<NodeView>, i: int, j: int, name: Seq<char>)
    requires
        is_first(nodes, i, NodeKind::ArrayDeclarator),
        forall|k: int| 0 <= k < i ==> (#[trigger] nodes[k]).kind != NodeKind::Identifier,
        is_first(nodes[i].children, j, NodeKind::Identifier),
        reads(src, nodes[i].children[j], name),
    ensures
        scan::declared_name(src, nodes) == Some(name),
    decreases nodes.len(),
{
    if i == 0 {
        shape::law_first_child(nodes[0].children, j, NodeKind::Identifier);
        shape::law_text_is_read(src, nodes[0].children[j], name);
    } else {
        let rest = nodes.skip(1);
        assert(nodes[0].kind != NodeKind::Identifier);
        assert forall|k: int| 0 <= k < i - 1 implies (#[trigger] rest[k]).kind
            != NodeKind::Identifier && rest[k].kind != NodeKind::ArrayDeclarator by {
            assert(rest[k] == nodes[k + 1]);
        }
        lemma_declared_name(src, rest, i - 1, j, name);
    }
}

/// One more array replaces one of the same name and leaves the others.
proof fn lemma_with_array(
    arrays: Seq<scan::MethodArrayView>,
    array: scan::MethodArrayView,
    other: Seq<char>,
)
    ensures
        scan::entries_of(scan::with_array(arrays, array), array.name) == array.entries,
        other != array.name ==> scan::entries_of(scan::with_array(arrays, array), other)
            == scan::entries_of(arrays, other),
    decreases arrays.len(),
{
    let after = scan::with_array(arrays, array);
    if arrays.len() == 0 {
        assert(after.skip(1) =~= arrays);
    } else if arrays[0].name == array.name {
        assert(after.skip(1) =~= arrays.skip(1));
    } else {
        lemma_with_array(arrays.skip(1), array, other);
        assert(after.skip(1) =~= scan::with_array(arrays.skip(1), array));
    }
}

/// A declaration of a `PyMethodDef` array at the top level gives the array the
/// entries of its rows. An array of the same name that came before is
/// replaced; all else that was found stays.
pub proof fn law_array_is_found(
    src: Seq<u8>,
    before: Seq<NodeView>,
    decl: NodeView,
    d: int,
    i: int,
    j: int,
    name: Seq<char>,
    l: int,
    other: Seq<char>,
)
    requires
        decl.kind == NodeKind::Declaration,
        has_type(src, decl, "PyMethodDef"@),
        is_first(decl.children, d, NodeKind::InitDeclarator),
        is_last(decl.children, d, NodeKind::InitDeclarator),
        declares_array(src, decl.children[d], i, j, name, l),
    ensures
        ({
            let (was, now) = (scan::found(src, before), scan::found(src, before.push(decl)));
            &&& scan::entries_of(now.arrays, name) == scan::row_entries(
                src,
                decl.children[d].children[l].children,
            )
            &&& other != name ==> scan::entries_of(now.arrays, other) == scan::entries_of(
                was.arrays,
                other,
            )
            &&& now.modules == was.modules
            &&& now.inits == was.inits
        }),
{
    law_declared_type(src, decl, "PyMethodDef"@);
    assert(before.push(decl).drop_last() =~= before);
    let init = decl.children[d];
    lemma_declared_name(src, init.children, i, j, name);
    shape::law_first_child(init.children, l, NodeKind::InitializerList);
    let was = scan::found(src, before).arrays;
    lemma_one_declarator(src, was, decl.children, d);
    lemma_with_array(was, scan::method_array(src, init).unwrap(), other);
}

/// A declaration with one initialised declarator adds the array of that one.
proof fn lemma_one_declarator(
    src: Seq<u8>,
    arrays: Seq<scan::MethodArrayView>,
    nodes: Seq<NodeView>,
    d: int,
)
    requires
        is_first(nodes, d, NodeKind::InitDeclarator),
        is_last(nodes, d, NodeKind::InitDeclarator),
        scan::method_array(src, nodes[d]) is Some,
    ensures
        scan::with_arrays(src, arrays, nodes) == scan::with_array(
            arrays,
            scan::method_array(src, nodes[d]).unwrap(),
        ),
    decreases nodes.len(),
{
    let front = nodes.drop_last();
    if d == nodes.len() - 1 {
        lemma_no_declarator(src, arrays, front);
    } else {
        assert(nodes[nodes.len() - 1].kind != NodeKind::InitDeclarator);
        assert forall|j: int| d < j < front.len() implies (#[trigger] front[j]).kind
            != NodeKind::InitDeclarator by {
            assert(front[j] == nodes[j]);
        }
        lemma_one_declarator(src, arrays, front, d);
    }
}

/// Nodes without initialised declarators add no array.
proof fn lemma_no_declarator(
    src: Seq<u8>,
    arrays: Seq<scan::MethodArrayView>,
    nodes: Seq<NodeView>,
)
    requires
        has_none(nodes, NodeKind::InitDeclarator),
    ensures
        scan::with_arrays(src, arrays, nodes) == arrays,
    decreases nodes.len(),
{
    if nodes.len() > 0 {
        let front = nodes.drop_last();
        assert(nodes[nodes.len() - 1].kind != NodeKind::InitDeclarator);
        assert forall|j: int| 0 <= j < front.len() implies (#[trigger] front[j]).kind
            != NodeKind::InitDeclarator by {
            assert(front[j] == nodes[j]);
        }
        lemma_no_declarator(src, arrays, front);
    }
}

/// Each initialised declarator of a `PyMethodDef` declaration adds its array,
/// one after the other.
pub proof fn law_declarators_in_turn(
    src: Seq<u8>,
    arrays: Seq<scan::MethodArrayView>,
    a: Seq<NodeView>,
    b: Seq<NodeView>,
)
    ensures
        scan::with_arrays(src, arrays, a + b) == scan::with_arrays(
            src,
            scan::with_arrays(src, arrays, a),
            b,
        ),
    decreases b.len(),
{
    if b.len() == 0 {
        assert(a + b =~= a);
    } else {
        law_declarators_in_turn(src, arrays, a, b.drop_last());
        assert((a + b).drop_last() =~= a + b.drop_last());
        assert((a + b).last() == b.last());
    }
}

/// Whether no node names an array: none but `NULL` and the macro that heads a
/// module's definition are identifiers.
pub open spec fn wires_nothing(src: Seq<u8>, nodes: Seq<NodeView>) -> bool {
    forall|k: int|
        0 <= k < nodes.len() && (#[trigger] nodes[k]).kind == NodeKind::Identifier ==> reads(
            src,
            nodes[k],
            "PyModuleDef_HEAD_INIT"@,
        ) || reads(src, nodes[k], "NULL"@)
}

/// The array that a module wires up is the first that is named.
proof fn lemma_wired(src: Seq<u8>, nodes: Seq<NodeView>, w: int, arr: Seq<char>)
    ensures
        0 <= w < nodes.len() && wires_nothing(src, nodes.take(w)) && names(src, nodes[w], arr)
            && arr != "PyModuleDef_HEAD_INIT"@ && arr != "NULL"@ ==> scan::wired_array(src, nodes)
            == Some(arr),
        wires_nothing(src, nodes) ==> scan::wired_array(src, nodes) is None,
    decreases nodes.len(),
{
    if nodes.len() > 0 {
        let rest = nodes.skip(1);
        lemma_wired(src, rest, w - 1, arr);
        if 0 <= w < nodes.len() && wires_nothing(src, nodes.take(w)) && names(src, nodes[w], arr) {
            if w == 0 {
                shape::law_text_is_read(src, nodes[0], arr);
            } else {
                lemma_wires_nothing(src, nodes.take(w));
                assert(nodes.take(w).skip(1) =~= rest.take(w - 1));
            }
        }
        if wires_nothing(src, nodes) {
            lemma_wires_nothing(src, nodes);
        }
    }
}

/// A first node that names no array.
proof fn lemma_wires_nothing(src: Seq<u8>, nodes: Seq<NodeView>)
    requires
        nodes.len() > 0,
        wires_nothing(src, nodes),
    ensures
        wires_nothing(src, nodes.skip(1)),
        nodes[0].kind == NodeKind::Identifier ==> ({
            let t = syntax::node_text(src, nodes[0]);
            t == "PyModuleDef_HEAD_INIT"@ || t == "NULL"@
        }),
{
    let rest = nodes.skip(1);
    assert forall|k: int|
        0 <= k < rest.len() && (#[trigger] rest[k]).kind == NodeKind::Identifier implies reads(
        src,
        rest[k],
        "PyModuleDef_HEAD_INIT"@,
    ) || reads(src, rest[k], "NULL"@) by {
        assert(rest[k] == nodes[k + 1]);
    }
    if nodes[0].kind == NodeKind::Identifier {
        if reads(src, nodes[0], "NULL"@) {
            shape::law_text_is_read(src, nodes[0], "NULL"@);
        } else {
            shape::law_text_is_read(src, nodes[0], "PyModuleDef_HEAD_INIT"@);
        }
    }
}

/// A `PyModuleDef` at the top level adds one module: its Python name is the
/// first string of its initialiser, its C name that of the variable, and its
/// array the first identifier that is neither the head macro nor `NULL`. All
/// else that was found stays.
pub proof fn law_module_is_found(
    src: Seq<u8>,
    before: Seq<NodeView>,
    decl: NodeView,
    d: int,
    i: int,
    var: Seq<char>,
    l: int,
    s: int,
    n: Seq<char>,
    w: int,
    arr: Seq<char>,
)
    requires
        decl.kind == NodeKind::Declaration,
        has_type(src, decl, "PyModuleDef"@),
        is_first(decl.children, d, NodeKind::InitDeclarator),
        is_first(decl.children[d].children, i, NodeKind::Identifier),
        reads(src, decl.children[d].children[i], var),
        is_first(decl.children[d].children, l, NodeKind::InitializerList),
        is_first(decl.children[d].children[l].children, s, NodeKind::StringLiteral),
        quotes(src, decl.children[d].children[l].children[s], n),
    ensures
        ({
            let (was, now) = (scan::found(src, before), scan::found(src, before.push(decl)));
            let values = decl.children[d].children[l].children;
            let m = now.modules.last();
            &&& now.modules.len() == was.modules.len() + 1
            &&& now.modules.drop_last() == was.modules
            &&& m.module.python_name == n
            &&& m.module.c_name == var
            &&& m.module.name_span == (
                values[s].row as u32,
                (values[s].column + 1) as u32,
                (values[s].column + 1 + encode_utf8(n).len()) as u32,
            )
            &&& 0 <= w < values.len() && wires_nothing(src, values.take(w)) && names(
                src,
                values[w],
                arr,
            ) && arr != "PyModuleDef_HEAD_INIT"@ && arr != "NULL"@ ==> m.methods == Some(arr)
            &&& wires_nothing(src, values) ==> m.methods is None
            &&& now.arrays == was.arrays
            &&& now.inits == was.inits
        }),
{
    reveal_strlit("PyMethodDef");
    reveal_strlit("PyModuleDef");
    assert("PyMethodDef"@[3] != "PyModuleDef"@[3] || "PyMethodDef"@[4] != "PyModuleDef"@[4]
        || "PyMethodDef"@[2] != "PyModuleDef"@[2]);
    law_declared_type(src, decl, "PyModuleDef"@);
    assert(before.push(decl).drop_last() =~= before);
    let init = decl.children[d];
    let list = init.children[l];
    shape::law_first_child(decl.children, d, NodeKind::InitDeclarator);
    shape::law_first_child(init.children, i, NodeKind::Identifier);
    shape::law_text_is_read(src, init.children[i], var);
    shape::law_first_child(init.children, l, NodeKind::InitializerList);
    shape::law_first_child(list.children, s, NodeKind::StringLiteral);
    shape::law_literal_is_quoted(src, list.children[s], n);
    lemma_wired(src, list.children, w, arr);
    let was = scan::found(src, before).modules;
    let m = scan::module_def(src, decl).unwrap();
    assert(was.push(m).drop_last() =~= was);
}

/// A function `PyInit_<module>` at the top level adds the module that it
/// initialises, placed where the module's name stands in the function's. All
/// else that was found stays.
pub proof fn law_init_is_found(
    src: Seq<u8>,
    before: Seq<NodeView>,
    func: NodeView,
    d: int,
    i: int,
    module: Seq<char>,
)
    requires
        func.kind == NodeKind::FunctionDefinition,
        is_first(func.children, d, NodeKind::FunctionDeclarator),
        is_first(func.children[d].children, i, NodeKind::Identifier),
        reads(src, func.children[d].children[i], "PyInit_"@ + module),
    ensures
        ({
            let (was, now) = (scan::found(src, before), scan::found(src, before.push(func)));
            let ident = func.children[d].children[i];
            &&& now.inits == was.inits.push(
                NamedView {
                    python_name: module,
                    c_name: "PyInit_"@ + module,
                    name_span: (
                        ident.row as u32,
                        (ident.column + 7) as u32,
                        (ident.column + 7 + encode_utf8(module).len()) as u32,
                    ),
                },
            )
            &&& now.arrays == was.arrays
            &&& now.modules == was.modules
        }),
{
    reveal_strlit("PyInit_");
    assert(before.push(func).drop_last() =~= before);
    let decl = func.children[d];
    let name = "PyInit_"@ + module;
    shape::law_first_child(func.children, d, NodeKind::FunctionDeclarator);
    shape::law_first_child(decl.children, i, NodeKind::Identifier);
    shape::law_text_is_read(src, decl.children[i], name);
    assert(name.take(7) =~= "PyInit_"@);
    assert(name.skip(7) =~= module);
}

/// What is neither a declaration nor a function adds nothing.
pub proof fn law_others_add_nothing(src: Seq<u8>, before: Seq<NodeView>, node: NodeView)
    requires
        node.kind != NodeKind::Declaration,
        node.kind != NodeKind::FunctionDefinition,
    ensures
        scan::found(src, before.push(node)) == scan::found(src, before),
{
    assert(before.push(node).drop_last() =~= before);
}

/// The export of a module or a function says what it was found as.
pub open spec fn exports_named(
    e: CExportView,
    rel: Seq<char>,
    kind: CExportKind,
    n: NamedView,
) -> bool {
    &&& e.relative_path == rel
    &&& e.python_name == n.python_name
    &&& e.c_name == n.c_name
    &&& e.kind == kind
    &&& e.name_span == n.name_span
}

/// In a source with `PyModuleDef`s, the last module is exported behind those
/// before it: itself first, and then each entry of the array that it wires up,
/// in order, and nothing else.
pub proof fn law_module_with_its_functions(
    rel: Seq<char>,
    arrays: Seq<scan::MethodArrayView>,
    modules: Seq<ModuleDefView>,
    inits: Seq<NamedView>,
    m: ModuleDefView,
)
    ensures
        ({
            let before = scan::resolved(rel, Found { arrays, modules, inits });
            let after = scan::resolved(rel, Found { arrays, modules: modules.push(m), inits });
            let start = if modules.len() > 0 {
                before.len()
            } else {
                0
            };
            let entries = match m.methods {
                Some(name) => scan::entries_of(arrays, name),
                None => Seq::empty(),
            };
            &&& modules.len() > 0 ==> after.take(before.len() as int) == before
            &&& after.len() == start + 1 + entries.len()
            &&& exports_named(after[start as int], rel, CExportKind::Module, m.module)
            &&& forall|k: int|
                0 <= k < entries.len() ==> exports_named(
                    #[trigger] after[start + 1 + k],
                    rel,
                    CExportKind::Function,
                    entries[k],
                )
        }),
{
    let all = modules.push(m);
    assert(all.drop_last() =~= modules);
    let earlier = scan::all_module_exports(rel, arrays, modules);
    let own = scan::module_exports(rel, arrays, m);
    let after = scan::resolved(rel, Found { arrays, modules: all, inits });
    assert(after == earlier + own);
    assert((earlier + own).take(earlier.len() as int) =~= earlier);
    let start = earlier.len() as int;
    let entries = match m.methods {
        Some(name) => scan::entries_of(arrays, name),
        None => Seq::empty(),
    };
    assert(after[start] == own[0]);
    assert forall|k: int| 0 <= k < entries.len() implies exports_named(
        #[trigger] after[start + 1 + k],
        rel,
        CExportKind::Function,
        entries[k],
    ) by {
        assert(after[start + 1 + k] == own[1 + k]);
    }
}

/// In a source without `PyModuleDef`s, the module of its one `PyInit_*`
/// function comes first, if it has exactly one; then every entry of every
/// array is exported.
pub proof fn law_module_of_init(
    rel: Seq<char>,
    arrays: Seq<scan::MethodArrayView>,
    inits: Seq<NamedView>,
    a: int,
    k: int,
)
    requires
        0 <= a < arrays.len(),
        0 <= k < arrays[a].entries.len(),
    ensures
        ({
            let es = scan::resolved(rel, Found { arrays, modules: Seq::empty(), inits });
            let functions = scan::resolved(
                rel,
                Found { arrays, modules: Seq::empty(), inits: Seq::empty() },
            );
            &&& inits.len() == 1 ==> es.len() == 1 + functions.len() && exports_named(
                es[0],
                rel,
                CExportKind::Module,
                inits[0],
            ) && es.skip(1) == functions
            &&& inits.len() != 1 ==> es == functions
            &&& exists|i: int|
                0 <= i < functions.len() && exports_named(
                    #[trigger] functions[i],
                    rel,
                    CExportKind::Function,
                    arrays[a].entries[k],
                )
        }),
{
    let functions = scan::all_function_exports(rel, arrays);
    let empty = Seq::<CExportView>::empty();
    assert(empty + functions =~= functions);
    if inits.len() == 1 {
        let head = seq![scan::export_of(rel, CExportKind::Module, inits[0])];
        assert((head + functions).skip(1) =~= functions);
    }
    lemma_all_functions(rel, arrays, a, k);
}

/// Every entry of every array is exported.
proof fn lemma_all_functions(rel: Seq<char>, arrays: Seq<scan::MethodArrayView>, a: int, k: int)
    requires
        0 <= a < arrays.len(),
        0 <= k < arrays[a].entries.len(),
    ensures
        exists|i: int|
            0 <= i < scan::all_function_exports(rel, arrays).len() && exports_named(
                #[trigger] scan::all_function_exports(rel, arrays)[i],
                rel,
                CExportKind::Function,
                arrays[a].entries[k],
            ),
    decreases arrays.len(),
{
    let all = scan::all_function_exports(rel, arrays);
    let before = scan::all_function_exports(rel, arrays.drop_last());
    let last = scan::function_exports(rel, arrays.last().entries);
    if a == arrays.len() - 1 {
        assert(all[before.len() + k] == last[k]);
    } else {
        assert(arrays.drop_last()[a] == arrays[a]);
        lemma_all_functions(rel, arrays.drop_last(), a, k);
        let i = choose|i: int|
            0 <= i < before.len() && exports_named(
                #[trigger] before[i],
                rel,
                CExportKind::Function,
                arrays[a].entries[k],
            );
        assert(all[i] == before[i]);
    }
}

/// As many functions are exported as the arrays have entries.
pub proof fn law_functions_are_counted(
    rel: Seq<char>,
    arrays: Seq<scan::MethodArrayView>,
    array: scan::MethodArrayView,
)
    ensures
        ({
            let (modules, inits) = (Seq::empty(), Seq::empty());
            let before = scan::resolved(rel, Found { arrays, modules, inits });
            let after = scan::resolved(rel, Found { arrays: arrays.push(array), modules, inits });
            &&& arrays.len() == 0 ==> before.len() == 0
            &&& after.len() == before.len() + array.entries.len()
            &&& after.take(before.len() as int) == before
        }),
{
    let before = scan::all_function_exports(rel, arrays);
    let more = arrays.push(array);
    assert(more.drop_last() =~= arrays);
    let empty = Seq::<CExportView>::empty();
    let after = scan::all_function_exports(rel, more);
    assert(empty + before =~= before);
    assert(empty + after =~= after);
    assert(after.take(before.len() as int) =~= before);
}

/// A text in which a word of the CPython interface stands is read.
pub proof fn law_interface_words(a: Seq<char>, b: Seq<char>)
    ensures
        scan::mentions_python(a + "PyMethodDef"@ + b),
        scan::mentions_python(a + "PyModuleDef"@ + b),
        scan::mentions_python(a + "PyInit_"@ + b),
{
    shape::law_found_where_it_stands(a, "PyMethodDef"@, b);
    shape::law_found_where_it_stands(a, "PyModuleDef"@, b);
    shape::law_found_where_it_stands(a, "PyInit_"@, b);
}

/// Whether nodes are neither declarations nor functions.
pub open spec fn are_neutral(nodes: Seq<NodeView>) -> bool {
    has_none(nodes, NodeKind::Declaration) && has_none(nodes, NodeKind::FunctionDefinition)
}

/// Neutral nodes behind others add nothing.
proof fn lemma_neutral(src: Seq<u8>, a: Seq<NodeView>, b: Seq<NodeView>)
    requires
        are_neutral(b),
    ensures
        scan::found(src, a + b) == scan::found(src, a),
    decreases b.len(),
{
    if b.len() == 0 {
        assert(a + b =~= a);
    } else {
        let front = b.drop_last();
        assert forall|j: int| 0 <= j < front.len() implies (#[trigger] front[j]).kind
            != NodeKind::Declaration && front[j].kind != NodeKind::FunctionDefinition by {
            assert(front[j] == b[j]);
        }
        lemma_neutral(src, a, front);
        assert(b[b.len() - 1].kind != NodeKind::Declaration);
        assert(b[b.len() - 1].kind != NodeKind::FunctionDefinition);
        law_others_add_nothing(src, a + front, b.last());
        assert((a + front).push(b.last()) =~= a + b);
    }
}

/// A source that ends in a `PyMethodDef` array and the `PyModuleDef` that wires
/// it up exports the module and behind it one function for each entry of the
/// array, in order, and nothing behind them; what stands before, between and
/// behind the two, other than declarations and functions between and behind,
/// does not matter.
pub proof fn law_source_of_a_module(
    src: Seq<u8>,
    rel: Seq<char>,
    tree: NodeView,
    a: Seq<NodeView>,
    array: NodeView,
    b: Seq<NodeView>,
    module: NodeView,
    c: Seq<NodeView>,
    at: (int, int, int, int),
    arr: Seq<char>,
    md: (int, int, int, int, int),
    var: Seq<char>,
    n: Seq<char>,
)
    requires
        tree.children == a + seq![array] + b + seq![module] + c,
        are_neutral(b),
        are_neutral(c),
        array.kind == NodeKind::Declaration,
        has_type(src, array, "PyMethodDef"@),
        is_first(array.children, at.0, NodeKind::InitDeclarator),
        is_last(array.children, at.0, NodeKind::InitDeclarator),
        declares_array(src, array.children[at.0], at.1, at.2, arr, at.3),
        module.kind == NodeKind::Declaration,
        has_type(src, module, "PyModuleDef"@),
        is_first(module.children, md.0, NodeKind::InitDeclarator),
        is_first(module.children[md.0].children, md.1, NodeKind::Identifier),
        reads(src, module.children[md.0].children[md.1], var),
        is_first(module.children[md.0].children, md.2, NodeKind::InitializerList),
        ({
            let values = module.children[md.0].children[md.2].children;
            &&& is_first(values, md.3, NodeKind::StringLiteral)
            &&& quotes(src, values[md.3], n)
            &&& 0 <= md.4 < values.len()
            &&& wires_nothing(src, values.take(md.4))
            &&& names(src, values[md.4], arr)
        }),
        arr != "PyModuleDef_HEAD_INIT"@,
        arr != "NULL"@,
    ensures
        ({
            let es = scan::python_exports(src, rel, tree);
            let rows = scan::row_entries(src, array.children[at.0].children[at.3].children);
            let start = es.len() - rows.len() - 1;
            &&& start >= 0
            &&& es[start].kind == CExportKind::Module
            &&& es[start].python_name == n
            &&& es[start].c_name == var
            &&& es[start].relative_path == rel
            &&& forall|k: int|
                0 <= k < rows.len() ==> exports_named(
                    #[trigger] es[start + 1 + k],
                    rel,
                    CExportKind::Function,
                    rows[k],
                )
        }),
{
    law_array_is_found(src, a, array, at.0, at.1, at.2, arr, at.3, arr);
    let x = a.push(array);
    assert(a + seq![array] =~= x);
    lemma_neutral(src, x, b);
    let y = x + b;
    law_module_is_found(src, y, module, md.0, md.1, var, md.2, md.3, n, md.4, arr);
    assert(y + seq![module] =~= y.push(module));
    lemma_neutral(src, y.push(module), c);
    let was = scan::found(src, y);
    let now = scan::found(src, y.push(module));
    let m = now.modules.last();
    assert(now.modules =~= was.modules.push(m));
    law_module_with_its_functions(rel, now.arrays, was.modules, now.inits, m);
    assert(now == Found { arrays: now.arrays, modules: was.modules.push(m), inits: now.inits });
    let es = scan::python_exports(src, rel, tree);
    let before = scan::resolved(
        rel,
        Found { arrays: now.arrays, modules: was.modules, inits: now.inits },
    );
    let rows = scan::row_entries(src, array.children[at.0].children[at.3].children);
    let start = es.len() - rows.len() - 1;
    assert forall|k: int| 0 <= k < rows.len() implies exports_named(
        #[trigger] es[start + 1 + k],
        rel,
        CExportKind::Function,
        rows[k],
    ) by {
        if was.modules.len() > 0 {
            assert(es[before.len() + 1 + k] == es[start + 1 + k]);
        } else {
            assert(es[0 + 1 + k] == es[start + 1 + k]);
        }
    }
}

/// Whether the export at `k` is the first module of the file at `path`.
pub open spec fn is_first_module(exports: Seq<CExportView>, k: int, path: Seq<char>) -> bool {
    &&& 0 <= k < exports.len()
    &&& exports[k].relative_path == path
    &&& exports[k].kind == CExportKind::Module
    &&& forall|j: int|
        0 <= j < k ==> (#[trigger] exports[j]).relative_path != path || exports[j].kind
            != CExportKind::Module
}

/// The exports of a file go to the first module that the file exports; a file
/// without one has none.
pub proof fn law_module_of_a_file(exports: Seq<CExportView>, k: int, path: Seq<char>)
    ensures
        is_first_module(exports, k, path) ==> c_python::module_at(exports, path) == Some(
            exports[k].python_name,
        ),
        (forall|j: int|
            0 <= j < exports.len() ==> (#[trigger] exports[j]).relative_path != path
                || exports[j].kind != CExportKind::Module) ==> c_python::module_at(
            exports,
            path,
        ) is None,
    decreases exports.len(),
{
    if exports.len() > 0 {
        let rest = exports.skip(1);
        law_module_of_a_file(rest, k - 1, path);
        if is_first_module(exports, k, path) && k > 0 {
            assert(exports[0].relative_path != path || exports[0].kind != CExportKind::Module);
            assert forall|j: int| 0 <= j < k - 1 implies (#[trigger] rest[j]).relative_path != path
                || rest[j].kind != CExportKind::Module by {
                assert(rest[j] == exports[j + 1]);
            }
        }
        if forall|j: int|
            0 <= j < exports.len() ==> (#[trigger] exports[j]).relative_path != path
                || exports[j].kind != CExportKind::Module {
            assert(exports[0].relative_path != path || exports[0].kind != CExportKind::Module);
            assert forall|j: int| 0 <= j < rest.len() implies (#[trigger] rest[j]).relative_path
                != path || rest[j].kind != CExportKind::Module by {
                assert(rest[j] == exports[j + 1]);
            }
        }
    }
}

/// Every export is emitted in turn, under the module of its file, unless that
/// module has no name.
pub proof fn law_exports_are_emitted(
    package: Seq<char>,
    version: Seq<char>,
    entries: Seq<(Seq<char>, Seq<char>)>,
    all: Seq<CExportView>,
    es: Seq<CExportView>,
    e: CExportView,
)
    ensures
        ({
            let before = c_python::emissions(package, version, entries, all, es);
            let after = c_python::emissions(package, version, entries, all, es.push(e));
            &&& es.len() == 0 ==> before.len() == 0
            &&& match c_python::module_at(all, e.relative_path) {
                Some(module) => if module.len() > 0 {
                    after == before.push(
                        c_python::export_emission(package, version, entries, module, e),
                    )
                } else {
                    after == before
                },
                None => after == before,
            }
        }),
{
    assert(es.push(e).drop_last() =~= es);
}

/// A module's symbol ends in `__init__`, a function's is a method of the
/// module; both are under the package and linked to the C symbol of the
/// export's C name.
pub proof fn law_symbols_of_exports(
    package: Seq<char>,
    version: Seq<char>,
    entries: Seq<(Seq<char>, Seq<char>)>,
    module: Seq<char>,
    e: CExportView,
)
    ensures
        ({
            let m = c_python::export_emission(package, version, entries, module, e);
            let dotted = package + "."@ + module;
            &&& m.path == e.relative_path
            &&& m.display_name == e.python_name
            &&& e.kind == CExportKind::Module ==> m.kind == 29 && m.symbol
                == python::module_symbol(package, version, dotted)
            &&& e.kind == CExportKind::Function ==> m.kind == 17 && m.symbol
                == python::member_symbol(package, version, dotted, e.python_name, Suffix::Method)
            &&& m.target == lookup::least_symbol(entries, e.c_name)
        }),
{
}

/// The place of an emission among others.
proof fn lemma_emitted(
    package: Seq<char>,
    version: Seq<char>,
    entries: Seq<(Seq<char>, Seq<char>)>,
    all: Seq<CExportView>,
    es: Seq<CExportView>,
    k: int,
) -> (m: int)
    requires
        0 <= k < es.len(),
        c_python::module_at(all, es[k].relative_path) matches Some(module) && module.len() > 0,
    ensures
        0 <= m < c_python::emissions(package, version, entries, all, es).len(),
        c_python::emissions(package, version, entries, all, es)[m] == c_python::export_emission(
            package,
            version,
            entries,
            c_python::module_at(all, es[k].relative_path).unwrap(),
            es[k],
        ),
    decreases es.len(),
{
    let front = es.drop_last();
    assert(front.push(es.last()) =~= es);
    law_exports_are_emitted(package, version, entries, all, front, es.last());
    let before = c_python::emissions(package, version, entries, all, front);
    if k == es.len() - 1 {
        before.len() as int
    } else {
        assert(front[k] == es[k]);
        lemma_emitted(package, version, entries, all, front, k)
    }
}

/// A companion holds every export of a file with a named module, in the
/// document of its file, under its Python name, and linked to the first C
/// symbol of the input index with its C name, if there is one.
pub proof fn law_companion_holds_exports(
    input: index::IndexView,
    package: Seq<char>,
    version: Seq<char>,
    exports: Seq<CExportView>,
    k: int,
)
    requires
        0 <= k < exports.len(),
        c_python::module_at(exports, exports[k].relative_path) matches Some(module) && module.len()
            > 0,
    ensures
        ({
            let out = c_python::python_companion(input, package, version, exports);
            let native = lookup::least_symbol(
                lookup::c_entries(input.documents),
                exports[k].c_name,
            );
            &&& out.metadata.tool_name == "scip-c-python-augment"@
            &&& out.metadata.project_root == input.metadata.project_root
            &&& exists|d: int, i: int|
                0 <= d < out.documents.len() && 0 <= i < out.documents[d].symbols.len() && ({
                    let s = #[trigger] out.documents[d].symbols[i];
                    &&& out.documents[d].relative_path == exports[k].relative_path
                    &&& out.documents[d].language == "Python"@
                    &&& s.display_name == exports[k].python_name
                    &&& native is None ==> s.relationships.len() == 0
                    &&& native matches Some(symbol) ==> s.relationships.len() == 1
                        && s.relationships[0].symbol == symbol
                })
        }),
{
    let out = c_python::python_companion(input, package, version, exports);
    let entries = lookup::c_entries(input.documents);
    let es = c_python::emissions(package, version, entries, exports, exports);
    let m = lemma_emitted(package, version, entries, exports, exports, k);
    companion::law_documents_cover("Python"@, es);
    let d = choose|d: int|
        0 <= d < out.documents.len() && (#[trigger] out.documents[d]).relative_path == es[m].path
            && out.documents[d].symbols.contains(companion::emitted_symbol(es[m]));
    let path = companion::emitted_paths(es)[d];
    companion::law_document_symbols("Python"@, path, es, es[m]);
    let i = out.documents[d].symbols.index_of(companion::emitted_symbol(es[m]));
    assert(out.documents[d].symbols[i] == companion::emitted_symbol(es[m]));
}

/// The distribution is the one given, else the one that `pyproject.toml` names;
/// its version the one given, else the first of the index that is no dot, else
/// `0.0.0`.
pub proof fn law_chosen_distribution(
    given: Option<Seq<char>>,
    pyproject: Option<&str>,
    docs: Seq<index::DocumentView>,
)
    ensures
        given matches Some(name) ==> c_python::chosen_package(given, pyproject) == Some(name),
        given is None ==> c_python::chosen_package(given, pyproject) == (match pyproject {
            Some(doc) => python::project_name(text::lines_of(doc@), false),
            None => None,
        }),
        given matches Some(v) ==> c_python::chosen_version(given, docs) == v,
        given is None ==> match companion::first_version(docs, true, false) {
            Some(v) => c_python::chosen_version(given, docs) == v,
            None => c_python::chosen_version(given, docs) == "0.0.0"@,
        },
{
}

/// A companion is written if there are exports and a distribution, and only
/// then.
pub proof fn law_outcome(
    r: (companion::AugmentOutcome, Option<Vec<u8>>),
    input: index::IndexView,
    found: Seq<CExportView>,
    opts: c_python::AugmentOptions,
    pyproject: Option<&str>,
)
    requires
        c_python::is_augmented(r, input, found, opts, pyproject),
    ensures
        (r.0 is Written) <==> found.len() > 0 && c_python::chosen_package(
            text::opt_view(opts.python_package),
            pyproject,
        ) is Some,
        (r.1 is Some) <==> r.0 is Written,
        r.0 matches companion::AugmentOutcome::Written(stats) ==> stats.exports == found.len(),
{
}

/// A scan of a file adds what the scanner finds in the tree that the parser
/// gives for its text, as C, under the given path. A text
/// without the words of the interface, and one without a tree, adds nothing.
pub proof fn law_scan_file(
    text: &str,
    rel: &str,
    out: &mut scan::ScanResult,
    r: Result<(), syntax::SyntaxError>,
)
    requires
        call_ensures(scan::scan_file, (text, rel, out), r),
    ensures
        ({
            let cpp = false;
            &&& scan::mentions_python(text@) && syntax::has_syntax(text@, cpp) ==> final(out)@ == old(out)@
                + scan::python_exports(encode_utf8(text@), rel@, syntax::syntax_of(text@, cpp))
            &&& !scan::mentions_python(text@) ==> final(out)@ == old(out)@ && r is Ok
            &&& !syntax::has_syntax(text@, cpp) ==> final(out)@ == old(out)@
        }),
{
}

/// An augmentation with a package and a version given writes the companion of
/// the index for the exports, if there are any, and counts them. Bytes that are
/// no index are refused.
pub proof fn law_augment_file(
    input: &[u8],
    found: &scan::ScanResult,
    opts: &c_python::AugmentOptions,
    doc: Option<&str>,
    r: Result<(companion::AugmentOutcome, Option<Vec<u8>>), index::IndexError>,
    m: index::IndexView,
    package: String,
    version: String,
)
    requires
        call_ensures(c_python::augment_file, (input, found, opts, doc), r),
    ensures
        index::index_message(input@) is None ==> r is Err,
        index::index_message(input@) == Some(m) && opts.python_package == Some(package)
            && opts.python_version == Some(version) && found@.len() > 0 ==> ({
            let out = c_python::python_companion(index::read_part(m), package@, version@, found@);
            &&& r matches Ok(done)
            &&& done.0 matches companion::AugmentOutcome::Written(stats)
            &&& stats.exports == found@.len()
            &&& stats.documents == out.documents.len()
            &&& done.1 matches Some(bytes)
            &&& (bytes@.len() <= i32::MAX ==> index::index_message(bytes@) == Some(out))
        }),
{
}

/// A companion defines every export of a file with a named module where its name
/// stands in the source.
pub proof fn law_exports_are_placed(
    input: index::IndexView,
    package: Seq<char>,
    version: Seq<char>,
    exports: Seq<CExportView>,
    k: int,
)
    requires
        0 <= k < exports.len(),
        c_python::module_at(exports, exports[k].relative_path) matches Some(module) && module.len()
            > 0,
    ensures
        ({
            let entries = lookup::c_entries(input.documents);
            let module = c_python::module_at(exports, exports[k].relative_path).unwrap();
            companion_laws::is_defined_at(
                c_python::python_companion(input, package, version, exports).documents,
                exports[k].relative_path,
                c_python::export_emission(package, version, entries, module, exports[k]).symbol,
                companion_laws::on_line(exports[k].name_span),
            )
        }),
{
    let entries = lookup::c_entries(input.documents);
    let es = c_python::emissions(package, version, entries, exports, exports);
    let m = lemma_emitted(package, version, entries, exports, exports, k);
    companion_laws::law_placed("Python"@, es, m, companion_laws::on_line(exports[k].name_span));
}

} // verus!
