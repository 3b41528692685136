//! What the JNI scanner finds in sources of given shapes.

use crate::jni::name;
use crate::jni::scan;
use crate::jni::scan::{JniExportView, TableEntryView};
use crate::shape;
use crate::shape::{ends_in, has_no_identifier, has_none, is_first, quotes, reads};
use crate::syntax;
use crate::syntax::{NodeKind, NodeView, VisitView};
use crate::text;
use crate::companion;
use crate::companion_laws;
use crate::index;
use crate::jni;
use crate::jni::pom;
use crate::lookup;
use crate::symbol;
use crate::symbol::{DescriptorView, Suffix};
use crate::symbol_laws;
use crate::text_laws;
use crate::paths;
use vstd::prelude::*;
use vstd::utf8::*;

verus! {

/// Whether a node can hold a table's C function.
pub open spec fn is_value(node: NodeView) -> bool {
    node.kind == NodeKind::CastExpression || node.kind == NodeKind::Identifier
}

/// Whether the node at `j` is the first that gives a C function, and that
/// function is `c`: the last identifier of a cast, or an identifier.
pub open spec fn gives_target(
    src: Seq<u8>,
    nodes: Seq<NodeView>,
    j: int,
    k: int,
    c: Seq<char>,
) -> bool {
    &&& 0 <= j < nodes.len()
    &&& forall|i: int| 0 <= i < j && is_value(#[trigger] nodes[i]) ==> has_no_identifier(nodes[i])
    &&& is_value(nodes[j])
    &&& ends_in(src, nodes[j], k, c)
}

/// The C function of a row is that of the first cast or identifier in it.
pub proof fn law_first_target(src: Seq<u8>, nodes: Seq<NodeView>, j: int, k: int, c: Seq<char>)
    requires
        gives_target(src, nodes, j, k, c),
    ensures
        scan::first_target(src, nodes) == Some(c),
    decreases nodes.len(),
{
    if j == 0 {
        shape::law_last_identifier(src, nodes[0], k, c);
    } else {
        let rest = nodes.skip(1);
        if is_value(nodes[0]) {
            shape::law_no_identifier(src, nodes[0]);
        }
        assert forall|i: int| 0 <= i < j - 1 && is_value(
            #[trigger] rest[i],
        ) implies has_no_identifier(rest[i]) by {
            assert(rest[i] == nodes[i + 1]);
        }
        law_first_target(src, rest, j - 1, k, c);
    }
}

/// A row in which no cast or identifier holds an identifier has no C function.
proof fn lemma_no_target(src: Seq<u8>, nodes: Seq<NodeView>)
    requires
        forall|i: int|
            0 <= i < nodes.len() && is_value(#[trigger] nodes[i]) ==> has_no_identifier(nodes[i]),
    ensures
        scan::first_target(src, nodes) is None,
    decreases nodes.len(),
{
    if nodes.len() > 0 {
        let rest = nodes.skip(1);
        if is_value(nodes[0]) {
            shape::law_no_identifier(src, nodes[0]);
        }
        assert forall|i: int| 0 <= i < rest.len() && is_value(
            #[trigger] rest[i],
        ) implies has_no_identifier(rest[i]) by {
            assert(rest[i] == nodes[i + 1]);
        }
        lemma_no_target(src, rest);
    }
}

/// A row of a `JNINativeMethod` table maps the Java name in its first string
/// to its first C function. The signature behind the name, and whatever else
/// stands in the row, does not matter. A row of `NULL`s maps nothing.
pub proof fn law_row_maps_name_to_function(
    src: Seq<u8>,
    row: NodeView,
    i: int,
    n: Seq<char>,
    j: int,
    k: int,
    c: Seq<char>,
)
    requires
        is_first(row.children, i, NodeKind::StringLiteral),
        quotes(src, row.children[i], n),
        gives_target(src, row.children, j, k, c),
    ensures
        n.len() > 0 && n != "NULL"@ && c != "NULL"@ ==> scan::table_entry(src, row) == Some(
            TableEntryView {
                java_name: n,
                c_name: c,
                name_span: (
                    row.children[i].row as u32,
                    (row.children[i].column + 1) as u32,
                    (row.children[i].column + 1 + encode_utf8(n).len()) as u32,
                ),
            },
        ),
        n.len() == 0 || n == "NULL"@ || c == "NULL"@ ==> scan::table_entry(src, row) is None,
{
    shape::law_first_child(row.children, i, NodeKind::StringLiteral);
    shape::law_literal_is_quoted(src, row.children[i], n);
    law_first_target(src, row.children, j, k, c);
}

/// A row without a string, or without a C function, makes no entry.
pub proof fn law_row_without_name_or_function(src: Seq<u8>, row: NodeView)
    requires
        has_none(row.children, NodeKind::StringLiteral) || forall|i: int|
            0 <= i < row.children.len() && is_value(#[trigger] row.children[i])
                ==> has_no_identifier(row.children[i]),
    ensures
        scan::table_entry(src, row) is None,
{
    shape::law_first_child(row.children, 0, NodeKind::StringLiteral);
    if !has_none(row.children, NodeKind::StringLiteral) {
        lemma_no_target(src, row.children);
    }
}

/// The entries of a table are those of its first rows, then those of the
/// others: one for each row that makes one, and none for what is no row.
pub proof fn law_rows_add_up(src: Seq<u8>, a: Seq<NodeView>, b: Seq<NodeView>, node: NodeView)
    ensures
        scan::row_entries(src, a + b) == scan::row_entries(src, a) + scan::row_entries(src, b),
        node.kind != NodeKind::InitializerList ==> scan::row_entries(src, seq![node]).len() == 0,
        node.kind == NodeKind::InitializerList ==> match scan::table_entry(src, node) {
            Some(e) => scan::row_entries(src, seq![node]) == seq![e],
            None => scan::row_entries(src, seq![node]).len() == 0,
        },
    decreases b.len(),
{
    assert(seq![node].drop_last() =~= Seq::empty());
    assert(scan::row_entries(src, seq![node].drop_last()) =~= Seq::empty());
    assert(seq![node].last() == node);
    if let Some(e) = scan::table_entry(src, node) {
        assert(Seq::empty().push(e) =~= seq![e]);
    }
    if b.len() == 0 {
        assert(a + b =~= a);
        assert(scan::row_entries(src, a) + scan::row_entries(src, b) =~= scan::row_entries(src, a));
    } else {
        law_rows_add_up(src, a, b.drop_last(), node);
        assert((a + b).drop_last() =~= a + b.drop_last());
        assert(scan::row_entries(src, a + b) =~= scan::row_entries(src, a) + scan::row_entries(
            src,
            b,
        ));
    }
}

/// Every row that makes an entry is among the entries of its table.
pub proof fn law_every_row_counts(src: Seq<u8>, nodes: Seq<NodeView>, k: int)
    requires
        0 <= k < nodes.len(),
        nodes[k].kind == NodeKind::InitializerList,
        scan::table_entry(src, nodes[k]) is Some,
    ensures
        scan::row_entries(src, nodes).contains(scan::table_entry(src, nodes[k]).unwrap()),
{
    let (a, b) = (nodes.take(k), nodes.skip(k + 1));
    let one = seq![nodes[k]];
    assert(nodes =~= a + (one + b));
    law_rows_add_up(src, a, one + b, nodes[k]);
    law_rows_add_up(src, one, b, nodes[k]);
    let n = scan::row_entries(src, a).len() as int;
    assert(scan::row_entries(src, nodes)[n] == scan::table_entry(src, nodes[k]).unwrap());
}

/// How many rows of a table make an entry.
pub open spec fn count_rows(src: Seq<u8>, nodes: Seq<NodeView>) -> nat {
    nodes.filter(
        |n: NodeView|
            n.kind == NodeKind::InitializerList && scan::table_entry(src, n) is Some,
    ).len()
}

/// A table has as many entries as rows that make one.
pub proof fn law_rows_are_counted(src: Seq<u8>, nodes: Seq<NodeView>)
    ensures
        scan::row_entries(src, nodes).len() == count_rows(src, nodes),
    decreases nodes.len(),
{
    reveal(Seq::filter);
    if nodes.len() > 0 {
        law_rows_are_counted(src, nodes.drop_last());
    }
}

/// The tables of a declaration come one after the other: each initialised
/// declarator gives the rows of its first initialiser, and nothing else gives
/// any.
pub proof fn law_tables_add_up(
    src: Seq<u8>,
    a: Seq<NodeView>,
    b: Seq<NodeView>,
    node: NodeView,
    l: int,
)
    ensures
        scan::table_entries(src, a + b) == scan::table_entries(src, a) + scan::table_entries(src, b),
        node.kind == NodeKind::InitDeclarator && is_first(
            node.children,
            l,
            NodeKind::InitializerList,
        ) ==> scan::table_entries(src, seq![node]) == scan::row_entries(
            src,
            node.children[l].children,
        ),
        node.kind != NodeKind::InitDeclarator || has_none(node.children, NodeKind::InitializerList)
            ==> scan::table_entries(src, seq![node]).len() == 0,
    decreases b.len(),
{
    shape::law_first_child(node.children, l, NodeKind::InitializerList);
    assert(seq![node].drop_last() =~= Seq::empty());
    assert(scan::table_entries(src, seq![node].drop_last()) =~= Seq::empty());
    assert(seq![node].last() == node);
    let none = Seq::<TableEntryView>::empty();
    if is_first(node.children, l, NodeKind::InitializerList) {
        let rows = scan::row_entries(src, node.children[l].children);
        assert(none + rows =~= rows);
    }
    if b.len() == 0 {
        assert(a + b =~= a);
        assert(scan::table_entries(src, a) + scan::table_entries(src, b) =~= scan::table_entries(
            src,
            a,
        ));
    } else {
        law_tables_add_up(src, a, b.drop_last(), node, l);
        assert((a + b).drop_last() =~= a + b.drop_last());
        assert(scan::table_entries(src, a + b) =~= scan::table_entries(src, a)
            + scan::table_entries(src, b));
    }
}

/// Whether a declaration's type is `t`: one of its children is a type name that
/// reads so, or a `struct` with one.
pub open spec fn has_type(src: Seq<u8>, node: NodeView, t: Seq<char>) -> bool {
    ||| exists|i: int|
        0 <= i < node.children.len() && (#[trigger] node.children[i]).kind
            == NodeKind::TypeIdentifier && reads(src, node.children[i], t)
    ||| exists|i: int, j: int|
        0 <= i < node.children.len() && node.children[i].kind == NodeKind::StructSpecifier && 0 <= j
            < node.children[i].children.len() && (#[trigger] node.children[i].children[j]).kind
            == NodeKind::TypeIdentifier && reads(src, node.children[i].children[j], t)
}

/// The type of a declaration is one of its type names, with or without
/// `struct`.
pub proof fn law_declared_type(src: Seq<u8>, node: NodeView, t: Seq<char>)
    requires
        t.len() > 0,
    ensures
        scan::declares(src, node, t) == has_type(src, node, t),
{
    if has_type(src, node, t) {
        if exists|i: int|
            0 <= i < node.children.len() && (#[trigger] node.children[i]).kind
                == NodeKind::TypeIdentifier && reads(src, node.children[i], t) {
            let i = choose|i: int|
                0 <= i < node.children.len() && (#[trigger] node.children[i]).kind
                    == NodeKind::TypeIdentifier && reads(src, node.children[i], t);
            shape::law_text_is_read(src, node.children[i], t);
            assert(scan::names_type(src, node.children[i], t));
        } else {
            let (i, j) = choose|i: int, j: int|
                0 <= i < node.children.len() && node.children[i].kind == NodeKind::StructSpecifier
                    && 0 <= j < node.children[i].children.len() && (
                #[trigger] node.children[i].children[j]).kind == NodeKind::TypeIdentifier && reads(
                    src,
                    node.children[i].children[j],
                    t,
                );
            shape::law_text_is_read(src, node.children[i].children[j], t);
            assert(scan::names_type(src, node.children[i].children[j], t));
            assert(scan::has_type_name(src, node.children[i].children, t));
            assert(!scan::names_type(src, node.children[i], t));
        }
    }
    if scan::declares(src, node, t) {
        let i = choose|i: int|
            0 <= i < node.children.len() && {
                ||| scan::names_type(src, #[trigger] node.children[i], t)
                ||| node.children[i].kind == NodeKind::StructSpecifier && scan::has_type_name(
                    src,
                    node.children[i].children,
                    t,
                )
            };
        if scan::names_type(src, node.children[i], t) {
            shape::law_read_is_text(src, node.children[i], t);
        } else {
            let kids = node.children[i].children;
            let j = choose|j: int|
                0 <= j < kids.len() && scan::names_type(src, #[trigger] kids[j], t);
            shape::law_read_is_text(src, kids[j], t);
            assert(node.children[i].children[j].kind == NodeKind::TypeIdentifier);
        }
    }
}

/// The entries of a source are those of its `JNINativeMethod` declarations, in
/// the order in which they are visited, and no other node gives any.
pub proof fn law_declarations_add_up(
    src: Seq<u8>,
    a: Seq<VisitView>,
    b: Seq<VisitView>,
    v: VisitView,
)
    ensures
        scan::all_entries(src, a + b) == scan::all_entries(src, a) + scan::all_entries(src, b),
        scan::all_entries(src, seq![v]) == (if v.node.kind == NodeKind::Declaration && has_type(
            src,
            v.node,
            "JNINativeMethod"@,
        ) {
            scan::table_entries(src, v.node.children)
        } else {
            Seq::empty()
        }),
    decreases b.len(),
{
    reveal_strlit("JNINativeMethod");
    law_declared_type(src, v.node, "JNINativeMethod"@);
    assert(seq![v].drop_last() =~= Seq::empty());
    assert(scan::all_entries(src, seq![v].drop_last()) =~= Seq::empty());
    assert(seq![v].last() == v);
    let none = Seq::<TableEntryView>::empty();
    assert(none + scan::table_entries(src, v.node.children) =~= scan::table_entries(
        src,
        v.node.children,
    ));
    if b.len() == 0 {
        assert(a + b =~= a);
        assert(scan::all_entries(src, a) + scan::all_entries(src, b) =~= scan::all_entries(src, a));
    } else {
        law_declarations_add_up(src, a, b.drop_last(), v);
        assert((a + b).drop_last() =~= a + b.drop_last());
        assert(scan::all_entries(src, a + b) =~= scan::all_entries(src, a) + scan::all_entries(
            src,
            b,
        ));
    }
}

/// Whether a node calls `f`, by its name or as a field of an object, with the
/// first argument list at `l`.
pub open spec fn calls(src: Seq<u8>, call: NodeView, f: Seq<char>, l: int) -> bool {
    &&& call.kind == NodeKind::CallExpression
    &&& 0 <= l < call.children.len()
    &&& call.children[l].is_arguments
    &&& forall|j: int| 0 <= j < l ==> !(#[trigger] call.children[j]).is_arguments
    &&& {
        ||| call.children[0].kind == NodeKind::Identifier && reads(src, call.children[0], f)
        ||| call.children[0].kind == NodeKind::FieldExpression && exists|i: int|
            is_first(call.children[0].children, i, NodeKind::FieldIdentifier) && reads(
                src,
                #[trigger] call.children[0].children[i],
                f,
            )
    }
}

/// The function that a call names.
proof fn lemma_callee(src: Seq<u8>, call: NodeView, f: Seq<char>, l: int)
    requires
        calls(src, call, f, l),
    ensures
        scan::callee_name(src, call) == Some(f),
        syntax::first_arguments(call.children) == Some(call.children[l]),
{
    shape::law_first_arguments(call.children, l);
    let callee = call.children[0];
    if callee.kind == NodeKind::Identifier {
        shape::law_text_is_read(src, callee, f);
    } else {
        let i = choose|i: int|
            is_first(callee.children, i, NodeKind::FieldIdentifier) && reads(
                src,
                #[trigger] callee.children[i],
                f,
            );
        shape::law_first_child(callee.children, i, NodeKind::FieldIdentifier);
        shape::law_text_is_read(src, callee.children[i], f);
    }
}

/// A call to `FindClass` looks up the class in its first string; a call to
/// another function, and one without a string, looks up none.
pub proof fn law_find_class(
    src: Seq<u8>,
    call: NodeView,
    f: Seq<char>,
    l: int,
    s: int,
    class: Seq<char>,
)
    requires
        calls(src, call, f, l),
    ensures
        f == "FindClass"@ && is_first(call.children[l].children, s, NodeKind::StringLiteral)
            && quotes(src, call.children[l].children[s], class) && class.len() > 0
            ==> scan::class_argument(src, call) == Some(class),
        f != "FindClass"@ ==> scan::class_argument(src, call) is None,
        has_none(call.children[l].children, NodeKind::StringLiteral) ==> scan::class_argument(
            src,
            call,
        ) is None,
{
    lemma_callee(src, call, f, l);
    shape::law_first_child(call.children[l].children, s, NodeKind::StringLiteral);
    if quotes(src, call.children[l].children[s], class) {
        shape::law_literal_is_quoted(src, call.children[l].children[s], class);
    }
}

/// The classes that a source looks up are those of its calls, in order.
pub proof fn law_lookups_add_up(
    src: Seq<u8>,
    a: Seq<VisitView>,
    b: Seq<VisitView>,
    v: VisitView,
)
    ensures
        scan::looked_up(src, a + b) == scan::looked_up(src, a) + scan::looked_up(src, b),
        v.node.kind != NodeKind::CallExpression ==> scan::looked_up(src, seq![v]).len() == 0,
        v.node.kind == NodeKind::CallExpression ==> match scan::class_argument(src, v.node) {
            Some(c) => scan::looked_up(src, seq![v]) == seq![c],
            None => scan::looked_up(src, seq![v]).len() == 0,
        },
    decreases b.len(),
{
    assert(seq![v].drop_last() =~= Seq::empty());
    assert(scan::looked_up(src, seq![v].drop_last()) =~= Seq::empty());
    assert(seq![v].last() == v);
    if let Some(c) = scan::class_argument(src, v.node) {
        assert(Seq::empty().push(c) =~= seq![c]);
    }
    if b.len() == 0 {
        assert(a + b =~= a);
        assert(scan::looked_up(src, a) + scan::looked_up(src, b) =~= scan::looked_up(src, a));
    } else {
        law_lookups_add_up(src, a, b.drop_last(), v);
        assert((a + b).drop_last() =~= a + b.drop_last());
        assert(scan::looked_up(src, a + b) =~= scan::looked_up(src, a) + scan::looked_up(src, b));
    }
}

/// Components with a slash between each two.
pub open spec fn slashed(parts: Seq<Seq<char>>) -> Seq<char>
    decreases parts.len(),
{
    if parts.len() == 0 {
        Seq::empty()
    } else if parts.len() == 1 {
        parts[0]
    } else {
        parts[0] + "/"@ + slashed(parts.skip(1))
    }
}

/// A class in slash form is split into its components.
proof fn lemma_slashed(parts: Seq<Seq<char>>)
    requires
        parts.len() > 0,
        forall|i: int| 0 <= i < parts.len() ==> !(#[trigger] parts[i]).contains('/'),
    ensures
        text::split_text(slashed(parts), "/"@) == parts,
    decreases parts.len(),
{
    reveal_strlit("/");
    assert(!parts[0].contains("/"@[0]));
    let rest = parts.skip(1);
    shape::law_split(parts[0], "/"@, slashed(rest));
    if parts.len() == 1 {
        assert(seq![parts[0]] =~= parts);
    } else {
        assert forall|i: int| 0 <= i < rest.len() implies !(#[trigger] rest[i]).contains('/') by {
            assert(rest[i] == parts[i + 1]);
        }
        lemma_slashed(rest);
        assert(seq![parts[0]] + rest =~= parts);
    }
}

/// A source that looks up one class, however often, registers its tables for
/// the components of that class. A source that looks up none, or two, or a
/// class with an empty component, registers them for none.
pub proof fn law_one_class(classes: Seq<Seq<char>>, parts: Seq<Seq<char>>, i: int, j: int)
    requires
        parts.len() > 0,
        forall|k: int| 0 <= k < parts.len() ==> !(#[trigger] parts[k]).contains('/'),
    ensures
        ({
            let same = classes.len() > 0 && forall|k: int|
                0 <= k < classes.len() ==> #[trigger] classes[k] == slashed(parts);
            let whole = forall|k: int| 0 <= k < parts.len() ==> (#[trigger] parts[k]).len() > 0;
            &&& same && whole ==> scan::single_class(classes) == Some(parts)
            &&& same && !whole ==> scan::single_class(classes) is None
        }),
        classes.len() == 0 ==> scan::single_class(classes) is None,
        0 <= i < classes.len() && 0 <= j < classes.len() && classes[i] != classes[j]
            ==> scan::single_class(classes) is None,
{
    lemma_slashed(parts);
}

/// Whether an identifier's parent makes it an exported function.
pub open spec fn declares(parent: Option<NodeKind>) -> bool {
    ||| parent == Some(NodeKind::FunctionDeclarator)
    ||| parent == Some(NodeKind::CallExpression)
    ||| parent == Some(NodeKind::Error)
}

/// An identifier that is the mangled name of a native method, with or without
/// an overload signature, is an export of that method when it stands in a
/// declarator, a call or a parse error: with the name as it stands, at its
/// place. Anywhere else it is none.
pub proof fn law_mangled_function(
    src: Seq<u8>,
    rel: Seq<char>,
    v: VisitView,
    n: name::JniNameView,
    signature: Option<Seq<char>>,
)
    requires
        v.node.kind == NodeKind::Identifier,
        n.class.len() > 0,
        name::are_readable(n.class.push(n.method)),
        reads(
            src,
            v.node,
            name::mangled(n) + match signature {
                Some(signature) => seq!['_', '_'] + signature,
                None => Seq::empty(),
            },
        ),
    ensures
        ({
            let c = name::mangled(n) + match signature {
                Some(signature) => seq!['_', '_'] + signature,
                None => Seq::empty(),
            };
            &&& declares(v.parent) ==> scan::exported_fns(src, rel, seq![v]) == seq![
                JniExportView {
                    relative_path: rel,
                    class: n.class,
                    java_name: n.method,
                    c_name: c,
                    name_span: (
                        v.node.row as u32,
                        v.node.column as u32,
                        (v.node.column + encode_utf8(c).len()) as u32,
                    ),
                },
            ]
            &&& !declares(v.parent) ==> scan::exported_fns(src, rel, seq![v]).len() == 0
        }),
{
    let c = name::mangled(n) + match signature {
        Some(signature) => seq!['_', '_'] + signature,
        None => Seq::empty(),
    };
    name::law_demangle_mangled(n, signature);
    shape::law_text_is_read(src, v.node, c);
    assert(seq![v].drop_last() =~= Seq::empty());
    assert(scan::exported_fns(src, rel, seq![v].drop_last()) =~= Seq::empty());
    if let Some(e) = scan::exported_fn(src, rel, v) {
        assert(Seq::empty().push(e) =~= seq![e]);
    }
}

/// A node that is no identifier, or whose text does not start with `Java_`, is
/// no exported function.
pub proof fn law_other_nodes(src: Seq<u8>, rel: Seq<char>, v: VisitView, t: Seq<char>)
    requires
        reads(src, v.node, t),
        v.node.kind != NodeKind::Identifier || !text::has_prefix(t, "Java_"@),
    ensures
        scan::exported_fns(src, rel, seq![v]).len() == 0,
{
    shape::law_text_is_read(src, v.node, t);
    name::law_demangled_shape(t);
    assert(seq![v].drop_last() =~= Seq::empty());
    assert(scan::exported_fns(src, rel, seq![v].drop_last()) =~= Seq::empty());
}

/// The exported functions of a source are those of its nodes, in order.
pub proof fn law_functions_add_up(
    src: Seq<u8>,
    rel: Seq<char>,
    a: Seq<VisitView>,
    b: Seq<VisitView>,
)
    ensures
        scan::exported_fns(src, rel, a + b) == scan::exported_fns(src, rel, a)
            + scan::exported_fns(src, rel, b),
    decreases b.len(),
{
    if b.len() == 0 {
        assert(a + b =~= a);
        assert(scan::exported_fns(src, rel, a) + scan::exported_fns(src, rel, b)
            =~= scan::exported_fns(src, rel, a));
    } else {
        law_functions_add_up(src, rel, a, b.drop_last());
        assert((a + b).drop_last() =~= a + b.drop_last());
        assert(scan::exported_fns(src, rel, a + b) =~= scan::exported_fns(src, rel, a)
            + scan::exported_fns(src, rel, b));
    }
}

/// A source exports its functions first. If it looks up one class, each entry
/// of its tables is exported behind them, in order, as a method of that class
/// with the entry's names and place; else no entry is.
pub proof fn law_functions_then_tables(
    src: Seq<u8>,
    rel: Seq<char>,
    tree: NodeView,
    vs: Seq<VisitView>,
)
    requires
        vs == syntax::visits(tree, None),
    ensures
        ({
            let es = scan::jni_exports(src, rel, tree);
            let functions = scan::exported_fns(src, rel, vs);
            let entries = scan::all_entries(src, vs);
            &&& es.len() >= functions.len()
            &&& es.take(functions.len() as int) == functions
            &&& match scan::single_class(scan::looked_up(src, vs)) {
                Some(class) => {
                    &&& es.len() == functions.len() + entries.len()
                    &&& forall|k: int|
                        0 <= k < entries.len() ==> (#[trigger] es[functions.len() + k]) == (
                        JniExportView {
                            relative_path: rel,
                            class,
                            java_name: entries[k].java_name,
                            c_name: entries[k].c_name,
                            name_span: entries[k].name_span,
                        })
                },
                None => es.len() == functions.len(),
            }
        }),
{
    let es = scan::jni_exports(src, rel, tree);
    let functions = scan::exported_fns(src, rel, vs);
    assert(es.take(functions.len() as int) =~= functions);
}

/// A text in which a mangled name or a table can stand is read.
pub proof fn law_interface_words(a: Seq<char>, b: Seq<char>)
    ensures
        scan::mentions_jni(a + "Java_"@ + b),
        scan::mentions_jni(a + "JNINativeMethod"@ + b),
{
    shape::law_found_where_it_stands(a, "Java_"@, b);
    shape::law_found_where_it_stands(a, "JNINativeMethod"@, b);
}

/// Descriptors of one kind.
pub open spec fn all_of(parts: Seq<Seq<char>>, suffix: Suffix) -> Seq<DescriptorView> {
    Seq::new(parts.len(), |i: int| DescriptorView { name: parts[i], suffix })
}

/// Whether all parts are plain names without a dollar sign, of which there is
/// at least one.
pub open spec fn are_plain_parts(parts: Seq<Seq<char>>) -> bool {
    forall|i: int|
        0 <= i < parts.len() ==> symbol_laws::is_plain_name(#[trigger] parts[i])
            && !parts[i].contains('$')
}

/// The symbol of a Java method: the packages of its class as namespaces, the
/// class and those it is nested in as types, and the method, under Maven's
/// package and version.
pub proof fn law_java_symbols(
    package: Seq<char>,
    version: Seq<char>,
    packages: Seq<Seq<char>>,
    classes: Seq<Seq<char>>,
    method: Seq<char>,
)
    requires
        are_plain_parts(packages),
        are_plain_parts(classes),
        classes.len() > 0,
        symbol_laws::is_plain_name(method),
    ensures
        jni::method_symbol(
            package,
            version,
            packages.push(text_laws::joined_by(classes, "$"@)),
            method,
        ) == "semanticdb"@ + seq![' '] + "maven"@ + seq![' '] + symbol_laws::dotted(package) + seq![
            ' ',
        ] + symbol_laws::dotted(version) + seq![' '] + symbol_laws::written(
            all_of(packages, Suffix::Namespace) + all_of(classes, Suffix::Type) + seq![
                DescriptorView { name: method, suffix: Suffix::Method },
            ],
        ),
{
    reveal_strlit("$");
    reveal_strlit("maven");
    let class = packages.push(text_laws::joined_by(classes, "$"@));
    assert(class.drop_last() =~= packages);
    assert forall|i: int| 0 <= i < classes.len() implies !(#[trigger] classes[i]).contains(
        "$"@[0],
    ) && classes[i].len() > 0 by {
        assert(symbol_laws::is_plain_name(classes[i]));
    }
    text_laws::law_split_joined(classes, "$"@);
    text_laws::law_nonempty(classes, Seq::empty(), Seq::empty());
    let ds = all_of(packages, Suffix::Namespace) + all_of(classes, Suffix::Type) + seq![
        DescriptorView { name: method, suffix: Suffix::Method },
    ];
    assert(symbol::named(packages, Suffix::Namespace) + symbol::named(classes, Suffix::Type)
        + symbol::named(seq![method], Suffix::Method) =~= ds);
    assert forall|i: int| 0 <= i < ds.len() implies symbol_laws::is_plain_name(
        (#[trigger] ds[i]).name,
    ) by {
        if i < packages.len() {
            assert(symbol_laws::is_plain_name(packages[i]));
        } else if i < packages.len() + classes.len() {
            assert(symbol_laws::is_plain_name(classes[i - packages.len()]));
        }
    }
    let p = jni::java_package_view(package, version);
    assert(symbol_laws::dotted(p.manager) == "maven"@);
    symbol_laws::law_symbols_are_written(p, ds);
}

/// A companion holds every export, in the document of its file, as a method
/// under its Java name, and linked to the first C symbol of the input index
/// with its C name, if there is one.
pub proof fn law_companion_holds_exports(
    input: index::IndexView,
    package: Seq<char>,
    version: Seq<char>,
    exports: Seq<JniExportView>,
    m: int,
)
    requires
        0 <= m < exports.len(),
    ensures
        ({
            let out = jni::java_companion(input, package, version, exports);
            let native = lookup::least_symbol(
                lookup::c_entries(input.documents),
                exports[m].c_name,
            );
            &&& out.metadata.tool_name == "scip-jni-augment"@
            &&& out.metadata.project_root == input.metadata.project_root
            &&& exists|d: int, i: int|
                0 <= d < out.documents.len() && 0 <= i < out.documents[d].symbols.len() && ({
                    let s = #[trigger] out.documents[d].symbols[i];
                    &&& out.documents[d].relative_path == exports[m].relative_path
                    &&& out.documents[d].language == "Java"@
                    &&& s.symbol == jni::method_symbol(
                        package,
                        version,
                        exports[m].class,
                        exports[m].java_name,
                    )
                    &&& s.display_name == exports[m].java_name
                    &&& s.kind == 26
                    &&& native is None ==> s.relationships.len() == 0
                    &&& native matches Some(symbol) ==> s.relationships.len() == 1
                        && s.relationships[0].symbol == symbol
                })
        }),
{
    let out = jni::java_companion(input, package, version, exports);
    let c_entries = lookup::c_entries(input.documents);
    let es = exports.map_values(
        |e: JniExportView| jni::export_emission(package, version, c_entries, e),
    );
    assert(es[m] == jni::export_emission(package, version, c_entries, exports[m]));
    companion::law_documents_cover("Java"@, es);
    let d = choose|d: int|
        0 <= d < out.documents.len() && (#[trigger] out.documents[d]).relative_path == es[m].path
            && out.documents[d].symbols.contains(companion::emitted_symbol(es[m]));
    let path = companion::emitted_paths(es)[d];
    companion::law_document_symbols("Java"@, path, es, es[m]);
    let i = out.documents[d].symbols.index_of(companion::emitted_symbol(es[m]));
    assert(out.documents[d].symbols[i] == companion::emitted_symbol(es[m]));
}

/// Package and version are those given, else those of `pom.xml`, else empty.
/// The package of a `pom.xml` is `maven/`, its group, a slash and its artifact.
pub proof fn law_chosen_coordinates(
    given: Option<Seq<char>>,
    group: Seq<char>,
    artifact: Seq<char>,
    version: Option<Seq<char>>,
)
    ensures
        ({
            let pom = pom::PomView {
                group_id: Some(group),
                artifact_id: Some(artifact),
                version,
            };
            let nameless = pom::PomView { artifact_id: None, ..pom };
            let groupless = pom::PomView { group_id: None, ..pom };
            &&& given matches Some(name) ==> jni::chosen_package(given, Some(pom)) == name
            &&& given is None ==> jni::chosen_package(given, Some(pom)) == "maven/"@ + group + "/"@
                + artifact
            &&& given is None ==> jni::chosen_package(given, Some(nameless)).len() == 0
            &&& given is None ==> jni::chosen_package(given, Some(groupless)).len() == 0
            &&& given is None ==> jni::chosen_package(given, None).len() == 0
            &&& given matches Some(v) ==> jni::chosen_version(given, Some(pom)) == v
            &&& given is None ==> match version {
                Some(v) => jni::chosen_version(given, Some(pom)) == v,
                None => jni::chosen_version(given, Some(pom)).len() == 0,
            }
            &&& given is None ==> jni::chosen_version(given, None).len() == 0
        }),
{
}

/// A companion is written if there are exports, and only then.
pub proof fn law_outcome(
    r: (companion::AugmentOutcome, Option<Vec<u8>>),
    input: index::IndexView,
    found: Seq<JniExportView>,
    opts: jni::AugmentOptions,
    pom: Option<&str>,
)
    requires
        jni::is_augmented(r, input, found, opts, pom),
    ensures
        (r.0 is Written) <==> found.len() > 0,
        (r.1 is Some) <==> found.len() > 0,
        r.0 matches companion::AugmentOutcome::Written(stats) ==> stats.exports == found.len(),
{
}

/// A scan of a file adds what the scanner finds in the tree that the parser
/// gives for its text, as C++ if its extension says so and as C if not, under the given path. A text
/// without the words of the interface, and one without a tree, adds nothing.
pub proof fn law_scan_file(
    text: &str,
    path: &str,
    rel: &str,
    out: &mut scan::ScanResult,
    r: Result<(), syntax::SyntaxError>,
)
    requires
        call_ensures(scan::scan_file, (text, path, rel, out), r),
    ensures
        ({
            let cpp = paths::cpp_source(path@);
            &&& scan::mentions_jni(text@) && syntax::has_syntax(text@, cpp) ==> final(out)@ == old(out)@
                + scan::jni_exports(encode_utf8(text@), rel@, syntax::syntax_of(text@, cpp))
            &&& !scan::mentions_jni(text@) ==> final(out)@ == old(out)@ && r is Ok
            &&& !syntax::has_syntax(text@, cpp) ==> final(out)@ == old(out)@
        }),
{
}

/// An augmentation with a package and a version given writes the companion of
/// the index for the exports, if there are any, and counts them. Bytes that are
/// no index are refused.
pub proof fn law_augment_file(
    input: &[u8],
    found: &scan::ScanResult,
    opts: &jni::AugmentOptions,
    doc: Option<&str>,
    r: Result<(companion::AugmentOutcome, Option<Vec<u8>>), index::IndexError>,
    m: index::IndexView,
    package: String,
    version: String,
)
    requires
        call_ensures(jni::augment_file, (input, found, opts, doc), r),
    ensures
        index::index_message(input@) is None ==> r is Err,
        index::index_message(input@) == Some(m) && opts.java_package == Some(package)
            && opts.java_version == Some(version) && found@.len() > 0 ==> ({
            let out = jni::java_companion(index::read_part(m), package@, version@, found@);
            &&& r matches Ok(done)
            &&& done.0 matches companion::AugmentOutcome::Written(stats)
            &&& stats.exports == found@.len()
            &&& stats.documents == out.documents.len()
            &&& done.1 matches Some(bytes)
            &&& (bytes@.len() <= i32::MAX ==> index::index_message(bytes@) == Some(out))
        }),
{
}

/// A companion defines every export where its name stands in the source.
pub proof fn law_exports_are_placed(
    input: index::IndexView,
    package: Seq<char>,
    version: Seq<char>,
    exports: Seq<JniExportView>,
    m: int,
)
    requires
        0 <= m < exports.len(),
    ensures
        companion_laws::is_defined_at(
            jni::java_companion(input, package, version, exports).documents,
            exports[m].relative_path,
            jni::method_symbol(package, version, exports[m].class, exports[m].java_name),
            companion_laws::on_line(exports[m].name_span),
        ),
{
    let c_entries = lookup::c_entries(input.documents);
    let es = exports.map_values(
        |e: JniExportView| jni::export_emission(package, version, c_entries, e),
    );
    assert(es[m] == jni::export_emission(package, version, c_entries, exports[m]));
    companion_laws::law_placed("Java"@, es, m, companion_laws::on_line(exports[m].name_span));
}

} // verus!
