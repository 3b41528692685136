//! What the PyO3 scanner finds in Rust items of given shapes, and which module
//! the exports go to.

use crate::companion;
use crate::companion_laws;
use crate::index;
use crate::lookup;
use crate::pyo3;
use crate::pyo3::rust;
use crate::pyo3::rust::{RustAttrView, RustImplView, RustItemView, RustNamedView};
use crate::pyo3::scan;
use crate::pyo3::scan::{PyExportKindView, PyExportView};
use crate::python;
use crate::shape;
use crate::symbol;
use crate::symbol::Suffix;
use crate::text;
use vstd::prelude::*;
use vstd::utf8::*;

verus! {

/// Whether `v` is the last string that stands with the key `name` among an
/// attribute's arguments.
pub open spec fn gives(a: RustAttrView, v: Seq<char>) -> bool {
    &&& a.arguments matches Some(x)
    &&& text::is_countable(x)
    &&& exists|k: int| #[trigger] is_last_name(rust::argument_pairs(x), k, v)
}

/// Whether the pair at `k` is the last of the key `name` with a string, `v`.
pub open spec fn is_last_name(pairs: Seq<rust::PairView>, k: int, v: Seq<char>) -> bool {
    &&& 0 <= k < pairs.len()
    &&& pairs[k] == (Some("name"@), Some(v))
    &&& forall|j: int|
        k < j < pairs.len() ==> (#[trigger] pairs[j]).0 != Some("name"@) || pairs[j].1 is None
}

/// Whether an attribute's arguments give no name.
pub open spec fn gives_none(a: RustAttrView) -> bool {
    match a.arguments {
        Some(x) => text::is_countable(x) ==> forall|j: int|
            0 <= j < rust::argument_pairs(x).len() ==> (#[trigger] rust::argument_pairs(x)[j]).0
                != Some("name"@) || rust::argument_pairs(x)[j].1 is None,
        None => true,
    }
}

/// The last string of the key `name` counts.
pub proof fn law_last_name_counts(pairs: Seq<rust::PairView>, k: int, v: Seq<char>)
    ensures
        is_last_name(pairs, k, v) ==> rust::last_literal(pairs, "name"@) == Some(v),
        (forall|j: int|
            0 <= j < pairs.len() ==> (#[trigger] pairs[j]).0 != Some("name"@) || pairs[j].1 is None)
            ==> rust::last_literal(pairs, "name"@) is None,
    decreases pairs.len(),
{
    if pairs.len() > 0 {
        let front = pairs.drop_last();
        law_last_name_counts(front, k, v);
        assert(pairs[pairs.len() - 1] == pairs.last());
        if is_last_name(pairs, k, v) && k < pairs.len() - 1 {
            assert forall|j: int| k < j < front.len() implies (#[trigger] front[j]).0 != Some(
                "name"@,
            ) || front[j].1 is None by {
                assert(front[j] == pairs[j]);
            }
        }
        if forall|j: int|
            0 <= j < pairs.len() ==> (#[trigger] pairs[j]).0 != Some("name"@)
                || pairs[j].1 is None {
            assert forall|j: int| 0 <= j < front.len() implies (#[trigger] front[j]).0 != Some(
                "name"@,
            ) || front[j].1 is None by {
                assert(front[j] == pairs[j]);
            }
        }
    }
}

/// The name that an attribute gives is read off its arguments.
proof fn lemma_given(a: RustAttrView, v: Seq<char>)
    ensures
        gives(a, v) ==> scan::given_name(a) == Some(v),
        gives_none(a) ==> scan::given_name(a) is None,
{
    if let Some(x) = a.arguments {
        let pairs = rust::argument_pairs(x);
        law_last_name_counts(pairs, 0, v);
        if gives(a, v) {
            let k = choose|k: int| #[trigger] is_last_name(pairs, k, v);
            law_last_name_counts(pairs, k, v);
        }
    }
}

/// Whether an attribute is called `name`.
pub open spec fn is_called(a: RustAttrView, name: Seq<char>) -> bool {
    a.ident == Some(name)
}

/// Whether no attribute `pyo3` gives a name.
pub open spec fn pyo3_gives_none(attrs: Seq<RustAttrView>) -> bool {
    forall|j: int| 0 <= j < attrs.len() && is_called(#[trigger] attrs[j], "pyo3"@) ==> gives_none(attrs[j])
}

/// The Python name of a function is the one that the last `pyo3` attribute with
/// a name gives.
pub proof fn law_last_given(attrs: Seq<RustAttrView>, k: int, v: Seq<char>)
    ensures
        0 <= k < attrs.len() && is_called(attrs[k], "pyo3"@) && gives(attrs[k], v)
            && pyo3_gives_none(attrs.skip(k + 1)) ==> scan::last_given(attrs) == Some(v),
        pyo3_gives_none(attrs) ==> scan::last_given(attrs) is None,
    decreases attrs.len(),
{
    if attrs.len() > 0 {
        let front = attrs.drop_last();
        let last = attrs.last();
        law_last_given(front, k, v);
        lemma_given(last, v);
        assert(attrs[attrs.len() - 1] == last);
        if 0 <= k < attrs.len() - 1 && pyo3_gives_none(attrs.skip(k + 1)) {
            let rest = attrs.skip(k + 1);
            assert(rest[rest.len() - 1] == last);
            assert(front.skip(k + 1) =~= rest.drop_last());
            assert forall|j: int| 0 <= j < rest.drop_last().len() && is_called(
                #[trigger] rest.drop_last()[j],
                "pyo3"@,
            ) implies gives_none(rest.drop_last()[j]) by {
                assert(rest.drop_last()[j] == rest[j]);
            }
        }
        if pyo3_gives_none(attrs) {
            assert forall|j: int| 0 <= j < front.len() && is_called(
                #[trigger] front[j],
                "pyo3"@,
            ) implies gives_none(front[j]) by {
                assert(front[j] == attrs[j]);
            }
        }
    }
}

/// The first `pyo3` attribute with a name gives it to a class.
proof fn lemma_first_given(attrs: Seq<RustAttrView>, k: int, v: Seq<char>)
    ensures
        0 <= k < attrs.len() && is_called(attrs[k], "pyo3"@) && gives(attrs[k], v)
            && pyo3_gives_none(attrs.take(k)) ==> scan::first_given(attrs) == Some(v),
        pyo3_gives_none(attrs) ==> scan::first_given(attrs) is None,
    decreases attrs.len(),
{
    if attrs.len() > 0 {
        let rest = attrs.skip(1);
        lemma_first_given(rest, k - 1, v);
        lemma_given(attrs[0], v);
        if 0 < k < attrs.len() && pyo3_gives_none(attrs.take(k)) {
            assert(attrs.take(k)[0] == attrs[0]);
            assert(rest.take(k - 1) =~= attrs.take(k).skip(1));
            assert forall|j: int| 0 <= j < k - 1 && is_called(
                #[trigger] rest.take(k - 1)[j],
                "pyo3"@,
            ) implies gives_none(rest.take(k - 1)[j]) by {
                assert(rest.take(k - 1)[j] == attrs.take(k)[j + 1]);
            }
        }
        if pyo3_gives_none(attrs) {
            assert forall|j: int| 0 <= j < rest.len() && is_called(
                #[trigger] rest[j],
                "pyo3"@,
            ) implies gives_none(rest[j]) by {
                assert(rest[j] == attrs[j + 1]);
            }
        }
    }
}

/// Whether no attribute exports a function.
pub open spec fn exports_no_function(attrs: Seq<RustAttrView>) -> bool {
    forall|j: int|
        0 <= j < attrs.len() ==> !is_called(#[trigger] attrs[j], "pyfunction"@) && !is_called(
            attrs[j],
            "pymodule"@,
        )
}

/// The last attribute that exports a function says as what.
proof fn lemma_function_kind(attrs: Seq<RustAttrView>, k: int)
    ensures
        0 <= k < attrs.len() && exports_no_function(attrs.skip(k + 1)) && is_called(
            attrs[k],
            "pyfunction"@,
        ) ==> scan::function_kind(attrs) == Some(PyExportKindView::Function),
        0 <= k < attrs.len() && exports_no_function(attrs.skip(k + 1)) && is_called(
            attrs[k],
            "pymodule"@,
        ) ==> scan::function_kind(attrs) == Some(PyExportKindView::Module),
        exports_no_function(attrs) ==> scan::function_kind(attrs) is None,
    decreases attrs.len(),
{
    reveal_strlit("pyfunction");
    reveal_strlit("pymodule");
    assert("pyfunction"@.len() == 10 && "pymodule"@.len() == 8);
    if attrs.len() > 0 {
        let front = attrs.drop_last();
        lemma_function_kind(front, k);
        assert(attrs[attrs.len() - 1] == attrs.last());
        if 0 <= k < attrs.len() - 1 && exports_no_function(attrs.skip(k + 1)) {
            let rest = attrs.skip(k + 1);
            assert(rest[rest.len() - 1] == attrs.last());
            assert(front.skip(k + 1) =~= rest.drop_last());
            assert forall|j: int| 0 <= j < rest.drop_last().len() implies !is_called(
                #[trigger] rest.drop_last()[j],
                "pyfunction"@,
            ) && !is_called(rest.drop_last()[j], "pymodule"@) by {
                assert(rest.drop_last()[j] == rest[j]);
            }
        }
        if exports_no_function(attrs) {
            assert forall|j: int| 0 <= j < front.len() implies !is_called(
                #[trigger] front[j],
                "pyfunction"@,
            ) && !is_called(front[j], "pymodule"@) by {
                assert(front[j] == attrs[j]);
            }
        }
    }
}

/// Whether an export is of the item `n` under the Python name `p`: its place is
/// that of the Rust name, with lines counted from zero.
pub open spec fn exports_item(
    e: PyExportView,
    rel: Seq<char>,
    n: RustNamedView,
    p: Seq<char>,
    kind: PyExportKindView,
) -> bool {
    &&& e.relative_path == rel
    &&& e.rust_name == n.name
    &&& e.python_name == p
    &&& e.kind == kind
    &&& 1 <= n.line <= u32::MAX && n.column + encode_utf8(n.name).len() <= u32::MAX ==> e.name_span
        == (
        (n.line - 1) as u32,
        n.column as u32,
        (n.column + encode_utf8(n.name).len()) as u32,
    )
}

/// The name of an item is what the last `pyo3` attribute gives it, or else its
/// own.
pub open spec fn is_python_name(n: RustNamedView, p: Seq<char>) -> bool {
    ||| exists|k: int|
        0 <= k < n.attrs.len() && is_called(#[trigger] n.attrs[k], "pyo3"@) && gives(n.attrs[k], p)
            && pyo3_gives_none(n.attrs.skip(k + 1))
    ||| p == n.name && pyo3_gives_none(n.attrs)
}

/// The Python name of a function or method.
proof fn lemma_python_name(n: RustNamedView, p: Seq<char>)
    requires
        is_python_name(n, p),
    ensures
        scan::name_or(scan::last_given(n.attrs), n.name) == p,
{
    law_last_given(n.attrs, 0, p);
    if exists|k: int|
        0 <= k < n.attrs.len() && is_called(#[trigger] n.attrs[k], "pyo3"@) && gives(n.attrs[k], p)
            && pyo3_gives_none(n.attrs.skip(k + 1)) {
        let k = choose|k: int|
            0 <= k < n.attrs.len() && is_called(#[trigger] n.attrs[k], "pyo3"@) && gives(
                n.attrs[k],
                p,
            ) && pyo3_gives_none(n.attrs.skip(k + 1));
        law_last_given(n.attrs, k, p);
    }
}

/// A function with the attribute `pyfunction` is exported as a function, one
/// with `pymodule` as a module; the last of the two counts. Any other function
/// is not exported.
pub proof fn law_functions(rel: Seq<char>, n: RustNamedView, k: int, p: Seq<char>)
    requires
        is_python_name(n, p),
    ensures
        ({
            let es = scan::item_exports(rel, RustItemView::Fn(n));
            let decides = 0 <= k < n.attrs.len() && exports_no_function(n.attrs.skip(k + 1));
            &&& decides && is_called(n.attrs[k], "pyfunction"@) ==> es.len() == 1 && exports_item(
                es[0],
                rel,
                n,
                p,
                PyExportKindView::Function,
            )
            &&& decides && is_called(n.attrs[k], "pymodule"@) ==> es.len() == 1 && exports_item(
                es[0],
                rel,
                n,
                p,
                PyExportKindView::Module,
            )
            &&& exports_no_function(n.attrs) ==> es.len() == 0
        }),
{
    lemma_python_name(n, p);
    lemma_function_kind(n.attrs, k);
}

/// Whether the class of an item is called `p`: its first `pyclass` attribute
/// says so, or else the first `pyo3` attribute with a name, or else its own
/// name.
pub open spec fn is_class_name(n: RustNamedView, c: int, p: Seq<char>) -> bool {
    ||| gives(n.attrs[c], p)
    ||| gives_none(n.attrs[c]) && exists|k: int|
        0 <= k < n.attrs.len() && is_called(#[trigger] n.attrs[k], "pyo3"@) && gives(n.attrs[k], p)
            && pyo3_gives_none(n.attrs.take(k))
    ||| gives_none(n.attrs[c]) && pyo3_gives_none(n.attrs) && p == n.name && forall|j: int|
        0 <= j < n.attrs.len() && j != c ==> !is_called(#[trigger] n.attrs[j], "pyclass"@)
}

/// The name that a class is given.
proof fn lemma_class_given(
    all: Seq<RustAttrView>,
    attrs: Seq<RustAttrView>,
    c: int,
    p: Seq<char>,
)
    requires
        0 <= c < attrs.len(),
        is_called(attrs[c], "pyclass"@),
        forall|j: int| 0 <= j < c ==> !is_called(#[trigger] attrs[j], "pyclass"@),
    ensures
        gives(attrs[c], p) ==> scan::class_given(all, attrs) == Some(p),
        gives_none(attrs[c]) && scan::first_given(all) == Some(p) ==> scan::class_given(all, attrs)
            == Some(p),
        gives_none(attrs[c]) && scan::first_given(all) is None && (forall|j: int|
            c < j < attrs.len() ==> !is_called(#[trigger] attrs[j], "pyclass"@))
            ==> scan::class_given(all, attrs) is None,
    decreases attrs.len(),
{
    let rest = attrs.skip(1);
    if c == 0 {
        lemma_given(attrs[0], p);
        if forall|j: int| c < j < attrs.len() ==> !is_called(#[trigger] attrs[j], "pyclass"@) {
            assert forall|j: int| 0 <= j < rest.len() implies !is_called(
                #[trigger] rest[j],
                "pyclass"@,
            ) by {
                assert(rest[j] == attrs[j + 1]);
            }
            lemma_no_class(all, rest);
        }
    } else {
        assert(!is_called(attrs[0], "pyclass"@));
        assert forall|j: int| 0 <= j < c - 1 implies !is_called(
            #[trigger] rest[j],
            "pyclass"@,
        ) by {
            assert(rest[j] == attrs[j + 1]);
        }
        lemma_class_given(all, rest, c - 1, p);
        if forall|j: int| c < j < attrs.len() ==> !is_called(#[trigger] attrs[j], "pyclass"@) {
            assert forall|j: int| c - 1 < j < rest.len() implies !is_called(
                #[trigger] rest[j],
                "pyclass"@,
            ) by {
                assert(rest[j] == attrs[j + 1]);
            }
        }
    }
}

/// Attributes without `pyclass` give a class no name.
proof fn lemma_no_class(all: Seq<RustAttrView>, attrs: Seq<RustAttrView>)
    requires
        forall|j: int| 0 <= j < attrs.len() ==> !is_called(#[trigger] attrs[j], "pyclass"@),
    ensures
        scan::class_given(all, attrs) is None,
    decreases attrs.len(),
{
    if attrs.len() > 0 {
        let rest = attrs.skip(1);
        assert(!is_called(attrs[0], "pyclass"@));
        assert forall|j: int| 0 <= j < rest.len() implies !is_called(
            #[trigger] rest[j],
            "pyclass"@,
        ) by {
            assert(rest[j] == attrs[j + 1]);
        }
        lemma_no_class(all, rest);
    }
}

/// A struct or an enum with the attribute `pyclass` is exported as a class
/// under its name; any other is not exported.
pub proof fn law_classes(rel: Seq<char>, n: RustNamedView, is_enum: bool, c: int, p: Seq<char>)
    ensures
        ({
            let item = if is_enum {
                RustItemView::Enum(n)
            } else {
                RustItemView::Struct(n)
            };
            let es = scan::item_exports(rel, item);
            &&& 0 <= c < n.attrs.len() && is_called(n.attrs[c], "pyclass"@) && (forall|j: int|
                0 <= j < c ==> !is_called(#[trigger] n.attrs[j], "pyclass"@)) && is_class_name(
                n,
                c,
                p,
            ) ==> es.len() == 1 && exports_item(es[0], rel, n, p, PyExportKindView::Class)
            &&& (forall|j: int|
                0 <= j < n.attrs.len() ==> !is_called(#[trigger] n.attrs[j], "pyclass"@))
                ==> es.len() == 0
        }),
{
    if 0 <= c < n.attrs.len() && is_called(n.attrs[c], "pyclass"@) && (forall|j: int|
        0 <= j < c ==> !is_called(#[trigger] n.attrs[j], "pyclass"@)) && is_class_name(n, c, p) {
        lemma_class_given(n.attrs, n.attrs, c, p);
        lemma_first_given(n.attrs, 0, p);
        assert(scan::attr_is(n.attrs[c], "pyclass"@));
        assert(scan::has(n.attrs, "pyclass"@));
        if !gives(n.attrs[c], p) && exists|k: int|
            0 <= k < n.attrs.len() && is_called(#[trigger] n.attrs[k], "pyo3"@) && gives(
                n.attrs[k],
                p,
            ) && pyo3_gives_none(n.attrs.take(k)) {
            let k = choose|k: int|
                0 <= k < n.attrs.len() && is_called(#[trigger] n.attrs[k], "pyo3"@) && gives(
                    n.attrs[k],
                    p,
                ) && pyo3_gives_none(n.attrs.take(k));
            lemma_first_given(n.attrs, k, p);
        }
    }
    if forall|j: int| 0 <= j < n.attrs.len() ==> !is_called(#[trigger] n.attrs[j], "pyclass"@) {
        assert(!scan::has(n.attrs, "pyclass"@)) by {
            assert forall|j: int| 0 <= j < n.attrs.len() implies !scan::attr_is(
                #[trigger] n.attrs[j],
                "pyclass"@,
            ) by {
                assert(!is_called(n.attrs[j], "pyclass"@));
            }
        }
    }
}

/// Every function of an `impl` block with the attribute `pymethods` is exported
/// as a method of the class that the block's type ends in, in order; items that
/// are no functions are passed over.
pub proof fn law_methods(
    rel: Seq<char>,
    class: Seq<char>,
    items: Seq<Option<RustNamedView>>,
    item: Option<RustNamedView>,
    p: Seq<char>,
)
    ensures
        ({
            let before = scan::methods_of(rel, class, items);
            let after = scan::methods_of(rel, class, items.push(item));
            &&& items.len() == 0 ==> before.len() == 0
            &&& item is None ==> after == before
            &&& item matches Some(n) ==> is_python_name(n, p) ==> {
                &&& after.len() == before.len() + 1
                &&& after.take(before.len() as int) == before
                &&& exports_item(after.last(), rel, n, p, PyExportKindView::Method { class })
            }
        }),
{
    assert(items.push(item).drop_last() =~= items);
    if let Some(n) = item {
        if is_python_name(n, p) {
            lemma_python_name(n, p);
            let before = scan::methods_of(rel, class, items);
            let after = scan::methods_of(rel, class, items.push(item));
            assert(after.take(before.len() as int) =~= before);
        }
    }
}

/// A block with `pymethods` exports its functions as methods of the last
/// segment of its type's path; any other block exports nothing.
pub proof fn law_blocks(
    rel: Seq<char>,
    attrs: Seq<RustAttrView>,
    path: Seq<Seq<char>>,
    items: Seq<Option<RustNamedView>>,
    k: int,
)
    ensures
        ({
            let block = RustImplView { attrs, class: Some(path), items };
            let es = scan::item_exports(rel, RustItemView::Impl(block));
            &&& 0 <= k < attrs.len() && is_called(attrs[k], "pymethods"@) && path.len() > 0 ==> es
                == scan::methods_of(rel, path.last(), items)
            &&& (forall|j: int|
                0 <= j < attrs.len() ==> !is_called(#[trigger] attrs[j], "pymethods"@)) ==> es.len()
                == 0
        }),
{
    if 0 <= k < attrs.len() && is_called(attrs[k], "pymethods"@) {
        assert(scan::attr_is(attrs[k], "pymethods"@));
    }
    if forall|j: int| 0 <= j < attrs.len() ==> !is_called(#[trigger] attrs[j], "pymethods"@) {
        assert forall|j: int| 0 <= j < attrs.len() implies !scan::attr_is(
            #[trigger] attrs[j],
            "pymethods"@,
        ) by {
            assert(!is_called(attrs[j], "pymethods"@));
        }
    }
}

/// The exports of items are those of the first ones, then those of the others;
/// an inline module exports what its items do, and an item of another kind
/// nothing.
pub proof fn law_items_add_up(
    rel: Seq<char>,
    a: Seq<RustItemView>,
    b: Seq<RustItemView>,
    item: RustItemView,
    inner: Seq<RustItemView>,
)
    ensures
        scan::all_exports(rel, a + b) == scan::all_exports(rel, a) + scan::all_exports(rel, b),
        scan::all_exports(rel, seq![item]) == scan::item_exports(rel, item),
        scan::item_exports(rel, RustItemView::Mod(inner)) == scan::all_exports(rel, inner),
        scan::item_exports(rel, RustItemView::Other).len() == 0,
    decreases b.len(),
{
    assert(seq![item].drop_last() =~= Seq::empty());
    assert(scan::all_exports(rel, seq![item].drop_last()) =~= Seq::empty());
    assert(scan::all_exports(rel, seq![item]) =~= scan::item_exports(rel, item));
    if b.len() == 0 {
        assert(a + b =~= a);
        assert(scan::all_exports(rel, a) + scan::all_exports(rel, b) =~= scan::all_exports(rel, a));
    } else {
        law_items_add_up(rel, a, b.drop_last(), item, inner);
        assert((a + b).drop_last() =~= a + b.drop_last());
        assert((a + b).last() == b.last());
        assert(scan::all_exports(rel, a + b) =~= scan::all_exports(rel, a) + scan::all_exports(
            rel,
            b,
        ));
    }
}

/// A text in which PyO3 or one of its export attributes stands is read.
pub proof fn law_interface_words(a: Seq<char>, b: Seq<char>)
    ensures
        scan::mentions_pyo3(a + "pyo3"@ + b),
        scan::mentions_pyo3(a + "pyfunction"@ + b),
        scan::mentions_pyo3(a + "pymodule"@ + b),
        scan::mentions_pyo3(a + "pyclass"@ + b),
        scan::mentions_pyo3(a + "pymethods"@ + b),
{
    shape::law_found_where_it_stands(a, "pyo3"@, b);
    shape::law_found_where_it_stands(a, "pyfunction"@, b);
    shape::law_found_where_it_stands(a, "pymodule"@, b);
    shape::law_found_where_it_stands(a, "pyclass"@, b);
    shape::law_found_where_it_stands(a, "pymethods"@, b);
}

/// Whether the export at `k` is the first of the file at `path` that is a
/// module, or with `modules` false, the first of that file at all.
pub open spec fn is_first_of(
    exports: Seq<PyExportView>,
    k: int,
    path: Seq<char>,
    modules: bool,
) -> bool {
    &&& 0 <= k < exports.len()
    &&& exports[k].relative_path == path
    &&& modules ==> exports[k].kind is Module
    &&& forall|j: int|
        0 <= j < k && (#[trigger] exports[j]).relative_path == path ==> modules && !(
        exports[j].kind is Module)
}

/// The first such export names the module.
proof fn lemma_first_named(
    exports: Seq<PyExportView>,
    k: int,
    path: Seq<char>,
    modules: bool,
)
    ensures
        is_first_of(exports, k, path, modules) ==> pyo3::first_named(exports, path, modules) == Some(
            exports[k].python_name,
        ),
        (forall|j: int|
            0 <= j < exports.len() && (#[trigger] exports[j]).relative_path == path ==> modules && !(
            exports[j].kind is Module)) ==> pyo3::first_named(exports, path, modules) is None,
    decreases exports.len(),
{
    if exports.len() > 0 {
        let rest = exports.skip(1);
        lemma_first_named(rest, k - 1, path, modules);
        if is_first_of(exports, k, path, modules) && k > 0 {
            assert forall|j: int|
                0 <= j < k - 1 && (#[trigger] rest[j]).relative_path == path implies modules && !(
            rest[j].kind is Module) by {
                assert(rest[j] == exports[j + 1]);
            }
            assert(exports[0].relative_path == path ==> modules && !(exports[0].kind is Module));
        }
        if forall|j: int|
            0 <= j < exports.len() && (#[trigger] exports[j]).relative_path == path ==> modules && !(
            exports[j].kind is Module) {
            assert forall|j: int|
                0 <= j < rest.len() && (#[trigger] rest[j]).relative_path == path implies modules
                && !(rest[j].kind is Module) by {
                assert(rest[j] == exports[j + 1]);
            }
            assert(exports[0].relative_path == path ==> modules && !(exports[0].kind is Module));
        }
    }
}

/// The exports of a file go to the first module that the file exports; a file
/// that exports none gives its first export's name to its module. A file
/// without exports has no module.
pub proof fn law_module_of_a_file(exports: Seq<PyExportView>, k: int, path: Seq<char>)
    ensures
        is_first_of(exports, k, path, true) ==> pyo3::module_at(exports, path) == Some(
            exports[k].python_name,
        ),
        is_first_of(exports, k, path, false) && (forall|j: int|
            0 <= j < exports.len() && (#[trigger] exports[j]).relative_path == path ==> !(
            exports[j].kind is Module)) ==> pyo3::module_at(exports, path) == Some(
            exports[k].python_name,
        ),
        (forall|j: int| 0 <= j < exports.len() ==> (#[trigger] exports[j]).relative_path != path)
            ==> pyo3::module_at(exports, path) is None,
{
    lemma_first_named(exports, k, path, true);
    lemma_first_named(exports, k, path, false);
}

/// Every export is emitted in turn, under the module of its file, unless that
/// module has no name.
pub proof fn law_exports_are_emitted(
    package: Seq<char>,
    version: Seq<char>,
    entries: Seq<(Seq<char>, Seq<char>)>,
    all: Seq<PyExportView>,
    es: Seq<PyExportView>,
    e: PyExportView,
)
    ensures
        ({
            let before = pyo3::emissions(package, version, entries, all, es);
            let after = pyo3::emissions(package, version, entries, all, es.push(e));
            &&& es.len() == 0 ==> before.len() == 0
            &&& match pyo3::module_at(all, e.relative_path) {
                Some(module) => if module.len() > 0 {
                    after == before.push(
                        pyo3::export_emission(package, version, entries, module, e),
                    )
                } else {
                    after == before
                },
                None => after == before,
            }
        }),
{
    assert(es.push(e).drop_last() =~= es);
}

/// An export's symbol says what it is: a module ends in `__init__`, a class is
/// a type of the module, a function a method of it and a method one of its
/// class. Its kind says so too.
pub proof fn law_symbols_of_exports(
    package: Seq<char>,
    version: Seq<char>,
    entries: Seq<(Seq<char>, Seq<char>)>,
    module: Seq<char>,
    e: PyExportView,
)
    ensures
        ({
            let m = pyo3::export_emission(package, version, entries, module, e);
            let dotted = package + "."@ + module;
            &&& m.path == e.relative_path
            &&& m.display_name == e.python_name
            &&& e.kind is Module ==> m.kind == 29 && m.symbol == python::module_symbol(
                package,
                version,
                dotted,
            )
            &&& e.kind is Function ==> m.kind == 17 && m.symbol == python::member_symbol(
                package,
                version,
                dotted,
                e.python_name,
                Suffix::Method,
            )
            &&& e.kind is Class ==> m.kind == 7 && m.symbol == python::member_symbol(
                package,
                version,
                dotted,
                e.python_name,
                Suffix::Type,
            )
            &&& e.kind matches PyExportKindView::Method { class } ==> m.kind == 26 && m.symbol
                == python::class_method_symbol(package, version, dotted, class, e.python_name)
            &&& m.target == lookup::least_symbol(entries, e.rust_name)
        }),
{
}

/// A `setup.py` names the package of its first Rust extension: the text in its
/// quotes up to the first dot.
pub proof fn law_extension_package(
    before: Seq<char>,
    space: Seq<char>,
    quote: char,
    head: Seq<char>,
    rest: Seq<char>,
    after: Seq<char>,
)
    requires
        text::first_index(before + "RustExtension("@, "RustExtension("@) == Some(
            before.len() as int,
        ),
        forall|i: int| 0 <= i < space.len() ==> text::white_space(#[trigger] space[i]),
        quote == '"' || quote == '\'',
        head.len() > 0,
        !head.contains('.'),
        !head.contains(quote),
        !rest.contains(quote),
        rest.len() > 0 ==> rest[0] == '.',
    ensures
        pyo3::extension_package(
            before + "RustExtension("@ + (space + (seq![quote] + (head + rest + (seq![quote]
                + after)))),
        ) == Some(head),
{
    let mark = "RustExtension("@;
    reveal_strlit("RustExtension(");
    let tail = seq![quote] + (head + rest + (seq![quote] + after));
    let s = before + mark + (space + tail);
    lemma_first_stays(before + mark, space + tail, mark);
    let n = before.len() as int;
    assert(s.skip(n + mark.len()) =~= space + tail);
    lemma_space_dropped(space, tail);
    let inner = head + rest + (seq![quote] + after);
    assert(tail.skip(1) =~= inner);
    let dotted = head + rest;
    assert(!dotted.contains(quote)) by {
        if dotted.contains(quote) {
            let i = dotted.index_of(quote);
            if i < head.len() {
                assert(head[i] == quote);
            } else {
                assert(rest[i - head.len()] == quote);
            }
        }
    }
    lemma_before(dotted, quote, seq![quote] + after);
    assert(dotted + (seq![quote] + after) =~= inner);
    lemma_before(head, '.', rest);
}

/// What is found in a text is found there whatever follows.
proof fn lemma_first_stays(a: Seq<char>, y: Seq<char>, p: Seq<char>)
    requires
        text::first_index(a, p) is Some,
    ensures
        text::first_index(a + y, p) == text::first_index(a, p),
    decreases a.len(),
{
    let s = a + y;
    text::lemma_first_index(a, p);
    if text::has_prefix(a, p) {
        assert(s.take(p.len() as int) =~= a.take(p.len() as int));
    } else if a.len() > 0 {
        assert(a.skip(1) + y =~= s.skip(1));
        lemma_first_stays(a.skip(1), y, p);
        assert(p.len() <= a.len());
        assert(s.take(p.len() as int) =~= a.take(p.len() as int));
    }
}

/// Leading white space is dropped.
proof fn lemma_space_dropped(space: Seq<char>, tail: Seq<char>)
    requires
        forall|i: int| 0 <= i < space.len() ==> text::white_space(#[trigger] space[i]),
        tail.len() > 0,
        !text::white_space(tail[0]),
    ensures
        text::trimmed_start(space + tail) == tail,
    decreases space.len(),
{
    let s = space + tail;
    if space.len() == 0 {
        assert(s =~= tail);
    } else {
        let rest = space.skip(1);
        assert(s[0] == space[0]);
        assert(s.skip(1) =~= rest + tail);
        assert forall|i: int| 0 <= i < rest.len() implies text::white_space(#[trigger] rest[i]) by {
            assert(rest[i] == space[i + 1]);
        }
        lemma_space_dropped(rest, tail);
    }
}

/// What stands before the first `c`.
proof fn lemma_before(a: Seq<char>, c: char, y: Seq<char>)
    requires
        !a.contains(c),
        y.len() > 0 ==> y[0] == c,
    ensures
        symbol::before_char(a + y, c) == a,
    decreases a.len(),
{
    let s = a + y;
    if a.len() == 0 {
        assert(s =~= y);
        assert(symbol::before_char(s, c) =~= a);
    } else {
        assert(a.contains(a[0]));
        let rest = a.skip(1);
        assert(s.skip(1) =~= rest + y);
        assert forall|i: int| 0 <= i < rest.len() implies rest[i] != c by {
            assert(a.contains(a[i + 1]));
        }
        lemma_before(rest, c, y);
        assert(seq![s[0]] + rest =~= a);
    }
}

/// The distribution is the one that `pyproject.toml` names, and only without
/// one there that of `setup.py`.
pub proof fn law_detected_package(pyproject: Option<&str>, setup_py: Option<&str>)
    ensures
        pyproject matches Some(doc) ==> (python::project_name(text::lines_of(doc@), false) matches Some(
            name,
        ) ==> pyo3::detected_package(pyproject, setup_py) == Some(name)),
        (pyproject matches Some(doc) ==> python::project_name(text::lines_of(doc@), false) is None)
            ==> pyo3::detected_package(pyproject, setup_py) == (match setup_py {
            Some(doc) => pyo3::extension_package(doc@),
            None => None,
        }),
{
}

/// The version is the one given, else the first of the index, else `0.0.0`.
pub proof fn law_chosen_version(given: Option<Seq<char>>, docs: Seq<index::DocumentView>)
    ensures
        given matches Some(v) ==> pyo3::chosen_version(given, docs) == v,
        given is None ==> match companion::first_version(docs, false, false) {
            Some(v) => pyo3::chosen_version(given, docs) == v,
            None => pyo3::chosen_version(given, docs) == "0.0.0"@,
        },
{
}

/// The place of an emission among others.
proof fn lemma_emitted(
    package: Seq<char>,
    version: Seq<char>,
    entries: Seq<(Seq<char>, Seq<char>)>,
    all: Seq<PyExportView>,
    es: Seq<PyExportView>,
    k: int,
) -> (m: int)
    requires
        0 <= k < es.len(),
        pyo3::module_at(all, es[k].relative_path) matches Some(module) && module.len() > 0,
    ensures
        0 <= m < pyo3::emissions(package, version, entries, all, es).len(),
        pyo3::emissions(package, version, entries, all, es)[m] == pyo3::export_emission(
            package,
            version,
            entries,
            pyo3::module_at(all, es[k].relative_path).unwrap(),
            es[k],
        ),
    decreases es.len(),
{
    let front = es.drop_last();
    assert(front.push(es.last()) =~= es);
    law_exports_are_emitted(package, version, entries, all, front, es.last());
    let before = pyo3::emissions(package, version, entries, all, front);
    if k == es.len() - 1 {
        before.len() as int
    } else {
        assert(front[k] == es[k]);
        lemma_emitted(package, version, entries, all, front, k)
    }
}

/// A companion holds every export of a file with a named module, in the
/// document of its file, under its Python name, and linked to the first Rust
/// symbol of the input index whose last name is its Rust name, if there is one.
pub proof fn law_companion_holds_exports(
    input: index::IndexView,
    package: Seq<char>,
    version: Seq<char>,
    exports: Seq<PyExportView>,
    k: int,
)
    requires
        0 <= k < exports.len(),
        pyo3::module_at(exports, exports[k].relative_path) matches Some(module) && module.len() > 0,
    ensures
        ({
            let out = pyo3::python_companion(input, package, version, exports);
            let native = lookup::least_symbol(
                pyo3::rust_entries(input.documents),
                exports[k].rust_name,
            );
            &&& out.metadata.tool_name == "scip-pyo3-augment"@
            &&& out.metadata.project_root == input.metadata.project_root
            &&& exists|d: int, i: int|
                0 <= d < out.documents.len() && 0 <= i < out.documents[d].symbols.len() && ({
                    let s = #[trigger] out.documents[d].symbols[i];
                    &&& out.documents[d].relative_path == exports[k].relative_path
                    &&& out.documents[d].language == "Python"@
                    &&& s.display_name == exports[k].python_name
                    &&& native is None ==> s.relationships.len() == 0
                    &&& native matches Some(symbol) ==> s.relationships.len() == 1
                        && s.relationships[0].symbol == symbol
                })
        }),
{
    let out = pyo3::python_companion(input, package, version, exports);
    let entries = pyo3::rust_entries(input.documents);
    let es = pyo3::emissions(package, version, entries, exports, exports);
    let m = lemma_emitted(package, version, entries, exports, exports, k);
    companion::law_documents_cover("Python"@, es);
    let d = choose|d: int|
        0 <= d < out.documents.len() && (#[trigger] out.documents[d]).relative_path == es[m].path
            && out.documents[d].symbols.contains(companion::emitted_symbol(es[m]));
    let path = companion::emitted_paths(es)[d];
    companion::law_document_symbols("Python"@, path, es, es[m]);
    let i = out.documents[d].symbols.index_of(companion::emitted_symbol(es[m]));
    assert(out.documents[d].symbols[i] == companion::emitted_symbol(es[m]));
}

/// A source without exports gives no companion; one with exports gives one if a
/// package is given or detected, and an error otherwise.
pub proof fn law_outcome(
    r: Result<(companion::AugmentOutcome, Option<Vec<u8>>), pyo3::AugmentError>,
    input: index::IndexView,
    found: Seq<PyExportView>,
    opts: pyo3::AugmentOptions,
    pyproject: Option<&str>,
    setup_py: Option<&str>,
)
    requires
        pyo3::is_augmented(r, input, found, opts, pyproject, setup_py),
    ensures
        ({
            let named = opts.python_package is Some || pyo3::detected_package(
                pyproject,
                setup_py,
            ) is Some;
            &&& found.len() == 0 ==> (r matches Ok(done) && done.0 is NoExports && done.1 is None)
            &&& found.len() > 0 && !named ==> r == Err::<
                (companion::AugmentOutcome, Option<Vec<u8>>),
                pyo3::AugmentError,
            >(pyo3::AugmentError::NoPackage)
            &&& found.len() > 0 && named ==> (r matches Ok(done) && done.1 is Some && (
            done.0 matches companion::AugmentOutcome::Written(stats) && stats.exports
                == found.len()))
        }),
{
}

/// A scan of a file adds what the scanner finds in the items of its text, under
/// the given path. A text that does not mention PyO3 is not read; one that does
/// has to be Rust.
pub proof fn law_scan_file(text: &str, rel: &str, out: &mut scan::ScanResult, r: bool)
    requires
        call_ensures(scan::scan_file, (text, rel, out), r),
    ensures
        scan::mentions_pyo3(text@) ==> match rust::items_of(text@) {
            Some(items) => r && final(out)@ == old(out)@ + scan::all_exports(rel@, items),
            None => !r && final(out)@ == old(out)@,
        },
        !scan::mentions_pyo3(text@) ==> r && final(out)@ == old(out)@,
        rust::items_of(text@) is Some ==> text::is_countable(text@) && rust::rust_syntax(text@)
            == rust::items_of(text@),
{
}

/// An augmentation with a package and a version given writes the companion of
/// the index for the exports, if there are any, and counts them. Bytes that are
/// no index are refused.
pub proof fn law_augment_file(
    input: &[u8],
    found: &scan::ScanResult,
    opts: &pyo3::AugmentOptions,
    pyproject: Option<&str>,
    setup_py: Option<&str>,
    r: Result<(companion::AugmentOutcome, Option<Vec<u8>>), pyo3::AugmentError>,
    m: index::IndexView,
    package: String,
    version: String,
)
    requires
        call_ensures(pyo3::augment_file, (input, found, opts, pyproject, setup_py), r),
    ensures
        index::index_message(input@) is None ==> r == Err::<
            (companion::AugmentOutcome, Option<Vec<u8>>),
            pyo3::AugmentError,
        >(pyo3::AugmentError::Parse),
        index::index_message(input@) == Some(m) && opts.python_package == Some(package)
            && opts.python_version == Some(version) && found@.len() > 0 ==> ({
            let out = pyo3::python_companion(index::read_part(m), package@, version@, found@);
            &&& r matches Ok(done)
            &&& done.0 matches companion::AugmentOutcome::Written(stats)
            &&& stats.exports == found@.len()
            &&& stats.documents == out.documents.len()
            &&& done.1 matches Some(bytes)
            &&& (bytes@.len() <= i32::MAX ==> index::index_message(bytes@) == Some(out))
        }),
{
}

/// A companion defines every export of a file with a named module where its name
/// stands in the source.
pub proof fn law_exports_are_placed(
    input: index::IndexView,
    package: Seq<char>,
    version: Seq<char>,
    exports: Seq<PyExportView>,
    k: int,
)
    requires
        0 <= k < exports.len(),
        pyo3::module_at(exports, exports[k].relative_path) matches Some(module) && module.len()
            > 0,
    ensures
        ({
            let entries = pyo3::rust_entries(input.documents);
            let module = pyo3::module_at(exports, exports[k].relative_path).unwrap();
            companion_laws::is_defined_at(
                pyo3::python_companion(input, package, version, exports).documents,
                exports[k].relative_path,
                pyo3::export_emission(package, version, entries, module, exports[k]).symbol,
                companion_laws::on_line(exports[k].name_span),
            )
        }),
{
    let entries = pyo3::rust_entries(input.documents);
    let es = pyo3::emissions(package, version, entries, exports, exports);
    let m = lemma_emitted(package, version, entries, exports, exports, k);
    companion_laws::law_placed("Python"@, es, m, companion_laws::on_line(exports[k].name_span));
}

} // verus!
