//! PyO3 exports in Rust sources:
//!
//! * `#[pyfunction]` functions,
//! * `#[pymodule]` module init functions,
//! * `#[pyclass]` structs and enums,
//! * the functions of `#[pymethods]` blocks.
//!
//! An export's Python name is its Rust name unless `#[pyo3(name = "...")]`
//! gives another.

use crate::pyo3::rust;
use crate::pyo3::rust::{RustAttr, RustImpl, RustItem, RustNamed};
use crate::text;
use vstd::prelude::*;
use vstd::utf8::*;

verus! {

/// A Python name that Rust code exports.
#[derive(Debug)]
pub struct PyExport {
    /// Path from the source root.
    pub relative_path: String,
    /// Rust identifier.
    pub rust_name: String,
    /// Python-visible name.
    pub python_name: String,
    pub kind: PyExportKind,
    /// Zero-based `(line, start_col, end_col)`: the range of the Rust
    /// identifier.
    pub name_span: (u32, u32, u32),
}

/// What Rust code exports.
#[derive(Debug)]
pub enum PyExportKind {
    Module,
    Function,
    Class,
    Method { class: String },
}

/// What a [`PyExportKind`] holds.
pub enum PyExportKindView {
    Module,
    Function,
    Class,
    Method { class: Seq<char> },
}

impl View for PyExportKind {
    type V = PyExportKindView;

    open spec fn view(&self) -> PyExportKindView {
        match self {
            PyExportKind::Module => PyExportKindView::Module,
            PyExportKind::Function => PyExportKindView::Function,
            PyExportKind::Class => PyExportKindView::Class,
            PyExportKind::Method { class } => PyExportKindView::Method { class: class@ },
        }
    }
}

/// What a [`PyExport`] holds.
#[verifier::ext_equal]
pub struct PyExportView {
    pub relative_path: Seq<char>,
    pub rust_name: Seq<char>,
    pub python_name: Seq<char>,
    pub kind: PyExportKindView,
    pub name_span: (u32, u32, u32),
}

impl View for PyExport {
    type V = PyExportView;

    open spec fn view(&self) -> PyExportView {
        PyExportView {
            relative_path: self.relative_path@,
            rust_name: self.rust_name@,
            python_name: self.python_name@,
            kind: self.kind@,
            name_span: self.name_span,
        }
    }
}

/// What each export of a list holds.
pub open spec fn export_views(v: Seq<PyExport>) -> Seq<PyExportView> {
    v.map_values(|e: PyExport| e@)
}

/// The exports found so far.
#[derive(Debug)]
pub struct ScanResult {
    pub exports: Vec<PyExport>,
}

impl View for ScanResult {
    type V = Seq<PyExportView>;

    open spec fn view(&self) -> Seq<PyExportView> {
        export_views(self.exports@)
    }
}

impl ScanResult {
    /// No exports.
    pub fn new() -> (r: Self)
        ensures
            r@ == Seq::<PyExportView>::empty(),
    {
        let r = ScanResult { exports: Vec::new() };
        assert(r@ =~= Seq::empty());
        r
    }
}

/// Whether an attribute is `name`.
pub open spec fn attr_is(a: rust::RustAttrView, name: Seq<char>) -> bool {
    a.ident == Some(name)
}

/// Whether one of the attributes is `name`.
pub open spec fn has(attrs: Seq<rust::RustAttrView>, name: Seq<char>) -> bool {
    exists|i: int| 0 <= i < attrs.len() && attr_is(#[trigger] attrs[i], name)
}

/// The name that an attribute's arguments give.
pub open spec fn given_name(a: rust::RustAttrView) -> Option<Seq<char>> {
    match a.arguments {
        Some(arguments) => rust::named_by(arguments),
        None => None,
    }
}

/// The last name that a `pyo3` attribute gives.
pub open spec fn last_given(attrs: Seq<rust::RustAttrView>) -> Option<Seq<char>>
    decreases attrs.len(),
{
    if attrs.len() == 0 {
        None
    } else if attr_is(attrs.last(), "pyo3"@) && given_name(attrs.last()) is Some {
        given_name(attrs.last())
    } else {
        last_given(attrs.drop_last())
    }
}

/// The first name that a `pyo3` attribute gives.
pub open spec fn first_given(attrs: Seq<rust::RustAttrView>) -> Option<Seq<char>>
    decreases attrs.len(),
{
    if attrs.len() == 0 {
        None
    } else if attr_is(attrs[0], "pyo3"@) && given_name(attrs[0]) is Some {
        given_name(attrs[0])
    } else {
        first_given(attrs.skip(1))
    }
}

/// The name that is given to a class whose attributes are `all`, of which
/// `attrs` are left: a `pyclass` attribute's own, or else that of a `pyo3`
/// attribute.
pub open spec fn class_given(all: Seq<rust::RustAttrView>, attrs: Seq<rust::RustAttrView>) -> Option<
    Seq<char>,
>
    decreases attrs.len(),
{
    if attrs.len() == 0 {
        None
    } else if attr_is(attrs[0], "pyclass"@) {
        text::or_else(
            given_name(attrs[0]),
            text::or_else(first_given(all), class_given(all, attrs.skip(1))),
        )
    } else {
        class_given(all, attrs.skip(1))
    }
}

/// A given name, or else the item's own.
pub open spec fn name_or(given: Option<Seq<char>>, own: Seq<char>) -> Seq<char> {
    match given {
        Some(name) => name,
        None => own,
    }
}

/// What a function is exported as: the last of its attributes that says so
/// decides.
pub open spec fn function_kind(attrs: Seq<rust::RustAttrView>) -> Option<PyExportKindView>
    decreases attrs.len(),
{
    if attrs.len() == 0 {
        None
    } else if attr_is(attrs.last(), "pyfunction"@) {
        Some(PyExportKindView::Function)
    } else if attr_is(attrs.last(), "pymodule"@) {
        Some(PyExportKindView::Module)
    } else {
        function_kind(attrs.drop_last())
    }
}

/// The range of a name of `len` bytes: syn counts lines from one, an index
/// from zero. Positions beyond 32 bits wrap around.
pub open spec fn span_of(line: usize, column: usize, len: nat) -> (u32, u32, u32) {
    let row = if line == 0 {
        0
    } else {
        line - 1
    };
    (
        row as u32,
        column as u32,
        (column as u32).wrapping_add((len as usize) as u32),
    )
}

/// The export of a named item.
pub open spec fn export_of(
    rel: Seq<char>,
    n: rust::RustNamedView,
    python_name: Seq<char>,
    kind: PyExportKindView,
) -> PyExportView {
    PyExportView {
        relative_path: rel,
        rust_name: n.name,
        python_name,
        kind,
        name_span: span_of(n.line, n.column, encode_utf8(n.name).len()),
    }
}

/// The export of a function.
pub open spec fn function_exports(rel: Seq<char>, n: rust::RustNamedView) -> Seq<PyExportView> {
    match function_kind(n.attrs) {
        Some(kind) => seq![export_of(rel, n, name_or(last_given(n.attrs), n.name), kind)],
        None => Seq::empty(),
    }
}

/// The export of a struct or an enum.
pub open spec fn class_exports(rel: Seq<char>, n: rust::RustNamedView) -> Seq<PyExportView> {
    if has(n.attrs, "pyclass"@) {
        seq![
            export_of(
                rel,
                n,
                name_or(class_given(n.attrs, n.attrs), n.name),
                PyExportKindView::Class,
            ),
        ]
    } else {
        Seq::empty()
    }
}

/// The exports of the functions of a class's block.
pub open spec fn methods_of(
    rel: Seq<char>,
    class: Seq<char>,
    items: Seq<Option<rust::RustNamedView>>,
) -> Seq<PyExportView>
    decreases items.len(),
{
    if items.len() == 0 {
        Seq::empty()
    } else {
        let before = methods_of(rel, class, items.drop_last());
        match items.last() {
            Some(n) => before.push(
                export_of(
                    rel,
                    n,
                    name_or(last_given(n.attrs), n.name),
                    PyExportKindView::Method { class },
                ),
            ),
            None => before,
        }
    }
}

/// The exports of an `impl` block: every function of a `#[pymethods]` block is
/// a method of the class that the type's path ends in.
pub open spec fn impl_exports(rel: Seq<char>, b: rust::RustImplView) -> Seq<PyExportView> {
    if has(b.attrs, "pymethods"@) {
        match b.class {
            Some(path) => if path.len() > 0 {
                methods_of(rel, path.last(), b.items)
            } else {
                Seq::empty()
            },
            None => Seq::empty(),
        }
    } else {
        Seq::empty()
    }
}

/// The exports of an item.
pub open spec fn item_exports(rel: Seq<char>, item: rust::RustItemView) -> Seq<PyExportView>
    decreases item,
{
    match item {
        rust::RustItemView::Fn(n) => function_exports(rel, n),
        rust::RustItemView::Struct(n) => class_exports(rel, n),
        rust::RustItemView::Enum(n) => class_exports(rel, n),
        rust::RustItemView::Impl(b) => impl_exports(rel, b),
        rust::RustItemView::Mod(items) => all_exports(rel, items),
        rust::RustItemView::Other => Seq::empty(),
    }
}

/// The exports of items, in order.
pub open spec fn all_exports(rel: Seq<char>, items: Seq<rust::RustItemView>) -> Seq<PyExportView>
    decreases items,
{
    if items.len() == 0 {
        Seq::empty()
    } else {
        all_exports(rel, items.drop_last()) + item_exports(rel, items.last())
    }
}

/// Whether an attribute is `name`.
pub fn is_attr(a: &RustAttr, name: &str) -> (r: bool)
    ensures
        r == attr_is(a@, name@),
{
    match &a.ident {
        Some(ident) => text::str_eq(ident.as_str(), name),
        None => false,
    }
}

/// Whether one of the attributes is `name`.
pub fn has_attr(attrs: &Vec<RustAttr>, name: &str) -> (r: bool)
    ensures
        r == has(rust::attr_views(attrs@), name@),
{
    let ghost all = rust::attr_views(attrs@);
    let mut i: usize = 0;
    while i < attrs.len()
        invariant
            0 <= i <= attrs@.len(),
            all == rust::attr_views(attrs@),
            forall|j: int| 0 <= j < i ==> !attr_is(#[trigger] all[j], name@),
        decreases attrs.len() - i,
    {
        assert(all[i as int] == attrs@[i as int]@);
        if is_attr(&attrs[i], name) {
            return true;
        }
        i += 1;
    }
    false
}

/// The name that an attribute's arguments give.
pub fn pyo3_name_override(a: &RustAttr) -> (r: Option<String>)
    ensures
        text::opt_view(r) == given_name(a@),
{
    match &a.arguments {
        Some(arguments) => rust::extract_name_argument(arguments.as_str()),
        None => None,
    }
}

/// The last name that a `pyo3` attribute gives.
fn last_override(attrs: &Vec<RustAttr>) -> (r: Option<String>)
    ensures
        text::opt_view(r) == last_given(rust::attr_views(attrs@)),
{
    let ghost all = rust::attr_views(attrs@);
    let mut n: usize = attrs.len();
    assert(all.take(n as int) =~= all);
    while n > 0
        invariant
            0 <= n <= attrs@.len(),
            all == rust::attr_views(attrs@),
            last_given(all) == last_given(all.take(n as int)),
        decreases n,
    {
        assert(all[n - 1] == attrs@[n - 1]@);
        assert(all.take(n as int).drop_last() =~= all.take(n - 1));
        if is_attr(&attrs[n - 1], "pyo3") {
            let given = pyo3_name_override(&attrs[n - 1]);
            if given.is_some() {
                return given;
            }
        }
        n -= 1;
    }
    None
}

/// The first name that a `pyo3` attribute gives.
fn first_override(attrs: &Vec<RustAttr>) -> (r: Option<String>)
    ensures
        text::opt_view(r) == first_given(rust::attr_views(attrs@)),
{
    let ghost all = rust::attr_views(attrs@);
    let mut i: usize = 0;
    assert(all.skip(0) =~= all);
    while i < attrs.len()
        invariant
            0 <= i <= attrs@.len(),
            all == rust::attr_views(attrs@),
            first_given(all) == first_given(all.skip(i as int)),
        decreases attrs.len() - i,
    {
        assert(all[i as int] == attrs@[i as int]@);
        assert(all.skip(i as int).skip(1) =~= all.skip(i + 1));
        if is_attr(&attrs[i], "pyo3") {
            let given = pyo3_name_override(&attrs[i]);
            if given.is_some() {
                return given;
            }
        }
        i += 1;
    }
    None
}

/// The name that is given to a class: `#[pyclass(name = "...")]` or
/// `#[pyo3(name = "...")]`.
pub fn pyclass_name_override(attrs: &Vec<RustAttr>) -> (r: Option<String>)
    ensures
        text::opt_view(r) == class_given(rust::attr_views(attrs@), rust::attr_views(attrs@)),
{
    let ghost all = rust::attr_views(attrs@);
    let mut i: usize = 0;
    assert(all.skip(0) =~= all);
    while i < attrs.len()
        invariant
            0 <= i <= attrs@.len(),
            all == rust::attr_views(attrs@),
            class_given(all, all) == class_given(all, all.skip(i as int)),
        decreases attrs.len() - i,
    {
        assert(all[i as int] == attrs@[i as int]@);
        assert(all.skip(i as int).skip(1) =~= all.skip(i + 1));
        if is_attr(&attrs[i], "pyclass") {
            let given = pyo3_name_override(&attrs[i]);
            if given.is_some() {
                return given;
            }
            let given = first_override(attrs);
            if given.is_some() {
                return given;
            }
        }
        i += 1;
    }
    None
}

/// What a function is exported as.
fn kind_of_function(attrs: &Vec<RustAttr>) -> (r: Option<PyExportKind>)
    ensures
        r matches Some(k) ==> function_kind(rust::attr_views(attrs@)) == Some(k@),
        r is None ==> function_kind(rust::attr_views(attrs@)) is None,
{
    let ghost all = rust::attr_views(attrs@);
    let mut n: usize = attrs.len();
    assert(all.take(n as int) =~= all);
    while n > 0
        invariant
            0 <= n <= attrs@.len(),
            all == rust::attr_views(attrs@),
            function_kind(all) == function_kind(all.take(n as int)),
        decreases n,
    {
        assert(all[n - 1] == attrs@[n - 1]@);
        assert(all.take(n as int).drop_last() =~= all.take(n - 1));
        if is_attr(&attrs[n - 1], "pyfunction") {
            return Some(PyExportKind::Function);
        }
        if is_attr(&attrs[n - 1], "pymodule") {
            return Some(PyExportKind::Module);
        }
        n -= 1;
    }
    None
}

/// The range of a name of `len` bytes.
fn make_span(line: usize, column: usize, len: usize) -> (r: (u32, u32, u32))
    ensures
        r == span_of(line, column, len as nat),
{
    let row: usize = if line == 0 {
        0
    } else {
        line - 1
    };
    let start: u32 = #[verifier::truncate]
    (column as u32);
    let width: u32 = #[verifier::truncate]
    (len as u32);
    (
        #[verifier::truncate]
        (row as u32),
        start,
        start.wrapping_add(width),
    )
}

/// Appends the export of a named item.
fn push_export(
    rel: &str,
    n: &RustNamed,
    given: Option<String>,
    kind: PyExportKind,
    out: &mut ScanResult,
)
    ensures
        final(out)@ == old(out)@.push(
            export_of(rel@, n@, name_or(text::opt_view(given), n@.name), kind@),
        ),
{
    let ghost before = out@;
    let python_name = match given {
        Some(name) => name,
        None => n.name.clone(),
    };
    let name_span = make_span(n.line, n.column, n.name.as_str().as_bytes().len());
    let e = PyExport {
        relative_path: rel.to_string(),
        rust_name: n.name.clone(),
        python_name,
        kind,
        name_span,
    };
    let ghost ev = e@;
    out.exports.push(e);
    assert(out@ =~= before.push(ev));
}

/// Appends the export of a function.
pub fn visit_fn(rel: &str, n: &RustNamed, out: &mut ScanResult)
    ensures
        final(out)@ == old(out)@ + function_exports(rel@, n@),
{
    let ghost before = out@;
    if let Some(kind) = kind_of_function(&n.attrs) {
        push_export(rel, n, last_override(&n.attrs), kind, out);
    }
    assert(out@ =~= before + function_exports(rel@, n@));
}

/// Appends the export of a struct or an enum.
pub fn visit_class(rel: &str, n: &RustNamed, out: &mut ScanResult)
    ensures
        final(out)@ == old(out)@ + class_exports(rel@, n@),
{
    let ghost before = out@;
    if has_attr(&n.attrs, "pyclass") {
        push_export(rel, n, pyclass_name_override(&n.attrs), PyExportKind::Class, out);
    }
    assert(out@ =~= before + class_exports(rel@, n@));
}

/// Appends the exports of an `impl` block.
pub fn visit_impl(rel: &str, b: &RustImpl, out: &mut ScanResult)
    ensures
        final(out)@ == old(out)@ + impl_exports(rel@, b@),
{
    let ghost before = out@;
    assert(before + Seq::<PyExportView>::empty() =~= before);
    if !has_attr(&b.attrs, "pymethods") {
        return;
    }
    let path = match &b.class {
        Some(path) => path,
        None => {
            return;
        },
    };
    if path.len() == 0 {
        return;
    }
    let class = &path[path.len() - 1];
    let ghost items = rust::method_views(b.items@);
    assert(text::strings_view(path@).last() == class@);
    let mut i: usize = 0;
    assert(before + methods_of(rel@, class@, items.take(0)) =~= before);
    while i < b.items.len()
        invariant
            0 <= i <= b.items@.len(),
            items == rust::method_views(b.items@),
            out@ =~= before + methods_of(rel@, class@, items.take(i as int)),
        decreases b.items.len() - i,
    {
        assert(items.take(i + 1).drop_last() =~= items.take(i as int));
        match &b.items[i] {
            Some(n) => {
                assert(items[i as int] == Some(n@));
                push_export(
                    rel,
                    n,
                    last_override(&n.attrs),
                    PyExportKind::Method { class: class.clone() },
                    out,
                );
            },
            None => {
                assert(items[i as int] is None);
            },
        }
        i += 1;
    }
    assert(items.take(i as int) =~= items);
}

/// Appends the exports of an item.
pub fn visit_item(rel: &str, item: &RustItem, out: &mut ScanResult)
    ensures
        final(out)@ == old(out)@ + item_exports(rel@, rust::item_view(*item)),
    decreases item, 0int,
{
    match item {
        RustItem::Fn(n) => {
            visit_fn(rel, n, out);
        },
        RustItem::Struct(n) => {
            visit_class(rel, n, out);
        },
        RustItem::Enum(n) => {
            visit_class(rel, n, out);
        },
        RustItem::Impl(b) => {
            visit_impl(rel, b, out);
        },
        RustItem::Mod(items) => {
            scan_items(rel, items, out);
        },
        RustItem::Other => {
            assert(out@ + Seq::<PyExportView>::empty() =~= out@);
        },
    }
}

/// Appends the exports of items.
pub fn scan_items(rel: &str, items: &Vec<RustItem>, out: &mut ScanResult)
    ensures
        final(out)@ == old(out)@ + all_exports(rel@, rust::item_views(items@)),
    decreases items, 1int,
{
    let ghost before = out@;
    let ghost all = items@;
    let mut i: usize = 0;
    assert(before + all_exports(rel@, rust::item_views(all.take(0))) =~= before);
    while i < items.len()
        invariant
            0 <= i <= items@.len(),
            all == items@,
            out@ =~= before + all_exports(rel@, rust::item_views(all.take(i as int))),
        decreases items.len() - i,
    {
        let ghost had = rust::item_views(all.take(i as int));
        proof {
            assert(all.take(i + 1).drop_last() =~= all.take(i as int));
            let next = rust::item_views(all.take(i + 1));
            assert(next.drop_last() =~= had);
            assert(next.last() == rust::item_view(all[i as int]));
        }
        visit_item(rel, &items[i], out);
        i += 1;
    }
    assert(all.take(i as int) =~= all);
}

/// Whether every export is of the file `rel`.
pub open spec fn are_of(es: Seq<PyExportView>, rel: Seq<char>) -> bool {
    forall|i: int| 0 <= i < es.len() ==> (#[trigger] es[i]).relative_path == rel
}

/// Whether `after` is `before` with more exports behind it, all of them of the
/// file `rel`.
pub open spec fn only_adds(before: Seq<PyExportView>, after: Seq<PyExportView>, rel: Seq<char>) -> bool {
    &&& before.len() <= after.len()
    &&& after.take(before.len() as int) == before
    &&& forall|i: int|
        before.len() <= i < after.len() ==> (#[trigger] after[i]).relative_path == rel
}

/// The methods of a block are of the file that is scanned.
proof fn lemma_methods_are_of(
    rel: Seq<char>,
    class: Seq<char>,
    items: Seq<Option<rust::RustNamedView>>,
)
    ensures
        are_of(methods_of(rel, class, items), rel),
    decreases items.len(),
{
    if items.len() > 0 {
        lemma_methods_are_of(rel, class, items.drop_last());
    }
}

/// The exports of an item are of the file that is scanned.
proof fn lemma_item_is_of(rel: Seq<char>, item: rust::RustItemView)
    ensures
        are_of(item_exports(rel, item), rel),
    decreases item, 0int,
{
    match item {
        rust::RustItemView::Impl(b) => {
            if let Some(path) = b.class {
                lemma_methods_are_of(rel, path.last(), b.items);
            }
        },
        rust::RustItemView::Mod(items) => {
            lemma_are_of(rel, items);
        },
        _ => {},
    }
}

/// The exports of items are of the file that is scanned.
proof fn lemma_are_of(rel: Seq<char>, items: Seq<rust::RustItemView>)
    ensures
        are_of(all_exports(rel, items), rel),
    decreases items, 1int,
{
    if items.len() > 0 {
        let front = all_exports(rel, items.drop_last());
        let own = item_exports(rel, items.last());
        lemma_are_of(rel, items.drop_last());
        lemma_item_is_of(rel, items.last());
        let all = all_exports(rel, items);
        assert forall|i: int| 0 <= i < all.len() implies (#[trigger] all[i]).relative_path == rel by {
            if i < front.len() {
                assert(all[i] == front[i]);
            } else {
                assert(all[i] == own[i - front.len()]);
            }
        }
    }
}

/// A scan leaves the exports that were found before as they are, and adds
/// exports of the scanned file behind them.
pub proof fn law_scan_only_adds(
    rel: Seq<char>,
    items: Seq<rust::RustItemView>,
    before: Seq<PyExportView>,
)
    ensures
        only_adds(before, before + all_exports(rel, items), rel),
{
    let added = all_exports(rel, items);
    lemma_are_of(rel, items);
    let after = before + added;
    assert(after.take(before.len() as int) =~= before);
    assert forall|i: int| before.len() <= i < after.len() implies (#[trigger] after[i]).relative_path
        == rel by {
        assert(after[i] == added[i - before.len()]);
    }
}

/// Whether a text can hold PyO3 exports: those that name neither the crate nor
/// one of its export attributes cannot.
pub open spec fn mentions_pyo3(text: Seq<char>) -> bool {
    ||| text::first_index(text, "pyo3"@) is Some
    ||| text::first_index(text, "pyfunction"@) is Some
    ||| text::first_index(text, "pymodule"@) is Some
    ||| text::first_index(text, "pyclass"@) is Some
    ||| text::first_index(text, "pymethods"@) is Some
}

/// Appends the PyO3 exports of the file whose contents are `text`. They are
/// recorded under the path `rel`. Nothing is appended if the text does not
/// mention PyO3. The result is whether the file could be read: a text that
/// mentions PyO3 has to be valid Rust.
pub fn scan_file(text: &str, rel: &str, out: &mut ScanResult) -> (r: bool)
    ensures
        r <==> !mentions_pyo3(text@) || rust::items_of(text@) is Some,
        final(out)@ == (if mentions_pyo3(text@) && rust::items_of(text@) is Some {
            old(out)@ + all_exports(rel@, rust::items_of(text@).unwrap())
        } else {
            old(out)@
        }),
        only_adds(old(out)@, final(out)@, rel@),
{
    proof {
        assert(out@.take(out@.len() as int) =~= out@);
    }
    let chars = text::chars_of(text);
    if !text::contains(&chars, "pyo3") && !text::contains(&chars, "pyfunction") && !text::contains(
        &chars,
        "pymodule",
    ) && !text::contains(&chars, "pyclass") && !text::contains(&chars, "pymethods") {
        return true;
    }
    match rust::parse_rust(text) {
        Some(items) => {
            proof {
                law_scan_only_adds(rel@, rust::item_views(items@), out@);
            }
            scan_items(rel, &items, out);
            true
        },
        None => false,
    }
}

} // verus!
