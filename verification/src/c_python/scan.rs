//! CPython extension exports in C sources.
//!
//! Three kinds of top-level constructs matter:
//!
//! * `static PyMethodDef <arr>[] = { { "<pyname>", (PyCFunction)<c_fn>, ... }, ... };`
//!   maps Python names to C functions.
//! * `static struct PyModuleDef <var> = { HEAD, "<modname>", ..., <arr>, ... };`
//!   gives the module's Python name and the array that it wires up.
//! * `PyMODINIT_FUNC PyInit_<modname>(void) { ... }` gives the module's name
//!   where no `PyModuleDef` does.

use crate::syntax;
use crate::syntax::{NodeKind, NodeView, SyntaxError, SyntaxNode};
use crate::text;
use vstd::prelude::*;
use vstd::utf8::*;

verus! {

/// A Python name that a C extension exports.
#[derive(Debug)]
pub struct CExport {
    pub relative_path: String,
    /// Python-facing name.
    pub python_name: String,
    /// C identifier behind it.
    pub c_name: String,
    pub kind: CExportKind,
    /// Zero-based `(line, start_col, end_col)`: the range of the name's string
    /// literal without its quotes, or of the module name in a `PyInit_*`
    /// identifier.
    pub name_span: (u32, u32, u32),
}

/// What a C extension exports.
#[derive(Debug, Clone, Copy, PartialEq, Eq, Structural)]
pub enum CExportKind {
    Module,
    Function,
}

/// What a [`CExport`] holds.
#[verifier::ext_equal]
pub struct CExportView {
    pub relative_path: Seq<char>,
    pub python_name: Seq<char>,
    pub c_name: Seq<char>,
    pub kind: CExportKind,
    pub name_span: (u32, u32, u32),
}

impl View for CExport {
    type V = CExportView;

    open spec fn view(&self) -> CExportView {
        CExportView {
            relative_path: self.relative_path@,
            python_name: self.python_name@,
            c_name: self.c_name@,
            kind: self.kind,
            name_span: self.name_span,
        }
    }
}

/// What each export of a list holds.
pub open spec fn export_views(v: Seq<CExport>) -> Seq<CExportView> {
    v.map_values(|e: CExport| e@)
}

/// The exports found so far.
#[derive(Debug)]
pub struct ScanResult {
    pub exports: Vec<CExport>,
}

impl View for ScanResult {
    type V = Seq<CExportView>;

    open spec fn view(&self) -> Seq<CExportView> {
        export_views(self.exports@)
    }
}

impl ScanResult {
    /// No exports.
    pub fn new() -> (r: Self)
        ensures
            r@ == Seq::<CExportView>::empty(),
    {
        let r = ScanResult { exports: Vec::new() };
        assert(r@ =~= Seq::empty());
        r
    }
}

/// A Python name, the C identifier behind it and the name's range: an entry
/// of a `PyMethodDef` array, or a module found through its init function.
#[derive(Debug)]
pub struct Named {
    pub python_name: String,
    pub c_name: String,
    pub name_span: (u32, u32, u32),
}

/// What a [`Named`] holds.
pub struct NamedView {
    pub python_name: Seq<char>,
    pub c_name: Seq<char>,
    pub name_span: (u32, u32, u32),
}

impl View for Named {
    type V = NamedView;

    open spec fn view(&self) -> NamedView {
        NamedView {
            python_name: self.python_name@,
            c_name: self.c_name@,
            name_span: self.name_span,
        }
    }
}

/// What each of a list holds.
pub open spec fn named_views(v: Seq<Named>) -> Seq<NamedView> {
    v.map_values(|e: Named| e@)
}

/// A `PyMethodDef` array.
#[derive(Debug)]
pub struct MethodArray {
    pub name: String,
    pub entries: Vec<Named>,
}

/// What a [`MethodArray`] holds.
pub struct MethodArrayView {
    pub name: Seq<char>,
    pub entries: Seq<NamedView>,
}

impl View for MethodArray {
    type V = MethodArrayView;

    open spec fn view(&self) -> MethodArrayView {
        MethodArrayView { name: self.name@, entries: named_views(self.entries@) }
    }
}

/// What each array of a list holds.
pub open spec fn array_views(v: Seq<MethodArray>) -> Seq<MethodArrayView> {
    v.map_values(|a: MethodArray| a@)
}

/// A `PyModuleDef`: the module's names, and the array it wires up.
#[derive(Debug)]
pub struct ModuleDef {
    pub module: Named,
    pub methods: Option<String>,
}

/// What a [`ModuleDef`] holds.
pub struct ModuleDefView {
    pub module: NamedView,
    pub methods: Option<Seq<char>>,
}

impl View for ModuleDef {
    type V = ModuleDefView;

    open spec fn view(&self) -> ModuleDefView {
        ModuleDefView { module: self.module@, methods: text::opt_view(self.methods) }
    }
}

/// What each definition of a list holds.
pub open spec fn module_views(v: Seq<ModuleDef>) -> Seq<ModuleDefView> {
    v.map_values(|m: ModuleDef| m@)
}

/// The text of the first child of a kind.
pub open spec fn child_text(src: Seq<u8>, node: NodeView, kind: NodeKind) -> Option<Seq<char>> {
    match syntax::child(node, kind) {
        Some(c) => Some(syntax::node_text(src, c)),
        None => None,
    }
}

/// The name of a declaration's type, plain or `struct`-qualified.
pub open spec fn declared_type(src: Seq<u8>, node: NodeView) -> Option<Seq<char>> {
    text::or_else(
        child_text(src, node, NodeKind::TypeIdentifier),
        match syntax::child(node, NodeKind::StructSpecifier) {
            Some(s) => child_text(src, s, NodeKind::TypeIdentifier),
            None => None,
        },
    )
}

/// The identifier that a cast applies to: the last among its children.
pub open spec fn cast_target(src: Seq<u8>, nodes: Seq<NodeView>) -> Option<Seq<char>>
    decreases nodes.len(),
{
    if nodes.len() == 0 {
        None
    } else if nodes.last().kind == NodeKind::Identifier {
        Some(syntax::node_text(src, nodes.last()))
    } else {
        cast_target(src, nodes.drop_last())
    }
}

/// The C function of an entry: the first identifier, or target of a cast,
/// among its values.
pub open spec fn first_function(src: Seq<u8>, nodes: Seq<NodeView>) -> Option<Seq<char>>
    decreases nodes.len(),
{
    if nodes.len() == 0 {
        None
    } else if nodes[0].kind == NodeKind::Identifier {
        Some(syntax::node_text(src, nodes[0]))
    } else if nodes[0].kind == NodeKind::CastExpression && cast_target(
        src,
        nodes[0].children,
    ) is Some {
        cast_target(src, nodes[0].children)
    } else {
        first_function(src, nodes.skip(1))
    }
}

/// The entry that a row of a `PyMethodDef` array makes: its first string
/// literal is the Python name. Sentinel rows make none.
pub open spec fn method_entry(src: Seq<u8>, row: NodeView) -> Option<NamedView> {
    match (syntax::child(row, NodeKind::StringLiteral), first_function(src, row.children)) {
        (Some(lit), Some(c_name)) => {
            let python_name = syntax::literal(src, lit);
            if python_name.len() == 0 || python_name == "NULL"@ || c_name == "NULL"@ {
                None
            } else {
                Some(
                    NamedView { python_name, c_name, name_span: syntax::literal_span(src, lit) },
                )
            }
        },
        _ => None,
    }
}

/// The entries of the rows among an array's nodes, in order.
pub open spec fn row_entries(src: Seq<u8>, nodes: Seq<NodeView>) -> Seq<NamedView>
    decreases nodes.len(),
{
    if nodes.len() == 0 {
        Seq::empty()
    } else {
        let before = row_entries(src, nodes.drop_last());
        if nodes.last().kind == NodeKind::InitializerList {
            match method_entry(src, nodes.last()) {
                Some(e) => before.push(e),
                None => before,
            }
        } else {
            before
        }
    }
}

/// The name that an initialised declarator declares: that of the first array
/// declarator, or an identifier.
pub open spec fn declared_name(src: Seq<u8>, nodes: Seq<NodeView>) -> Option<Seq<char>>
    decreases nodes.len(),
{
    if nodes.len() == 0 {
        None
    } else if nodes[0].kind == NodeKind::Identifier {
        Some(syntax::node_text(src, nodes[0]))
    } else if nodes[0].kind == NodeKind::ArrayDeclarator && child_text(
        src,
        nodes[0],
        NodeKind::Identifier,
    ) is Some {
        child_text(src, nodes[0], NodeKind::Identifier)
    } else {
        declared_name(src, nodes.skip(1))
    }
}

/// The array that an initialised declarator of type `PyMethodDef` makes.
pub open spec fn method_array(src: Seq<u8>, init: NodeView) -> Option<MethodArrayView> {
    match (declared_name(src, init.children), syntax::child(init, NodeKind::InitializerList)) {
        (Some(name), Some(list)) => Some(
            MethodArrayView { name, entries: row_entries(src, list.children) },
        ),
        _ => None,
    }
}

/// `arrays` with one more: an array of the same name is replaced.
pub open spec fn with_array(arrays: Seq<MethodArrayView>, array: MethodArrayView) -> Seq<
    MethodArrayView,
>
    decreases arrays.len(),
{
    if arrays.len() == 0 {
        seq![array]
    } else if arrays[0].name == array.name {
        arrays.update(0, array)
    } else {
        seq![arrays[0]] + with_array(arrays.skip(1), array)
    }
}

/// `arrays` with those that the nodes of a declaration make.
pub open spec fn with_arrays(
    src: Seq<u8>,
    arrays: Seq<MethodArrayView>,
    nodes: Seq<NodeView>,
) -> Seq<MethodArrayView>
    decreases nodes.len(),
{
    if nodes.len() == 0 {
        arrays
    } else {
        let before = with_arrays(src, arrays, nodes.drop_last());
        if nodes.last().kind == NodeKind::InitDeclarator {
            match method_array(src, nodes.last()) {
                Some(a) => with_array(before, a),
                None => before,
            }
        } else {
            before
        }
    }
}

/// The first identifier that can name an array: not `NULL`, nor the macro
/// that heads every `PyModuleDef`.
pub open spec fn wired_array(src: Seq<u8>, nodes: Seq<NodeView>) -> Option<Seq<char>>
    decreases nodes.len(),
{
    if nodes.len() == 0 {
        None
    } else {
        let name = syntax::node_text(src, nodes[0]);
        if nodes[0].kind == NodeKind::Identifier && name != "PyModuleDef_HEAD_INIT"@ && name
            != "NULL"@ {
            Some(name)
        } else {
            wired_array(src, nodes.skip(1))
        }
    }
}

/// The module that a `PyModuleDef` declaration defines: the first string
/// literal is its Python name.
pub open spec fn module_def(src: Seq<u8>, decl: NodeView) -> Option<ModuleDefView> {
    match syntax::child(decl, NodeKind::InitDeclarator) {
        Some(init) => match (
            child_text(src, init, NodeKind::Identifier),
            syntax::child(init, NodeKind::InitializerList),
        ) {
            (Some(c_name), Some(list)) => match syntax::child(list, NodeKind::StringLiteral) {
                Some(lit) => Some(
                    ModuleDefView {
                        module: NamedView {
                            python_name: syntax::literal(src, lit),
                            c_name,
                            name_span: syntax::literal_span(src, lit),
                        },
                        methods: wired_array(src, list.children),
                    },
                ),
                None => None,
            },
            _ => None,
        },
        None => None,
    }
}

/// The module that a `PyInit_*` function initialises.
pub open spec fn init_module(src: Seq<u8>, func: NodeView) -> Option<NamedView> {
    match syntax::child(func, NodeKind::FunctionDeclarator) {
        Some(decl) => match syntax::child(decl, NodeKind::Identifier) {
            Some(ident) => {
                let c_name = syntax::node_text(src, ident);
                match text::after_prefix(c_name, "PyInit_"@) {
                    Some(python_name) => Some(
                        NamedView {
                            python_name,
                            c_name,
                            name_span: syntax::span_from(
                                ident,
                                7,
                                encode_utf8(python_name).len() as int,
                            ),
                        },
                    ),
                    None => None,
                }
            },
            None => None,
        },
        None => None,
    }
}

/// What the top level of a source holds.
pub struct Found {
    pub arrays: Seq<MethodArrayView>,
    pub modules: Seq<ModuleDefView>,
    pub inits: Seq<NamedView>,
}

/// What the top-level nodes of a source hold.
pub open spec fn found(src: Seq<u8>, nodes: Seq<NodeView>) -> Found
    decreases nodes.len(),
{
    if nodes.len() == 0 {
        Found { arrays: Seq::empty(), modules: Seq::empty(), inits: Seq::empty() }
    } else {
        let before = found(src, nodes.drop_last());
        let node = nodes.last();
        if node.kind == NodeKind::Declaration && declared_type(src, node) == Some("PyMethodDef"@) {
            Found { arrays: with_arrays(src, before.arrays, node.children), ..before }
        } else if node.kind == NodeKind::Declaration && declared_type(src, node) == Some(
            "PyModuleDef"@,
        ) {
            match module_def(src, node) {
                Some(m) => Found { modules: before.modules.push(m), ..before },
                None => before,
            }
        } else if node.kind == NodeKind::FunctionDefinition {
            match init_module(src, node) {
                Some(m) => Found { inits: before.inits.push(m), ..before },
                None => before,
            }
        } else {
            before
        }
    }
}

/// The export of a Python name.
pub open spec fn export_of(rel: Seq<char>, kind: CExportKind, n: NamedView) -> CExportView {
    CExportView {
        relative_path: rel,
        python_name: n.python_name,
        c_name: n.c_name,
        kind,
        name_span: n.name_span,
    }
}

/// The exports of an array's entries.
pub open spec fn function_exports(rel: Seq<char>, entries: Seq<NamedView>) -> Seq<CExportView> {
    entries.map_values(|n: NamedView| export_of(rel, CExportKind::Function, n))
}

/// The entries of the array called `name`; none if there is no such array.
pub open spec fn entries_of(arrays: Seq<MethodArrayView>, name: Seq<char>) -> Seq<NamedView>
    decreases arrays.len(),
{
    if arrays.len() == 0 {
        Seq::empty()
    } else if arrays[0].name == name {
        arrays[0].entries
    } else {
        entries_of(arrays.skip(1), name)
    }
}

/// The exports of a module: itself, and the functions of the array that it
/// wires up.
pub open spec fn module_exports(
    rel: Seq<char>,
    arrays: Seq<MethodArrayView>,
    m: ModuleDefView,
) -> Seq<CExportView> {
    seq![export_of(rel, CExportKind::Module, m.module)] + match m.methods {
        Some(name) => function_exports(rel, entries_of(arrays, name)),
        None => Seq::empty(),
    }
}

/// The exports of modules, in order.
pub open spec fn all_module_exports(
    rel: Seq<char>,
    arrays: Seq<MethodArrayView>,
    modules: Seq<ModuleDefView>,
) -> Seq<CExportView>
    decreases modules.len(),
{
    if modules.len() == 0 {
        Seq::empty()
    } else {
        all_module_exports(rel, arrays, modules.drop_last()) + module_exports(
            rel,
            arrays,
            modules.last(),
        )
    }
}

/// The exports of the functions of all arrays, in order.
pub open spec fn all_function_exports(rel: Seq<char>, arrays: Seq<MethodArrayView>) -> Seq<
    CExportView,
>
    decreases arrays.len(),
{
    if arrays.len() == 0 {
        Seq::empty()
    } else {
        all_function_exports(rel, arrays.drop_last()) + function_exports(
            rel,
            arrays.last().entries,
        )
    }
}

/// The exports of a source. Functions belong to the module that wires up
/// their array. In a source without a `PyModuleDef`, all functions belong to
/// the module of its `PyInit_*` function, if it has exactly one.
pub open spec fn resolved(rel: Seq<char>, f: Found) -> Seq<CExportView> {
    if f.modules.len() > 0 {
        all_module_exports(rel, f.arrays, f.modules)
    } else {
        let head = if f.inits.len() == 1 {
            seq![export_of(rel, CExportKind::Module, f.inits[0])]
        } else {
            Seq::empty()
        };
        head + all_function_exports(rel, f.arrays)
    }
}

/// The CPython exports of a source.
pub open spec fn python_exports(src: Seq<u8>, rel: Seq<char>, tree: NodeView) -> Seq<CExportView> {
    resolved(rel, found(src, tree.children))
}

/// The text of the first child of a kind.
fn text_of_child(src: &[u8], node: &SyntaxNode, kind: NodeKind) -> (r: Option<String>)
    requires
        syntax::fits(node@, src@.len() as int),
    ensures
        text::opt_view(r) == child_text(src@, node@, kind),
{
    match syntax::child_of_kind(node, kind) {
        Some(c) => {
            assert(syntax::fits(c@, src@.len() as int));
            Some(syntax::slice(src, c))
        },
        None => None,
    }
}

/// The name of a declaration's type.
fn type_of(src: &[u8], node: &SyntaxNode) -> (r: Option<String>)
    requires
        syntax::fits(node@, src@.len() as int),
    ensures
        text::opt_view(r) == declared_type(src@, node@),
{
    match text_of_child(src, node, NodeKind::TypeIdentifier) {
        Some(t) => Some(t),
        None => match syntax::child_of_kind(node, NodeKind::StructSpecifier) {
            Some(s) => text_of_child(src, s, NodeKind::TypeIdentifier),
            None => None,
        },
    }
}

/// The identifier that a cast applies to: the last among its children.
pub fn cast_target_ident(src: &[u8], cast: &SyntaxNode) -> (r: Option<String>)
    requires
        syntax::fits(cast@, src@.len() as int),
    ensures
        text::opt_view(r) == cast_target(src@, cast@.children),
{
    let ghost kids = cast@.children;
    let mut n: usize = syntax::child_count(cast);
    assert(kids.take(n as int) =~= kids);
    while n > 0
        invariant
            0 <= n <= kids.len(),
            kids == cast@.children,
            syntax::fits(cast@, src@.len() as int),
            cast_target(src@, kids) == cast_target(src@, kids.take(n as int)),
        decreases n,
    {
        let c = syntax::nth_child(cast, n - 1);
        assert(kids.take(n as int).drop_last() =~= kids.take(n - 1));
        assert(syntax::fits(c@, src@.len() as int));
        if c.kind == NodeKind::Identifier {
            return Some(syntax::slice(src, c));
        }
        n -= 1;
    }
    None
}

/// The C function of an entry.
fn find_function(src: &[u8], row: &SyntaxNode) -> (r: Option<String>)
    requires
        syntax::fits(row@, src@.len() as int),
    ensures
        text::opt_view(r) == first_function(src@, row@.children),
{
    let ghost kids = row@.children;
    let mut i: usize = 0;
    assert(kids.skip(0) =~= kids);
    while i < syntax::child_count(row)
        invariant
            0 <= i <= kids.len(),
            kids == row@.children,
            syntax::fits(row@, src@.len() as int),
            first_function(src@, kids) == first_function(src@, kids.skip(i as int)),
        decreases row@.children.len() - i,
    {
        let c = syntax::nth_child(row, i);
        assert(kids.skip(i as int)[0] == c@);
        assert(syntax::fits(c@, src@.len() as int));
        assert(kids.skip(i as int).skip(1) =~= kids.skip(i + 1));
        if c.kind == NodeKind::Identifier {
            return Some(syntax::slice(src, c));
        }
        if c.kind == NodeKind::CastExpression {
            let target = cast_target_ident(src, c);
            if target.is_some() {
                return target;
            }
        }
        i += 1;
    }
    None
}

/// The entry that a row of a `PyMethodDef` array makes.
pub fn parse_method_entry(src: &[u8], row: &SyntaxNode) -> (r: Option<Named>)
    requires
        syntax::fits(row@, src@.len() as int),
        src@.len() < u32::MAX,
    ensures
        r matches Some(e) ==> method_entry(src@, row@) == Some(e@),
        r is None ==> method_entry(src@, row@) is None,
{
    let lit = match syntax::child_of_kind(row, NodeKind::StringLiteral) {
        Some(lit) => lit,
        None => {
            return None;
        },
    };
    let c_name = match find_function(src, row) {
        Some(c_name) => c_name,
        None => {
            return None;
        },
    };
    let (python_name, name_span) = syntax::literal_value(src, lit);
    if text::is_empty_text(python_name.as_str()) || text::str_eq(python_name.as_str(), "NULL")
        || text::str_eq(c_name.as_str(), "NULL") {
        return None;
    }
    Some(Named { python_name, c_name, name_span })
}

/// The entries of the rows of an array.
fn collect_rows(src: &[u8], list: &SyntaxNode) -> (r: Vec<Named>)
    requires
        syntax::fits(list@, src@.len() as int),
        src@.len() < u32::MAX,
    ensures
        named_views(r@) == row_entries(src@, list@.children),
{
    let ghost kids = list@.children;
    let mut out: Vec<Named> = Vec::new();
    let mut i: usize = 0;
    assert(named_views(out@) =~= row_entries(src@, kids.take(0)));
    while i < syntax::child_count(list)
        invariant
            0 <= i <= kids.len(),
            kids == list@.children,
            src@.len() < u32::MAX,
            syntax::fits(list@, src@.len() as int),
            named_views(out@) == row_entries(src@, kids.take(i as int)),
        decreases list@.children.len() - i,
    {
        let row = syntax::nth_child(list, i);
        let ghost had = named_views(out@);
        assert(kids.take(i + 1).drop_last() =~= kids.take(i as int));
        assert(kids.take(i + 1).last() == row@);
        if row.kind == NodeKind::InitializerList {
            if let Some(e) = parse_method_entry(src, row) {
                let ghost ev = e@;
                out.push(e);
                assert(named_views(out@) =~= had.push(ev));
            }
        }
        i += 1;
    }
    assert(kids.take(i as int) =~= kids);
    out
}

/// The name that an initialised declarator declares.
fn find_name(src: &[u8], init: &SyntaxNode) -> (r: Option<String>)
    requires
        syntax::fits(init@, src@.len() as int),
    ensures
        text::opt_view(r) == declared_name(src@, init@.children),
{
    let ghost kids = init@.children;
    let mut i: usize = 0;
    assert(kids.skip(0) =~= kids);
    while i < syntax::child_count(init)
        invariant
            0 <= i <= kids.len(),
            kids == init@.children,
            syntax::fits(init@, src@.len() as int),
            declared_name(src@, kids) == declared_name(src@, kids.skip(i as int)),
        decreases init@.children.len() - i,
    {
        let c = syntax::nth_child(init, i);
        assert(kids.skip(i as int)[0] == c@);
        assert(syntax::fits(c@, src@.len() as int));
        assert(kids.skip(i as int).skip(1) =~= kids.skip(i + 1));
        if c.kind == NodeKind::Identifier {
            return Some(syntax::slice(src, c));
        }
        if c.kind == NodeKind::ArrayDeclarator {
            let name = text_of_child(src, c, NodeKind::Identifier);
            if name.is_some() {
                return name;
            }
        }
        i += 1;
    }
    None
}

/// Adds an array; one of the same name is replaced.
fn insert_array(arrays: &mut Vec<MethodArray>, array: MethodArray)
    ensures
        array_views(final(arrays)@) == with_array(array_views(old(arrays)@), array@),
{
    let ghost all = array_views(arrays@);
    let ghost av = array@;
    let mut i: usize = 0;
    assert(all.skip(0) =~= all);
    assert(all.take(0) + with_array(all.skip(0), av) =~= with_array(all, av));
    while i < arrays.len()
        invariant
            0 <= i <= arrays@.len(),
            all == array_views(arrays@),
            all == array_views(old(arrays)@),
            av == array@,
            with_array(all, av) =~= all.take(i as int) + with_array(all.skip(i as int), av),
        decreases arrays.len() - i,
    {
        assert(all[i as int] == arrays@[i as int]@);
        assert(all.skip(i as int).skip(1) =~= all.skip(i + 1));
        if text::str_eq(arrays[i].name.as_str(), array.name.as_str()) {
            assert(all.take(i as int) + all.skip(i as int).update(0, av) =~= all.update(
                i as int,
                av,
            ));
            arrays.set(i, array);
            assert(array_views(arrays@) =~= all.update(i as int, av));
            return;
        }
        assert(all.take(i + 1) =~= all.take(i as int).push(all[i as int]));
        i += 1;
    }
    assert(with_array(all.skip(i as int), av) =~= seq![av]);
    arrays.push(array);
    assert(array_views(arrays@) =~= all.push(av));
}

/// Adds the arrays that a declaration of type `PyMethodDef` makes.
pub fn collect_method_def(src: &[u8], decl: &SyntaxNode, arrays: &mut Vec<MethodArray>)
    requires
        syntax::fits(decl@, src@.len() as int),
        src@.len() < u32::MAX,
    ensures
        array_views(final(arrays)@) == with_arrays(src@, array_views(old(arrays)@), decl@.children),
{
    let ghost before = array_views(arrays@);
    let ghost kids = decl@.children;
    let mut i: usize = 0;
    while i < syntax::child_count(decl)
        invariant
            0 <= i <= kids.len(),
            kids == decl@.children,
            src@.len() < u32::MAX,
            syntax::fits(decl@, src@.len() as int),
            array_views(arrays@) == with_arrays(src@, before, kids.take(i as int)),
        decreases decl@.children.len() - i,
    {
        let init = syntax::nth_child(decl, i);
        assert(kids.take(i + 1).drop_last() =~= kids.take(i as int));
        assert(kids.take(i + 1).last() == init@);
        assert(syntax::fits(init@, src@.len() as int));
        if init.kind == NodeKind::InitDeclarator {
            if let Some(name) = find_name(src, init) {
                if let Some(list) = syntax::child_of_kind(init, NodeKind::InitializerList) {
                    let entries = collect_rows(src, list);
                    insert_array(arrays, MethodArray { name, entries });
                }
            }
        }
        i += 1;
    }
    assert(kids.take(i as int) =~= kids);
}

/// The first identifier that can name an array.
fn find_wired_array(src: &[u8], list: &SyntaxNode) -> (r: Option<String>)
    requires
        syntax::fits(list@, src@.len() as int),
    ensures
        text::opt_view(r) == wired_array(src@, list@.children),
{
    let ghost kids = list@.children;
    let mut i: usize = 0;
    assert(kids.skip(0) =~= kids);
    while i < syntax::child_count(list)
        invariant
            0 <= i <= kids.len(),
            kids == list@.children,
            syntax::fits(list@, src@.len() as int),
            wired_array(src@, kids) == wired_array(src@, kids.skip(i as int)),
        decreases list@.children.len() - i,
    {
        let c = syntax::nth_child(list, i);
        assert(kids.skip(i as int)[0] == c@);
        assert(syntax::fits(c@, src@.len() as int));
        assert(kids.skip(i as int).skip(1) =~= kids.skip(i + 1));
        if c.kind == NodeKind::Identifier {
            let name = syntax::slice(src, c);
            if !text::str_eq(name.as_str(), "PyModuleDef_HEAD_INIT") && !text::str_eq(
                name.as_str(),
                "NULL",
            ) {
                return Some(name);
            }
        }
        i += 1;
    }
    None
}

/// The module that a `PyModuleDef` declaration defines.
pub fn collect_module_def(src: &[u8], decl: &SyntaxNode) -> (r: Option<ModuleDef>)
    requires
        syntax::fits(decl@, src@.len() as int),
        src@.len() < u32::MAX,
    ensures
        r matches Some(m) ==> module_def(src@, decl@) == Some(m@),
        r is None ==> module_def(src@, decl@) is None,
{
    let init = match syntax::child_of_kind(decl, NodeKind::InitDeclarator) {
        Some(init) => init,
        None => {
            return None;
        },
    };
    assert(syntax::fits(init@, src@.len() as int));
    let c_name = match text_of_child(src, init, NodeKind::Identifier) {
        Some(c_name) => c_name,
        None => {
            return None;
        },
    };
    let list = match syntax::child_of_kind(init, NodeKind::InitializerList) {
        Some(list) => list,
        None => {
            return None;
        },
    };
    assert(syntax::fits(list@, src@.len() as int));
    let lit = match syntax::child_of_kind(list, NodeKind::StringLiteral) {
        Some(lit) => lit,
        None => {
            return None;
        },
    };
    let (python_name, name_span) = syntax::literal_value(src, lit);
    let methods = find_wired_array(src, list);
    Some(ModuleDef { module: Named { python_name, c_name, name_span }, methods })
}

/// The module that a `PyInit_*` function initialises.
pub fn collect_pyinit(src: &[u8], func: &SyntaxNode) -> (r: Option<Named>)
    requires
        syntax::fits(func@, src@.len() as int),
        src@.len() < u32::MAX,
    ensures
        r matches Some(m) ==> init_module(src@, func@) == Some(m@),
        r is None ==> init_module(src@, func@) is None,
{
    let decl = match syntax::child_of_kind(func, NodeKind::FunctionDeclarator) {
        Some(decl) => decl,
        None => {
            return None;
        },
    };
    assert(syntax::fits(decl@, src@.len() as int));
    let ident = match syntax::child_of_kind(decl, NodeKind::Identifier) {
        Some(ident) => ident,
        None => {
            return None;
        },
    };
    assert(syntax::fits(ident@, src@.len() as int));
    let c_name = syntax::slice(src, ident);
    let chars = text::chars_of(c_name.as_str());
    match text::strip_prefix(&chars, "PyInit_") {
        Some(rest) => {
            let python_name = text::string_of(rest);
            proof {
                reveal_strlit("PyInit_");
                assert(chars@ =~= "PyInit_"@ + rest@);
                syntax::lemma_encode_concat("PyInit_"@, rest@);
                syntax::lemma_encode_len("PyInit_"@);
            }
            let name_span = syntax::make_span(ident, 7, python_name.as_str().as_bytes().len());
            Some(Named { python_name, c_name, name_span })
        },
        None => None,
    }
}

/// Appends the exports of an array's entries.
fn push_functions(rel: &str, entries: &Vec<Named>, out: &mut ScanResult)
    ensures
        final(out)@ == old(out)@ + function_exports(rel@, named_views(entries@)),
{
    let ghost before = out@;
    let ghost all = named_views(entries@);
    let mut i: usize = 0;
    assert(before + function_exports(rel@, all.take(0)) =~= before);
    while i < entries.len()
        invariant
            0 <= i <= entries@.len(),
            all == named_views(entries@),
            out@ =~= before + function_exports(rel@, all.take(i as int)),
        decreases entries.len() - i,
    {
        assert(all[i as int] == entries@[i as int]@);
        push_export(rel, CExportKind::Function, &entries[i], out);
        i += 1;
        assert(function_exports(rel@, all.take(i as int)) =~= function_exports(
            rel@,
            all.take(i - 1),
        ).push(export_of(rel@, CExportKind::Function, all[i - 1])));
    }
    assert(all.take(i as int) =~= all);
}

/// Appends the export of a Python name.
fn push_export(rel: &str, kind: CExportKind, n: &Named, out: &mut ScanResult)
    ensures
        final(out)@ == old(out)@.push(export_of(rel@, kind, n@)),
{
    let ghost before = out@;
    let e = CExport {
        relative_path: rel.to_string(),
        python_name: n.python_name.clone(),
        c_name: n.c_name.clone(),
        kind,
        name_span: n.name_span,
    };
    let ghost ev = e@;
    out.exports.push(e);
    assert(out@ =~= before.push(ev));
}

/// Appends the exports of the entries of the array called `name`.
fn push_array(rel: &str, arrays: &Vec<MethodArray>, name: &str, out: &mut ScanResult)
    ensures
        final(out)@ == old(out)@ + function_exports(
            rel@,
            entries_of(array_views(arrays@), name@),
        ),
{
    let ghost before = out@;
    let ghost all = array_views(arrays@);
    let mut i: usize = 0;
    assert(all.skip(0) =~= all);
    while i < arrays.len()
        invariant
            0 <= i <= arrays@.len(),
            out@ == before,
            before == old(out)@,
            all == array_views(arrays@),
            entries_of(all, name@) == entries_of(all.skip(i as int), name@),
        decreases arrays.len() - i,
    {
        assert(all[i as int] == arrays@[i as int]@);
        assert(all.skip(i as int).skip(1) =~= all.skip(i + 1));
        if text::str_eq(arrays[i].name.as_str(), name) {
            push_functions(rel, &arrays[i].entries, out);
            return;
        }
        i += 1;
    }
    assert(before + function_exports(rel@, Seq::empty()) =~= before);
}

/// Appends the exports of the modules that are defined, and of the functions
/// of the arrays that they wire up.
fn push_modules(
    rel: &str,
    arrays: &Vec<MethodArray>,
    modules: &Vec<ModuleDef>,
    out: &mut ScanResult,
)
    ensures
        final(out)@ == old(out)@ + all_module_exports(
            rel@,
            array_views(arrays@),
            module_views(modules@),
        ),
{
    let ghost before = out@;
    let ghost av = array_views(arrays@);
    let ghost all = module_views(modules@);
    let mut i: usize = 0;
    assert(before + all_module_exports(rel@, av, all.take(0)) =~= before);
    while i < modules.len()
        invariant
            0 <= i <= modules@.len(),
            av == array_views(arrays@),
            all == module_views(modules@),
            out@ =~= before + all_module_exports(rel@, av, all.take(i as int)),
        decreases modules.len() - i,
    {
        let ghost had = all_module_exports(rel@, av, all.take(i as int));
        let ghost m = all[i as int];
        assert(m == modules@[i as int]@);
        assert(all.take(i + 1).drop_last() =~= all.take(i as int));
        push_export(rel, CExportKind::Module, &modules[i].module, out);
        assert(out@ =~= before + (had + seq![export_of(rel@, CExportKind::Module, m.module)]));
        if let Some(name) = &modules[i].methods {
            push_array(rel, arrays, name.as_str(), out);
        }
        assert(out@ =~= before + (had + module_exports(rel@, av, m)));
        i += 1;
    }
    assert(all.take(i as int) =~= all);
}

/// Appends the exports of the functions of all arrays.
fn push_all_functions(rel: &str, arrays: &Vec<MethodArray>, out: &mut ScanResult)
    ensures
        final(out)@ == old(out)@ + all_function_exports(rel@, array_views(arrays@)),
{
    let ghost before = out@;
    let ghost all = array_views(arrays@);
    let mut i: usize = 0;
    assert(before + all_function_exports(rel@, all.take(0)) =~= before);
    while i < arrays.len()
        invariant
            0 <= i <= arrays@.len(),
            all == array_views(arrays@),
            out@ =~= before + all_function_exports(rel@, all.take(i as int)),
        decreases arrays.len() - i,
    {
        let ghost had = all_function_exports(rel@, all.take(i as int));
        assert(all[i as int] == arrays@[i as int]@);
        assert(all.take(i + 1).drop_last() =~= all.take(i as int));
        push_functions(rel, &arrays[i].entries, out);
        assert(out@ =~= before + (had + function_exports(rel@, all[i as int].entries)));
        i += 1;
    }
    assert(all.take(i as int) =~= all);
}

/// Appends the CPython exports of a source file, parsed into `tree`.
pub fn scan_tree(src: &[u8], rel: &str, tree: &SyntaxNode, out: &mut ScanResult)
    requires
        syntax::fits(tree@, src@.len() as int),
        src@.len() < u32::MAX,
    ensures
        final(out)@ == old(out)@ + python_exports(src@, rel@, tree@),
{
    let ghost kids = tree@.children;
    let mut arrays: Vec<MethodArray> = Vec::new();
    let mut modules: Vec<ModuleDef> = Vec::new();
    let mut inits: Vec<Named> = Vec::new();
    let mut i: usize = 0;
    proof {
        assert(array_views(arrays@) =~= Seq::empty());
        assert(module_views(modules@) =~= Seq::empty());
        assert(named_views(inits@) =~= Seq::empty());
    }
    while i < syntax::child_count(tree)
        invariant
            0 <= i <= kids.len(),
            kids == tree@.children,
            src@.len() < u32::MAX,
            syntax::fits(tree@, src@.len() as int),
            found(src@, kids.take(i as int)) == (Found {
                arrays: array_views(arrays@),
                modules: module_views(modules@),
                inits: named_views(inits@),
            }),
        decreases tree@.children.len() - i,
    {
        let node = syntax::nth_child(tree, i);
        let ghost had_modules = module_views(modules@);
        let ghost had_inits = named_views(inits@);
        assert(kids.take(i + 1).drop_last() =~= kids.take(i as int));
        assert(kids.take(i + 1).last() == node@);
        assert(syntax::fits(node@, src@.len() as int));
        if node.kind == NodeKind::Declaration {
            let declared = type_of(src, node);
            if let Some(name) = declared {
                if text::str_eq(name.as_str(), "PyMethodDef") {
                    collect_method_def(src, node, &mut arrays);
                } else if text::str_eq(name.as_str(), "PyModuleDef") {
                    assert("PyMethodDef"@ != name@);
                    if let Some(m) = collect_module_def(src, node) {
                        let ghost mv = m@;
                        modules.push(m);
                        assert(module_views(modules@) =~= had_modules.push(mv));
                    }
                }
            }
        } else if node.kind == NodeKind::FunctionDefinition {
            if let Some(m) = collect_pyinit(src, node) {
                let ghost mv = m@;
                inits.push(m);
                assert(named_views(inits@) =~= had_inits.push(mv));
            }
        }
        i += 1;
    }
    assert(kids.take(i as int) =~= kids);
    let ghost before = out@;
    if modules.len() > 0 {
        push_modules(rel, &arrays, &modules, out);
    } else {
        if inits.len() == 1 {
            assert(named_views(inits@)[0] == inits@[0]@);
            push_export(rel, CExportKind::Module, &inits[0], out);
        }
        let ghost head = if inits@.len() == 1 {
            seq![export_of(rel@, CExportKind::Module, inits@[0]@)]
        } else {
            Seq::empty()
        };
        assert(out@ =~= before + head);
        push_all_functions(rel, &arrays, out);
        assert(out@ =~= before + (head + all_function_exports(rel@, array_views(arrays@))));
    }
}

/// Whether every export is of the file `rel`.
pub open spec fn are_of(es: Seq<CExportView>, rel: Seq<char>) -> bool {
    forall|i: int| 0 <= i < es.len() ==> (#[trigger] es[i]).relative_path == rel
}

/// Whether `after` is `before` with more exports behind it, all of them of the
/// file `rel`.
pub open spec fn only_adds(before: Seq<CExportView>, after: Seq<CExportView>, rel: Seq<char>) -> bool {
    &&& before.len() <= after.len()
    &&& after.take(before.len() as int) == before
    &&& forall|i: int|
        before.len() <= i < after.len() ==> (#[trigger] after[i]).relative_path == rel
}

/// The exports of modules are of the file that is scanned.
proof fn lemma_modules_are_of(
    rel: Seq<char>,
    arrays: Seq<MethodArrayView>,
    modules: Seq<ModuleDefView>,
)
    ensures
        are_of(all_module_exports(rel, arrays, modules), rel),
    decreases modules.len(),
{
    if modules.len() > 0 {
        let front = all_module_exports(rel, arrays, modules.drop_last());
        let own = module_exports(rel, arrays, modules.last());
        lemma_modules_are_of(rel, arrays, modules.drop_last());
        assert(are_of(own, rel));
        let all = all_module_exports(rel, arrays, modules);
        assert forall|i: int| 0 <= i < all.len() implies (#[trigger] all[i]).relative_path == rel by {
            if i < front.len() {
                assert(all[i] == front[i]);
            } else {
                assert(all[i] == own[i - front.len()]);
            }
        }
    }
}

/// The exports of arrays are of the file that is scanned.
proof fn lemma_functions_are_of(rel: Seq<char>, arrays: Seq<MethodArrayView>)
    ensures
        are_of(all_function_exports(rel, arrays), rel),
    decreases arrays.len(),
{
    if arrays.len() > 0 {
        let front = all_function_exports(rel, arrays.drop_last());
        let own = function_exports(rel, arrays.last().entries);
        lemma_functions_are_of(rel, arrays.drop_last());
        assert(are_of(own, rel));
        let all = all_function_exports(rel, arrays);
        assert forall|i: int| 0 <= i < all.len() implies (#[trigger] all[i]).relative_path == rel by {
            if i < front.len() {
                assert(all[i] == front[i]);
            } else {
                assert(all[i] == own[i - front.len()]);
            }
        }
    }
}

/// The exports of a source are of the file that is scanned.
proof fn lemma_are_of(src: Seq<u8>, rel: Seq<char>, tree: NodeView)
    ensures
        are_of(python_exports(src, rel, tree), rel),
{
    let f = found(src, tree.children);
    lemma_modules_are_of(rel, f.arrays, f.modules);
    lemma_functions_are_of(rel, f.arrays);
    let functions = all_function_exports(rel, f.arrays);
    let all = python_exports(src, rel, tree);
    assert forall|i: int| 0 <= i < all.len() implies (#[trigger] all[i]).relative_path == rel by {
        if f.modules.len() == 0 {
            let head = all.len() - functions.len();
            if i >= head {
                assert(all[i] == functions[i - head]);
            }
        }
    }
}

/// A scan leaves the exports that were found before as they are, and adds
/// exports of the scanned file behind them.
pub proof fn law_scan_only_adds(
    src: Seq<u8>,
    rel: Seq<char>,
    tree: NodeView,
    before: Seq<CExportView>,
)
    ensures
        only_adds(before, before + python_exports(src, rel, tree), rel),
{
    let added = python_exports(src, rel, tree);
    lemma_are_of(src, rel, tree);
    let after = before + added;
    assert(after.take(before.len() as int) =~= before);
    assert forall|i: int| before.len() <= i < after.len() implies (#[trigger] after[i]).relative_path
        == rel by {
        assert(after[i] == added[i - before.len()]);
    }
}

/// Whether a text can hold CPython exports: those without its entry points
/// are the vast majority in most trees.
pub open spec fn mentions_python(text: Seq<char>) -> bool {
    ||| text::first_index(text, "PyMethodDef"@) is Some
    ||| text::first_index(text, "PyModuleDef"@) is Some
    ||| text::first_index(text, "PyInit_"@) is Some
}

/// Appends the CPython exports of the file whose contents are `text`. They
/// are recorded under the path `rel`. Nothing is appended if the text
/// mentions no CPython entry point or has no syntax tree.
pub fn scan_file(text: &str, rel: &str, out: &mut ScanResult) -> (r: Result<(), SyntaxError>)
    ensures
        r is Err <==> mentions_python(text@) && syntax::is_refused(text@, false),
        (!mentions_python(text@) || !syntax::has_syntax(text@, false)) ==> final(out)@ == old(out)@,
        mentions_python(text@) && syntax::has_syntax(text@, false) ==> final(out)@ == old(out)@
            + python_exports(encode_utf8(text@), rel@, syntax::syntax_of(text@, false)),
        only_adds(old(out)@, final(out)@, rel@),
{
    proof {
        assert(out@.take(out@.len() as int) =~= out@);
    }
    let chars = text::chars_of(text);
    if !text::contains(&chars, "PyMethodDef") && !text::contains(&chars, "PyModuleDef")
        && !text::contains(&chars, "PyInit_") {
        return Ok(());
    }
    match syntax::parse_source(text, false) {
        Err(e) => Err(e),
        Ok(None) => Ok(()),
        Ok(Some(tree)) => {
            proof {
                law_scan_only_adds(encode_utf8(text@), rel@, tree@, out@);
            }
            scan_tree(text.as_bytes(), rel, &tree, out);
            Ok(())
        },
    }
}

} // verus!
