//! JNI exports in C and C++ sources.
//!
//! A native library exposes implementations of Java `native` methods in two
//! ways:
//!
//! * Exported functions whose names follow the JNI mangling scheme
//!   (`JNIEXPORT jint JNICALL Java_com_example_Foo_bar(...)`). The macros
//!   around them are unknown to the parser, so they are found by the shape of
//!   the identifier, under a declarator, a call or a parse error.
//! * `JNINativeMethod` tables registered with `RegisterNatives`, each entry
//!   of which maps a Java method name to a C function. The Java class is the
//!   one that the file looks up with `FindClass`; entries are dropped unless
//!   that is exactly one class.

use crate::jni::name;
use crate::paths;
use crate::syntax;
use crate::syntax::{NodeKind, NodeView, SyntaxError, SyntaxNode, Visit, VisitView};
use crate::text;
use vstd::prelude::*;
use vstd::utf8::*;

verus! {

/// A Java method that native code implements.
#[derive(Debug)]
pub struct JniExport {
    pub relative_path: String,
    /// Class binary-name components: package parts, then the class itself
    /// (which may contain `$` for nested classes), e.g.
    /// `["com", "example", "Foo"]`.
    pub class: Vec<String>,
    /// Java-facing method name.
    pub java_name: String,
    /// C identifier implementing the method.
    pub c_name: String,
    /// Zero-based `(line, start_col, end_col)`: the range of the mangled
    /// identifier, or of the name string literal for table entries.
    pub name_span: (u32, u32, u32),
}

/// What a [`JniExport`] holds.
#[verifier::ext_equal]
pub struct JniExportView {
    pub relative_path: Seq<char>,
    pub class: Seq<Seq<char>>,
    pub java_name: Seq<char>,
    pub c_name: Seq<char>,
    pub name_span: (u32, u32, u32),
}

impl View for JniExport {
    type V = JniExportView;

    open spec fn view(&self) -> JniExportView {
        JniExportView {
            relative_path: self.relative_path@,
            class: text::strings_view(self.class@),
            java_name: self.java_name@,
            c_name: self.c_name@,
            name_span: self.name_span,
        }
    }
}

/// What each export of a list holds.
pub open spec fn export_views(v: Seq<JniExport>) -> Seq<JniExportView> {
    v.map_values(|e: JniExport| e@)
}

/// The exports found so far.
#[derive(Debug)]
pub struct ScanResult {
    pub exports: Vec<JniExport>,
}

impl View for ScanResult {
    type V = Seq<JniExportView>;

    open spec fn view(&self) -> Seq<JniExportView> {
        export_views(self.exports@)
    }
}

impl ScanResult {
    /// No exports.
    pub fn new() -> (r: Self)
        ensures
            r@ == Seq::<JniExportView>::empty(),
    {
        let r = ScanResult { exports: Vec::new() };
        assert(r@ =~= Seq::empty());
        r
    }
}

/// An entry of a `JNINativeMethod` table.
#[derive(Debug)]
pub struct TableEntry {
    pub java_name: String,
    pub c_name: String,
    pub name_span: (u32, u32, u32),
}

/// What a [`TableEntry`] holds.
pub struct TableEntryView {
    pub java_name: Seq<char>,
    pub c_name: Seq<char>,
    pub name_span: (u32, u32, u32),
}

impl View for TableEntry {
    type V = TableEntryView;

    open spec fn view(&self) -> TableEntryView {
        TableEntryView {
            java_name: self.java_name@,
            c_name: self.c_name@,
            name_span: self.name_span,
        }
    }
}

/// What each entry of a list holds.
pub open spec fn entry_views(v: Seq<TableEntry>) -> Seq<TableEntryView> {
    v.map_values(|e: TableEntry| e@)
}

/// The export that an identifier stands for: a mangled name under a
/// declarator, a call or a parse error.
pub open spec fn exported_fn(src: Seq<u8>, rel: Seq<char>, v: VisitView) -> Option<JniExportView> {
    let c_name = syntax::node_text(src, v.node);
    let declares = v.parent == Some(NodeKind::FunctionDeclarator) || v.parent == Some(
        NodeKind::CallExpression,
    ) || v.parent == Some(NodeKind::Error);
    if v.node.kind == NodeKind::Identifier && declares {
        match name::demangled(c_name) {
            Some(n) => Some(
                JniExportView {
                    relative_path: rel,
                    class: n.class,
                    java_name: n.method,
                    c_name,
                    name_span: syntax::span_from(v.node, 0, encode_utf8(c_name).len() as int),
                },
            ),
            None => None,
        }
    } else {
        None
    }
}

/// The exported functions among the visited nodes, in order.
pub open spec fn exported_fns(src: Seq<u8>, rel: Seq<char>, vs: Seq<VisitView>) -> Seq<JniExportView>
    decreases vs.len(),
{
    if vs.len() == 0 {
        Seq::empty()
    } else {
        let before = exported_fns(src, rel, vs.drop_last());
        match exported_fn(src, rel, vs.last()) {
            Some(e) => before.push(e),
            None => before,
        }
    }
}

/// Whether a node is a type identifier that reads `wanted`.
pub open spec fn names_type(src: Seq<u8>, node: NodeView, wanted: Seq<char>) -> bool {
    node.kind == NodeKind::TypeIdentifier && syntax::node_text(src, node) == wanted
}

/// Whether a declaration's type, plain or `struct`-qualified, is `wanted`.
pub open spec fn declares(src: Seq<u8>, node: NodeView, wanted: Seq<char>) -> bool {
    exists|i: int|
        0 <= i < node.children.len() && {
            ||| names_type(src, #[trigger] node.children[i], wanted)
            ||| node.children[i].kind == NodeKind::StructSpecifier && has_type_name(
                src,
                node.children[i].children,
                wanted,
            )
        }
}

/// Whether one of the nodes is a type identifier that reads `wanted`.
pub open spec fn has_type_name(src: Seq<u8>, nodes: Seq<NodeView>, wanted: Seq<char>) -> bool {
    exists|i: int| 0 <= i < nodes.len() && names_type(src, #[trigger] nodes[i], wanted)
}

/// The C function of a table entry: the identifier that the first cast or
/// identifier among its values ends in.
pub open spec fn first_target(src: Seq<u8>, nodes: Seq<NodeView>) -> Option<Seq<char>>
    decreases nodes.len(),
{
    if nodes.len() == 0 {
        None
    } else {
        let is_value = nodes[0].kind == NodeKind::CastExpression || nodes[0].kind
            == NodeKind::Identifier;
        if is_value && syntax::last_identifier_of(src, nodes[0]) is Some {
            syntax::last_identifier_of(src, nodes[0])
        } else {
            first_target(src, nodes.skip(1))
        }
    }
}

/// The entry that a row of a `JNINativeMethod` table makes: its first string
/// literal is the Java name. Sentinel rows make none.
pub open spec fn table_entry(src: Seq<u8>, row: NodeView) -> Option<TableEntryView> {
    match (syntax::child(row, NodeKind::StringLiteral), first_target(src, row.children)) {
        (Some(lit), Some(c_name)) => {
            let java_name = syntax::literal(src, lit);
            if java_name.len() == 0 || java_name == "NULL"@ || c_name == "NULL"@ {
                None
            } else {
                Some(
                    TableEntryView {
                        java_name,
                        c_name,
                        name_span: syntax::literal_span(src, lit),
                    },
                )
            }
        },
        _ => None,
    }
}

/// The entries of the rows among a table's nodes, in order.
pub open spec fn row_entries(src: Seq<u8>, nodes: Seq<NodeView>) -> Seq<TableEntryView>
    decreases nodes.len(),
{
    if nodes.len() == 0 {
        Seq::empty()
    } else {
        let before = row_entries(src, nodes.drop_last());
        if nodes.last().kind == NodeKind::InitializerList {
            match table_entry(src, nodes.last()) {
                Some(e) => before.push(e),
                None => before,
            }
        } else {
            before
        }
    }
}

/// The entries of the tables that a declaration's nodes initialise, in order.
pub open spec fn table_entries(src: Seq<u8>, nodes: Seq<NodeView>) -> Seq<TableEntryView>
    decreases nodes.len(),
{
    if nodes.len() == 0 {
        Seq::empty()
    } else {
        let before = table_entries(src, nodes.drop_last());
        if nodes.last().kind == NodeKind::InitDeclarator {
            match syntax::child(nodes.last(), NodeKind::InitializerList) {
                Some(list) => before + row_entries(src, list.children),
                None => before,
            }
        } else {
            before
        }
    }
}

/// The entries of the `JNINativeMethod` tables among the visited nodes.
pub open spec fn all_entries(src: Seq<u8>, vs: Seq<VisitView>) -> Seq<TableEntryView>
    decreases vs.len(),
{
    if vs.len() == 0 {
        Seq::empty()
    } else {
        let before = all_entries(src, vs.drop_last());
        let node = vs.last().node;
        if node.kind == NodeKind::Declaration && declares(src, node, "JNINativeMethod"@) {
            before + table_entries(src, node.children)
        } else {
            before
        }
    }
}

/// The name of a called function: a bare identifier, or the field of a
/// receiver expression.
pub open spec fn callee_name(src: Seq<u8>, call: NodeView) -> Option<Seq<char>> {
    if call.children.len() == 0 {
        None
    } else {
        let callee = call.children[0];
        if callee.kind == NodeKind::Identifier {
            Some(syntax::node_text(src, callee))
        } else if callee.kind == NodeKind::FieldExpression {
            match syntax::child(callee, NodeKind::FieldIdentifier) {
                Some(field) => Some(syntax::node_text(src, field)),
                None => None,
            }
        } else {
            None
        }
    }
}

/// The class, in slash form, that a call to `FindClass` looks up: its first
/// string literal argument.
pub open spec fn class_argument(src: Seq<u8>, call: NodeView) -> Option<Seq<char>> {
    if callee_name(src, call) != Some("FindClass"@) {
        None
    } else {
        match syntax::first_arguments(call.children) {
            Some(args) => match syntax::child(args, NodeKind::StringLiteral) {
                Some(lit) => if syntax::literal(src, lit).len() > 0 {
                    Some(syntax::literal(src, lit))
                } else {
                    None
                },
                None => None,
            },
            None => None,
        }
    }
}

/// The classes that the visited nodes look up, in order.
pub open spec fn looked_up(src: Seq<u8>, vs: Seq<VisitView>) -> Seq<Seq<char>>
    decreases vs.len(),
{
    if vs.len() == 0 {
        Seq::empty()
    } else {
        let before = looked_up(src, vs.drop_last());
        if vs.last().node.kind == NodeKind::CallExpression {
            match class_argument(src, vs.last().node) {
                Some(c) => before.push(c),
                None => before,
            }
        } else {
            before
        }
    }
}

/// The components of the one class that a file looks up; none if it looks up
/// no class or several, or if a component is empty.
pub open spec fn single_class(classes: Seq<Seq<char>>) -> Option<Seq<Seq<char>>> {
    if classes.len() > 0 && forall|i: int|
        0 <= i < classes.len() ==> #[trigger] classes[i] == classes[0] {
        let parts = text::split_text(classes[0], "/"@);
        if forall|i: int| 0 <= i < parts.len() ==> (#[trigger] parts[i]).len() > 0 {
            Some(parts)
        } else {
            None
        }
    } else {
        None
    }
}

/// The export that a table entry stands for.
pub open spec fn entry_export(
    rel: Seq<char>,
    class: Seq<Seq<char>>,
    e: TableEntryView,
) -> JniExportView {
    JniExportView {
        relative_path: rel,
        class,
        java_name: e.java_name,
        c_name: e.c_name,
        name_span: e.name_span,
    }
}

/// The JNI exports of a source: its exported functions, then the entries of
/// its tables if their class is known.
pub open spec fn jni_exports(src: Seq<u8>, rel: Seq<char>, tree: NodeView) -> Seq<JniExportView> {
    let vs = syntax::visits(tree, None);
    exported_fns(src, rel, vs) + match single_class(looked_up(src, vs)) {
        Some(class) => all_entries(src, vs).map_values(
            |e: TableEntryView| entry_export(rel, class, e),
        ),
        None => Seq::empty(),
    }
}

/// The export that an identifier stands for.
fn collect_exported_fn(src: &[u8], rel: &str, v: &Visit) -> (r: Option<JniExport>)
    requires
        syntax::fits(v@.node, src@.len() as int),
        src@.len() < u32::MAX,
    ensures
        r matches Some(e) ==> exported_fn(src@, rel@, v@) == Some(e@),
        r is None ==> exported_fn(src@, rel@, v@) is None,
{
    if v.node.kind != NodeKind::Identifier {
        return None;
    }
    let declares = match v.parent {
        Some(NodeKind::FunctionDeclarator) => true,
        Some(NodeKind::CallExpression) => true,
        Some(NodeKind::Error) => true,
        _ => false,
    };
    if !declares {
        return None;
    }
    let c_name = syntax::slice(src, v.node);
    match name::demangle_jni(c_name.as_str()) {
        Some(n) => {
            let name_span = syntax::make_span(v.node, 0, c_name.as_str().as_bytes().len());
            Some(
                JniExport {
                    relative_path: rel.to_string(),
                    class: n.class,
                    java_name: n.method,
                    c_name,
                    name_span,
                },
            )
        },
        None => None,
    }
}

/// Whether a node is a type identifier that reads `wanted`.
fn is_type_name(src: &[u8], node: &SyntaxNode, wanted: &str) -> (r: bool)
    requires
        syntax::fits(node@, src@.len() as int),
    ensures
        r == names_type(src@, node@, wanted@),
{
    node.kind == NodeKind::TypeIdentifier && text::str_eq(
        syntax::slice(src, node).as_str(),
        wanted,
    )
}

/// Whether one of a node's children is a type identifier that reads
/// `wanted`.
fn holds_type_name(src: &[u8], node: &SyntaxNode, wanted: &str) -> (r: bool)
    requires
        syntax::fits(node@, src@.len() as int),
    ensures
        r == has_type_name(src@, node@.children, wanted@),
{
    let mut i: usize = 0;
    while i < syntax::child_count(node)
        invariant
            0 <= i <= node@.children.len(),
            syntax::fits(node@, src@.len() as int),
            forall|j: int| 0 <= j < i ==> !names_type(src@, #[trigger] node@.children[j], wanted@),
        decreases node@.children.len() - i,
    {
        if is_type_name(src, syntax::nth_child(node, i), wanted) {
            return true;
        }
        i += 1;
    }
    false
}

/// Whether a declaration's type, plain or `struct`-qualified, is `wanted`.
pub fn declares_type(src: &[u8], node: &SyntaxNode, wanted: &str) -> (r: bool)
    requires
        syntax::fits(node@, src@.len() as int),
    ensures
        r == declares(src@, node@, wanted@),
{
    let mut i: usize = 0;
    while i < syntax::child_count(node)
        invariant
            0 <= i <= node@.children.len(),
            syntax::fits(node@, src@.len() as int),
            forall|j: int|
                0 <= j < i ==> !names_type(src@, #[trigger] node@.children[j], wanted@) && !(
                node@.children[j].kind == NodeKind::StructSpecifier && has_type_name(
                    src@,
                    node@.children[j].children,
                    wanted@,
                )),
        decreases node@.children.len() - i,
    {
        let c = syntax::nth_child(node, i);
        if is_type_name(src, c, wanted) || (c.kind == NodeKind::StructSpecifier
            && holds_type_name(src, c, wanted)) {
            assert(c@ == node@.children[i as int]);
            return true;
        }
        i += 1;
    }
    false
}

/// The C function of a table entry.
fn find_target(src: &[u8], row: &SyntaxNode) -> (r: Option<String>)
    requires
        syntax::fits(row@, src@.len() as int),
    ensures
        text::opt_view(r) == first_target(src@, row@.children),
{
    let ghost kids = row@.children;
    let mut i: usize = 0;
    assert(kids.skip(0) =~= kids);
    while i < syntax::child_count(row)
        invariant
            0 <= i <= kids.len(),
            kids == row@.children,
            syntax::fits(row@, src@.len() as int),
            first_target(src@, kids) == first_target(src@, kids.skip(i as int)),
        decreases row@.children.len() - i,
    {
        let c = syntax::nth_child(row, i);
        assert(kids.skip(i as int)[0] == c@);
        assert(kids.skip(i as int).skip(1) =~= kids.skip(i + 1));
        if c.kind == NodeKind::CastExpression || c.kind == NodeKind::Identifier {
            let found = syntax::last_identifier(src, c);
            if found.is_some() {
                return found;
            }
        }
        i += 1;
    }
    None
}

/// The entry that a row of a `JNINativeMethod` table makes.
pub fn parse_table_entry(src: &[u8], row: &SyntaxNode) -> (r: Option<TableEntry>)
    requires
        syntax::fits(row@, src@.len() as int),
        src@.len() < u32::MAX,
    ensures
        r matches Some(e) ==> table_entry(src@, row@) == Some(e@),
        r is None ==> table_entry(src@, row@) is None,
{
    let lit = match syntax::child_of_kind(row, NodeKind::StringLiteral) {
        Some(lit) => lit,
        None => {
            return None;
        },
    };
    let c_name = match find_target(src, row) {
        Some(c_name) => c_name,
        None => {
            return None;
        },
    };
    let (java_name, name_span) = syntax::literal_value(src, lit);
    if text::chars_of(java_name.as_str()).len() == 0 || text::str_eq(java_name.as_str(), "NULL")
        || text::str_eq(c_name.as_str(), "NULL") {
        return None;
    }
    Some(TableEntry { java_name, c_name, name_span })
}

/// Appends the entries of the rows of one table.
fn collect_rows(src: &[u8], list: &SyntaxNode, out: &mut Vec<TableEntry>)
    requires
        syntax::fits(list@, src@.len() as int),
        src@.len() < u32::MAX,
    ensures
        entry_views(final(out)@) == entry_views(old(out)@) + row_entries(src@, list@.children),
{
    let ghost before = entry_views(out@);
    let ghost kids = list@.children;
    let mut i: usize = 0;
    assert(before + row_entries(src@, kids.take(0)) =~= before);
    while i < syntax::child_count(list)
        invariant
            0 <= i <= kids.len(),
            kids == list@.children,
            src@.len() < u32::MAX,
            syntax::fits(list@, src@.len() as int),
            entry_views(out@) =~= before + row_entries(src@, kids.take(i as int)),
        decreases list@.children.len() - i,
    {
        let row = syntax::nth_child(list, i);
        let ghost had = entry_views(out@);
        assert(kids.take(i + 1).drop_last() =~= kids.take(i as int));
        assert(kids.take(i + 1).last() == row@);
        if row.kind == NodeKind::InitializerList {
            if let Some(e) = parse_table_entry(src, row) {
                let ghost ev = e@;
                out.push(e);
                assert(entry_views(out@) =~= had.push(ev));
            }
        }
        i += 1;
    }
    assert(kids.take(i as int) =~= kids);
}

/// Appends the `{ "name", "(sig)V", (void*)fn }` entries of the tables that a
/// declaration initialises.
pub fn collect_native_method_table(src: &[u8], decl: &SyntaxNode, out: &mut Vec<TableEntry>)
    requires
        syntax::fits(decl@, src@.len() as int),
        src@.len() < u32::MAX,
    ensures
        entry_views(final(out)@) == entry_views(old(out)@) + table_entries(src@, decl@.children),
{
    let ghost before = entry_views(out@);
    let ghost kids = decl@.children;
    let mut i: usize = 0;
    assert(before + table_entries(src@, kids.take(0)) =~= before);
    while i < syntax::child_count(decl)
        invariant
            0 <= i <= kids.len(),
            kids == decl@.children,
            src@.len() < u32::MAX,
            syntax::fits(decl@, src@.len() as int),
            entry_views(out@) =~= before + table_entries(src@, kids.take(i as int)),
        decreases decl@.children.len() - i,
    {
        let init = syntax::nth_child(decl, i);
        assert(syntax::fits(init@, src@.len() as int));
        let ghost had = table_entries(src@, kids.take(i as int));
        assert(kids.take(i + 1).drop_last() =~= kids.take(i as int));
        assert(kids.take(i + 1).last() == init@);
        if init.kind == NodeKind::InitDeclarator {
            if let Some(list) = syntax::child_of_kind(init, NodeKind::InitializerList) {
                collect_rows(src, list, out);
                assert(entry_views(out@) =~= before + (had + row_entries(src@, list@.children)));
            }
        }
        i += 1;
    }
    assert(kids.take(i as int) =~= kids);
}

/// The class, in slash form, that a call to `FindClass` looks up. The call
/// may have any receiver: `FindClass(...)`, `env->FindClass(...)`,
/// `(*env)->FindClass(...)`.
pub fn find_class_argument(src: &[u8], call: &SyntaxNode) -> (r: Option<String>)
    requires
        syntax::fits(call@, src@.len() as int),
        src@.len() < u32::MAX,
    ensures
        text::opt_view(r) == class_argument(src@, call@),
{
    if syntax::child_count(call) == 0 {
        return None;
    }
    let callee = syntax::nth_child(call, 0);
    assert(syntax::fits(callee@, src@.len() as int));
    let callee_name = match callee.kind {
        NodeKind::Identifier => syntax::slice(src, callee),
        NodeKind::FieldExpression => match syntax::child_of_kind(
            callee,
            NodeKind::FieldIdentifier,
        ) {
            Some(field) => {
                assert(syntax::fits(field@, src@.len() as int));
                syntax::slice(src, field)
            },
            None => {
                return None;
            },
        },
        _ => {
            return None;
        },
    };
    if !text::str_eq(callee_name.as_str(), "FindClass") {
        return None;
    }
    let args = match syntax::arguments_child(call) {
        Some(args) => args,
        None => {
            return None;
        },
    };
    let lit = match syntax::child_of_kind(args, NodeKind::StringLiteral) {
        Some(lit) => lit,
        None => {
            return None;
        },
    };
    let (value, _) = syntax::literal_value(src, lit);
    if text::chars_of(value.as_str()).len() == 0 {
        None
    } else {
        Some(value)
    }
}

/// The components of the one class that a file looks up.
pub fn resolve_class(classes: &Vec<String>) -> (r: Option<Vec<String>>)
    ensures
        r matches Some(class) ==> single_class(text::strings_view(classes@)) == Some(
            text::strings_view(class@),
        ),
        r is None ==> single_class(text::strings_view(classes@)) is None,
{
    let ghost views = text::strings_view(classes@);
    if classes.len() == 0 {
        return None;
    }
    assert(views[0] == classes@[0]@);
    let mut i: usize = 1;
    while i < classes.len()
        invariant
            1 <= i <= classes@.len(),
            views == text::strings_view(classes@),
            forall|j: int| 0 <= j < i ==> #[trigger] views[j] == views[0],
        decreases classes.len() - i,
    {
        assert(views[i as int] == classes@[i as int]@);
        if !text::str_eq(classes[i].as_str(), classes[0].as_str()) {
            assert(views[0] == classes@[0]@);
            return None;
        }
        assert(views[0] == classes@[0]@);
        i += 1;
    }
    let chars = text::chars_of(classes[0].as_str());
    proof {
        reveal_strlit("/");
    }
    let parts = text::split(&chars, "/");
    let ghost part_views = text::slices_view(parts@);
    let mut class: Vec<String> = Vec::new();
    let mut k: usize = 0;
    assert(text::strings_view(class@) =~= part_views.take(0));
    while k < parts.len()
        invariant
            0 <= k <= parts@.len(),
            views == text::strings_view(classes@),
            single_class(views) == (if forall|j: int|
                0 <= j < part_views.len() ==> (#[trigger] part_views[j]).len() > 0 {
                Some(part_views)
            } else {
                None
            }),
            part_views == text::slices_view(parts@),
            text::strings_view(class@) == part_views.take(k as int),
            forall|j: int| 0 <= j < k ==> (#[trigger] part_views[j]).len() > 0,
        decreases parts.len() - k,
    {
        assert(part_views[k as int] == parts@[k as int]@);
        if parts[k].len() == 0 {
            assert(part_views[k as int].len() == 0);
            return None;
        }
        let part = text::string_of(parts[k]);
        let ghost had = text::strings_view(class@);
        class.push(part);
        k += 1;
        assert(text::strings_view(class@) =~= had.push(part@));
        assert(part_views.take(k as int) =~= part_views.take(k - 1).push(part_views[k - 1]));
    }
    assert(part_views.take(k as int) =~= part_views);
    Some(class)
}

/// Appends the JNI exports of a source file, parsed into `tree`.
pub fn scan_tree(src: &[u8], rel: &str, tree: &SyntaxNode, out: &mut ScanResult)
    requires
        syntax::fits(tree@, src@.len() as int),
        src@.len() < u32::MAX,
    ensures
        final(out)@ == old(out)@ + jni_exports(src@, rel@, tree@),
{
    let nodes = syntax::walk(tree);
    let ghost vs = syntax::visit_views(nodes@);
    let ghost before = out@;
    // Table entries can only be attributed to a class once all of the file's
    // lookups are known.
    let mut classes: Vec<String> = Vec::new();
    let mut entries: Vec<TableEntry> = Vec::new();
    let mut i: usize = 0;
    proof {
        assert(syntax::all_fit(vs, src@.len() as int));
        assert(before + exported_fns(src@, rel@, vs.take(0)) =~= before);
        assert(text::strings_view(classes@) =~= looked_up(src@, vs.take(0)));
        assert(entry_views(entries@) =~= all_entries(src@, vs.take(0)));
    }
    while i < nodes.len()
        invariant
            0 <= i <= vs.len(),
            vs == syntax::visit_views(nodes@),
            src@.len() < u32::MAX,
            syntax::all_fit(vs, src@.len() as int),
            out@ =~= before + exported_fns(src@, rel@, vs.take(i as int)),
            text::strings_view(classes@) == looked_up(src@, vs.take(i as int)),
            entry_views(entries@) == all_entries(src@, vs.take(i as int)),
        decreases nodes.len() - i,
    {
        let v = &nodes[i];
        let ghost had = exported_fns(src@, rel@, vs.take(i as int));
        let ghost had_out = out@;
        let ghost had_classes = text::strings_view(classes@);
        proof {
            assert(vs.take(i + 1).drop_last() =~= vs.take(i as int));
            assert(vs.take(i + 1).last() == vs[i as int]);
            assert(vs[i as int] == v@);
            assert(syntax::fits(vs[i as int].node, src@.len() as int));
        }
        if let Some(e) = collect_exported_fn(src, rel, v) {
            let ghost ev = e@;
            out.exports.push(e);
            assert(out@ =~= had_out.push(ev));
            assert(out@ =~= before + had.push(ev));
        }
        if v.node.kind == NodeKind::Declaration && declares_type(src, v.node, "JNINativeMethod") {
            collect_native_method_table(src, v.node, &mut entries);
        }
        if v.node.kind == NodeKind::CallExpression {
            if let Some(c) = find_class_argument(src, v.node) {
                classes.push(c);
                assert(text::strings_view(classes@) =~= had_classes.push(c@));
            }
        }
        i += 1;
    }
    assert(vs.take(i as int) =~= vs);
    let ghost fns = exported_fns(src@, rel@, vs);
    let ghost all = entry_views(entries@);
    match resolve_class(&classes) {
        Some(class) => {
            let ghost cv = text::strings_view(class@);
            let ghost make = |e: TableEntryView| entry_export(rel@, cv, e);
            let mut k: usize = 0;
            assert(out@ =~= before + fns + all.take(0).map_values(make));
            while k < entries.len()
                invariant
                    0 <= k <= entries@.len(),
                    all == entry_views(entries@),
                    cv == text::strings_view(class@),
                    make == (|e: TableEntryView| entry_export(rel@, cv, e)),
                    out@ =~= before + fns + all.take(k as int).map_values(make),
                decreases entries.len() - k,
            {
                let entry = &entries[k];
                let ghost had_out = out@;
                let e = JniExport {
                    relative_path: rel.to_string(),
                    class: text::copy_strings(&class),
                    java_name: entry.java_name.clone(),
                    c_name: entry.c_name.clone(),
                    name_span: entry.name_span,
                };
                proof {
                    assert(all[k as int] == entry@);
                    assert(e@ =~= make(all[k as int]));
                }
                out.exports.push(e);
                assert(out@ =~= had_out.push(e@));
                k += 1;
                assert(all.take(k as int).map_values(make) =~= all.take(k - 1).map_values(
                    make,
                ).push(make(all[k - 1])));
            }
            assert(all.take(k as int) =~= all);
            assert(out@ =~= before + (fns + all.map_values(make)));
        },
        None => {
            assert(out@ =~= before + (fns + Seq::empty()));
        },
    }
}

/// Whether every export is of the file `rel`.
pub open spec fn are_of(es: Seq<JniExportView>, rel: Seq<char>) -> bool {
    forall|i: int| 0 <= i < es.len() ==> (#[trigger] es[i]).relative_path == rel
}

/// Whether `after` is `before` with more exports behind it, all of them of the
/// file `rel`.
pub open spec fn only_adds(before: Seq<JniExportView>, after: Seq<JniExportView>, rel: Seq<char>) -> bool {
    &&& before.len() <= after.len()
    &&& after.take(before.len() as int) == before
    &&& forall|i: int|
        before.len() <= i < after.len() ==> (#[trigger] after[i]).relative_path == rel
}

/// Exported functions are of the file that is scanned.
proof fn lemma_fns_are_of(src: Seq<u8>, rel: Seq<char>, vs: Seq<VisitView>)
    ensures
        are_of(exported_fns(src, rel, vs), rel),
    decreases vs.len(),
{
    if vs.len() > 0 {
        lemma_fns_are_of(src, rel, vs.drop_last());
    }
}

/// The exports of a source are of the file that is scanned.
proof fn lemma_are_of(src: Seq<u8>, rel: Seq<char>, tree: NodeView)
    ensures
        are_of(jni_exports(src, rel, tree), rel),
{
    let vs = syntax::visits(tree, None);
    let fns = exported_fns(src, rel, vs);
    lemma_fns_are_of(src, rel, vs);
    let all = jni_exports(src, rel, tree);
    assert forall|i: int| 0 <= i < all.len() implies (#[trigger] all[i]).relative_path == rel by {
        if i < fns.len() {
            assert(all[i] == fns[i]);
        }
    }
}

/// A scan leaves the exports that were found before as they are, and adds
/// exports of the scanned file behind them.
pub proof fn law_scan_only_adds(
    src: Seq<u8>,
    rel: Seq<char>,
    tree: NodeView,
    before: Seq<JniExportView>,
)
    ensures
        only_adds(before, before + jni_exports(src, rel, tree), rel),
{
    let added = jni_exports(src, rel, tree);
    lemma_are_of(src, rel, tree);
    let after = before + added;
    assert(after.take(before.len() as int) =~= before);
    assert forall|i: int| before.len() <= i < after.len() implies (#[trigger] after[i]).relative_path
        == rel by {
        assert(after[i] == added[i - before.len()]);
    }
}

/// Whether a text can hold JNI exports: those without its entry points are
/// the vast majority in most trees.
pub open spec fn mentions_jni(text: Seq<char>) -> bool {
    text::first_index(text, "Java_"@) is Some || text::first_index(text, "JNINativeMethod"@) is Some
}

/// Appends the JNI exports of the file at `path`, whose contents are `text`.
/// They are recorded under the path `rel`. Nothing is appended if the text
/// mentions no JNI entry point or has no syntax tree.
pub fn scan_file(text: &str, path: &str, rel: &str, out: &mut ScanResult) -> (r: Result<
    (),
    SyntaxError,
>)
    ensures
        ({
            let cpp = paths::cpp_source(path@);
            &&& r is Err <==> mentions_jni(text@) && syntax::is_refused(text@, cpp)
            &&& (!mentions_jni(text@) || !syntax::has_syntax(text@, cpp)) ==> final(out)@ == old(
                out,
            )@
            &&& mentions_jni(text@) && syntax::has_syntax(text@, cpp) ==> final(out)@ == old(out)@
                + jni_exports(encode_utf8(text@), rel@, syntax::syntax_of(text@, cpp))
        }),
        only_adds(old(out)@, final(out)@, rel@),
{
    proof {
        assert(out@.take(out@.len() as int) =~= out@);
    }
    let chars = text::chars_of(text);
    if !text::contains(&chars, "Java_") && !text::contains(&chars, "JNINativeMethod") {
        return Ok(());
    }
    match syntax::parse_source(text, paths::is_cpp_source(path)) {
        Err(e) => Err(e),
        Ok(None) => Ok(()),
        Ok(Some(tree)) => {
            proof {
                law_scan_only_adds(encode_utf8(text@), rel@, tree@, out@);
            }
            scan_tree(text.as_bytes(), rel, &tree, out);
            Ok(())
        },
    }
}

} // verus!
