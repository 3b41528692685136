//! What Python companions have in common: package metadata and symbols.

use crate::symbol;
use crate::symbol::{Descriptor, Suffix};
use crate::text;
use vstd::prelude::*;

verus! {

/// The name in the `[project]` table of a `pyproject.toml`, of which `lines`
/// are left; `in_project` says whether they start inside that table.
pub open spec fn project_name(lines: Seq<Seq<char>>, in_project: bool) -> Option<Seq<char>>
    decreases lines.len(),
{
    if lines.len() == 0 {
        None
    } else {
        let line = text::trimmed(lines[0]);
        let rest = lines.skip(1);
        if text::has_prefix(line, "["@) {
            project_name(rest, line == "[project]"@)
        } else if !in_project {
            project_name(rest, false)
        } else {
            match text::after_prefix(line, "name"@) {
                Some(after) => match text::after_prefix(text::trimmed_start(after), "="@) {
                    Some(value) => {
                        let name = text::trimmed_of(text::trimmed(value), "\"'"@);
                        if name.len() > 0 {
                            Some(name)
                        } else {
                            project_name(rest, true)
                        }
                    },
                    // Another key, such as `namespaces`.
                    None => project_name(rest, true),
                },
                None => project_name(rest, true),
            }
        }
    }
}

/// The name that a `pyproject.toml` gives its project.
pub fn extract_pyproject_name(doc: &str) -> (r: Option<String>)
    ensures
        text::opt_view(r) == project_name(text::lines_of(doc@), false),
{
    let chars = text::chars_of(doc);
    let lines = text::lines(&chars);
    let ghost all = text::slices_view(lines@);
    let mut in_project = false;
    let mut i: usize = 0;
    assert(all.skip(0) =~= all);
    while i < lines.len()
        invariant
            0 <= i <= lines@.len(),
            all == text::slices_view(lines@),
            all == text::lines_of(doc@),
            project_name(all, false) == project_name(all.skip(i as int), in_project),
        decreases lines.len() - i,
    {
        assert(all.skip(i as int)[0] == lines@[i as int]@);
        assert(all.skip(i as int).skip(1) =~= all.skip(i + 1));
        let line = text::trim(lines[i]);
        if text::starts_with(line, "[") {
            in_project = text::is_text(line, "[project]");
        } else if in_project {
            if let Some(after) = text::strip_prefix(line, "name") {
                if let Some(value) = text::strip_prefix(text::trim_start(after), "=") {
                    let name = text::trim_of(text::trim(value), "\"'");
                    if name.len() > 0 {
                        return Some(text::string_of(name));
                    }
                }
            }
        }
        i += 1;
    }
    None
}

/// The package that Python symbols belong to.
pub open spec fn package_view(package: Seq<char>, version: Seq<char>) -> symbol::PackageView {
    symbol::PackageView { scheme: "scip-python"@, manager: "python"@, name: package, version }
}

/// The namespaces of a dotted module name.
pub open spec fn module_names(dotted: Seq<char>) -> Seq<symbol::DescriptorView> {
    symbol::named(text::nonempty(text::split_text(dotted, "."@)), Suffix::Namespace)
}

/// The symbol of a module.
pub open spec fn module_symbol(
    package: Seq<char>,
    version: Seq<char>,
    dotted: Seq<char>,
) -> Seq<char> {
    symbol::formatted(
        package_view(package, version),
        module_names(dotted).push(
            symbol::DescriptorView { name: "__init__"@, suffix: Suffix::Meta },
        ),
    )
}

/// The symbol of a function or class of a module: `suffix` says which.
pub open spec fn member_symbol(
    package: Seq<char>,
    version: Seq<char>,
    dotted: Seq<char>,
    name: Seq<char>,
    suffix: Suffix,
) -> Seq<char> {
    symbol::formatted(
        package_view(package, version),
        module_names(dotted).push(symbol::DescriptorView { name, suffix }),
    )
}

/// The symbol of a method of a class of a module.
pub open spec fn class_method_symbol(
    package: Seq<char>,
    version: Seq<char>,
    dotted: Seq<char>,
    class: Seq<char>,
    name: Seq<char>,
) -> Seq<char> {
    symbol::formatted(
        package_view(package, version),
        module_names(dotted).push(
            symbol::DescriptorView { name: class, suffix: Suffix::Type },
        ).push(symbol::DescriptorView { name, suffix: Suffix::Method }),
    )
}

/// The namespaces of a dotted module name.
pub fn module_descriptors(dotted: &str) -> (r: Vec<Descriptor>)
    ensures
        symbol::descriptor_views(r@) == module_names(dotted@),
{
    proof {
        reveal_strlit(".");
    }
    let parts = text::split_nonempty(dotted, ".");
    let ghost views = text::strings_view(parts@);
    let mut ds: Vec<Descriptor> = Vec::new();
    symbol::push_names(&mut ds, &parts, parts.len(), Suffix::Namespace);
    assert(views.take(views.len() as int) =~= views);
    assert(symbol::descriptor_views(ds@) =~= module_names(dotted@));
    ds
}

/// The symbol of a module.
pub fn py_module_symbol(package: &str, version: &str, dotted_module: &str) -> (r: String)
    ensures
        r@ == module_symbol(package@, version@, dotted_module@),
{
    let mut ds = module_descriptors(dotted_module);
    symbol::push_name(&mut ds, "__init__", Suffix::Meta);
    symbol::format_symbol("scip-python", "python", package, version, ds)
}

/// The symbol of a function of a module.
pub fn py_function_symbol(package: &str, version: &str, dotted_module: &str, fn_name: &str) -> (r:
    String)
    ensures
        r@ == member_symbol(package@, version@, dotted_module@, fn_name@, Suffix::Method),
{
    let mut ds = module_descriptors(dotted_module);
    symbol::push_name(&mut ds, fn_name, Suffix::Method);
    symbol::format_symbol("scip-python", "python", package, version, ds)
}

/// The symbol of a class of a module.
pub fn py_class_symbol(package: &str, version: &str, dotted_module: &str, class_name: &str) -> (r:
    String)
    ensures
        r@ == member_symbol(package@, version@, dotted_module@, class_name@, Suffix::Type),
{
    let mut ds = module_descriptors(dotted_module);
    symbol::push_name(&mut ds, class_name, Suffix::Type);
    symbol::format_symbol("scip-python", "python", package, version, ds)
}

/// The symbol of a method of a class of a module.
pub fn py_method_symbol(
    package: &str,
    version: &str,
    dotted_module: &str,
    class_name: &str,
    method_name: &str,
) -> (r: String)
    ensures
        r@ == class_method_symbol(
            package@,
            version@,
            dotted_module@,
            class_name@,
            method_name@,
        ),
{
    let mut ds = module_descriptors(dotted_module);
    symbol::push_name(&mut ds, class_name, Suffix::Type);
    symbol::push_name(&mut ds, method_name, Suffix::Method);
    symbol::format_symbol("scip-python", "python", package, version, ds)
}

/// A module's full name: the package's, a dot and its own.
pub fn qualify(package: &str, module: &str) -> (r: String)
    ensures
        r@ == package@ + "."@ + module@,
{
    let head = text::concat(package, ".");
    text::concat(head.as_str(), module)
}

} // verus!
