//! What the names of files and directories say about them.

use crate::text;
use vstd::prelude::*;

verus! {

/// The last component of a path, once slashes and `.` components at its end
/// are dropped. A path that ends in `..`, or has no component, has none.
pub open spec fn file_name_of(path: Seq<char>) -> Option<Seq<char>>
    decreases path.len(),
{
    let last = text::after_last_of(path, "/"@);
    if path.len() == 0 || last == ".."@ {
        None
    } else if last.len() == 0 || last == "."@ {
        file_name_of(path.drop_last())
    } else {
        Some(last)
    }
}

/// What follows the last dot of a file name, unless that dot comes first.
pub open spec fn extension_of(path: Seq<char>) -> Option<Seq<char>> {
    match file_name_of(path) {
        Some(name) => match text::last_index(name, "."@) {
            Some(i) => if i > 0 {
                Some(name.skip(i + 1))
            } else {
                None
            },
            None => None,
        },
        None => None,
    }
}

/// The last component of a path.
pub fn file_name<'a>(path: &'a [char]) -> (r: Option<&'a [char]>)
    ensures
        text::opt_slice_view(r) == file_name_of(path@),
{
    let mut n: usize = path.len();
    assert(path@.take(n as int) =~= path@);
    while n > 0
        invariant
            0 <= n <= path@.len(),
            file_name_of(path@) == file_name_of(path@.take(n as int)),
        decreases n,
    {
        let head = &path[0..n];
        assert(head@ =~= path@.take(n as int));
        let last = text::tail_after_any(head, "/");
        if text::is_text(last, "..") {
            return None;
        }
        if last.len() > 0 && !text::is_text(last, ".") {
            return Some(last);
        }
        assert(path@.take(n as int).drop_last() =~= path@.take(n - 1));
        n -= 1;
    }
    None
}

/// The position of the last dot in `s`.
fn last_dot(s: &[char]) -> (r: Option<usize>)
    ensures
        r matches Some(i) ==> text::last_index(s@, "."@) == Some(i as int) && i < s@.len(),
        r is None ==> text::last_index(s@, "."@) is None,
{
    proof {
        reveal_strlit(".");
        assert("."@ =~= seq!['.']);
    }
    let mut n: usize = s.len();
    assert(s@.take(n as int) =~= s@);
    while n > 0
        invariant
            0 <= n <= s@.len(),
            "."@ == seq!['.'],
            text::last_index(s@, "."@) == text::last_index(s@.take(n as int), "."@),
        decreases n,
    {
        let ghost head = s@.take(n as int);
        if s[n - 1] == '.' {
            assert(head.skip(head.len() - 1) =~= seq!['.']);
            return Some(n - 1);
        }
        assert(head.skip(head.len() - 1)[0] == s@[n - 1]);
        assert(head.drop_last() =~= s@.take(n - 1));
        n -= 1;
    }
    None
}

/// What follows the last dot of a file name, unless that dot comes first.
pub fn extension(path: &str) -> (r: Option<String>)
    ensures
        text::opt_view(r) == extension_of(path@),
{
    let path = text::chars_of(path);
    match file_name(&path) {
        Some(name) => match last_dot(name) {
            Some(i) => if i > 0 {
                let n: usize = name.len();
                let tail = &name[i + 1..n];
                assert(tail@ =~= name@.skip(i + 1));
                Some(text::string_of(tail))
            } else {
                None
            },
            None => None,
        },
        None => None,
    }
}

/// Whether a path's extension is `ext`.
pub fn has_extension(path: &str, ext: &str) -> (r: bool)
    ensures
        r == (extension_of(path@) == Some(ext@)),
{
    match extension(path) {
        Some(e) => text::str_eq(e.as_str(), ext),
        None => false,
    }
}

/// Whether a file is C++ by its extension.
pub open spec fn cpp_source(path: Seq<char>) -> bool {
    let ext = extension_of(path);
    ||| ext == Some("cc"@)
    ||| ext == Some("cpp"@)
    ||| ext == Some("cxx"@)
    ||| ext == Some("hpp"@)
    ||| ext == Some("hh"@)
}

/// Whether a file is C++ by its extension.
pub fn is_cpp_source(path: &str) -> (r: bool)
    ensures
        r == cpp_source(path@),
{
    has_extension(path, "cc") || has_extension(path, "cpp") || has_extension(path, "cxx")
        || has_extension(path, "hpp") || has_extension(path, "hh")
}

/// Whether a file is a C or C++ implementation file by its extension.
pub open spec fn native_source(path: Seq<char>) -> bool {
    let ext = extension_of(path);
    ||| ext == Some("c"@)
    ||| ext == Some("cc"@)
    ||| ext == Some("cpp"@)
    ||| ext == Some("cxx"@)
}

/// Whether a file is a C or C++ implementation file by its extension.
pub fn is_native_source(path: &str) -> (r: bool)
    ensures
        r == native_source(path@),
{
    has_extension(path, "c") || has_extension(path, "cc") || has_extension(path, "cpp")
        || has_extension(path, "cxx")
}

/// Whether a file or directory is hidden by its name.
pub open spec fn hidden(name: Seq<char>) -> bool {
    text::has_prefix(name, "."@)
}

/// Whether a file or directory is hidden by its name.
pub fn is_hidden(name: &str) -> (r: bool)
    ensures
        r == hidden(name@),
{
    let name = text::chars_of(name);
    text::starts_with(&name, ".")
}

/// Whether a file or directory is hidden or holds build outputs.
pub open spec fn hidden_or_build(name: Seq<char>) -> bool {
    name == "build"@ || name == "target"@ || hidden(name)
}

/// Whether a file or directory is hidden or holds build outputs.
pub fn is_hidden_or_build(name: &str) -> (r: bool)
    ensures
        r == hidden_or_build(name@),
{
    text::str_eq(name, "build") || text::str_eq(name, "target") || is_hidden(name)
}

/// Whether a file or directory is hidden or holds a Rust build's outputs.
pub fn is_hidden_or_target(name: &str) -> (r: bool)
    ensures
        r == (name@ == "target"@ || hidden(name@)),
{
    text::str_eq(name, "target") || is_hidden(name)
}

/// Whether a file is one that GNU make takes for a makefile by its name, or a
/// `*.mk` fragment.
pub open spec fn makefile(path: Seq<char>) -> bool {
    let name = file_name_of(path);
    ||| name == Some("Makefile"@)
    ||| name == Some("makefile"@)
    ||| name == Some("GNUmakefile"@)
    ||| extension_of(path) == Some("mk"@)
}

/// Whether a file is one that GNU make takes for a makefile by its name, or a
/// `*.mk` fragment. Not `debian/rules`, which callers add themselves.
pub fn is_makefile(path: &str) -> (r: bool)
    ensures
        r == makefile(path@),
{
    let chars = text::chars_of(path);
    if let Some(name) = file_name(&chars) {
        if text::is_text(name, "Makefile") || text::is_text(name, "makefile") || text::is_text(
            name,
            "GNUmakefile",
        ) {
            return true;
        }
    }
    has_extension(path, "mk")
}

/// Whether a directory is left out of the search for makefiles: version
/// control data, build outputs and installed packages.
pub open spec fn without_makefiles(name: Seq<char>) -> bool {
    ||| name == ".git"@
    ||| name == ".hg"@
    ||| name == ".svn"@
    ||| name == "target"@
    ||| name == "build"@
    ||| name == "node_modules"@
}

/// Whether a directory is left out of the search for makefiles.
pub fn skips_makefiles(name: &str) -> (r: bool)
    ensures
        r == without_makefiles(name@),
{
    text::str_eq(name, ".git") || text::str_eq(name, ".hg") || text::str_eq(name, ".svn")
        || text::str_eq(name, "target") || text::str_eq(name, "build") || text::str_eq(
        name,
        "node_modules",
    )
}

/// Whether a file is a gettext catalogue or template by its extension.
pub open spec fn po_file(path: Seq<char>) -> bool {
    extension_of(path) == Some("po"@) || extension_of(path) == Some("pot"@)
}

/// Whether a file is a gettext catalogue or template by its extension.
pub fn is_po_file(path: &str) -> (r: bool)
    ensures
        r == po_file(path@),
{
    has_extension(path, "po") || has_extension(path, "pot")
}

/// What an entry of a directory is. Links count as neither.
#[derive(Debug, Clone, Copy, PartialEq, Eq, Structural)]
pub enum EntryKind {
    Directory,
    File,
    Other,
}

/// What a search of a directory tree does with an entry.
#[derive(Debug, Clone, Copy, PartialEq, Eq, Structural)]
pub enum Step {
    /// Goes on in the directory.
    Enter,
    /// Keeps the file.
    Take,
    /// Leaves the entry alone.
    Skip,
}

/// What a search does: it enters the directories and takes the files that are
/// wanted.
pub open spec fn search_step(kind: EntryKind, enters: bool, takes: bool) -> Step {
    match kind {
        EntryKind::Directory => if enters {
            Step::Enter
        } else {
            Step::Skip
        },
        EntryKind::File => if takes {
            Step::Take
        } else {
            Step::Skip
        },
        EntryKind::Other => Step::Skip,
    }
}

/// What the search for makefiles does with an entry.
pub fn makefile_step(name: &str, kind: EntryKind) -> (r: Step)
    ensures
        r == search_step(kind, !without_makefiles(name@), makefile(name@)),
{
    match kind {
        EntryKind::Directory => if skips_makefiles(name) {
            Step::Skip
        } else {
            Step::Enter
        },
        EntryKind::File => if is_makefile(name) {
            Step::Take
        } else {
            Step::Skip
        },
        EntryKind::Other => Step::Skip,
    }
}

/// What the search for gettext files does with an entry. It leaves out git's
/// data alone.
pub fn po_step(name: &str, kind: EntryKind) -> (r: Step)
    ensures
        r == search_step(kind, name@ != ".git"@, po_file(name@)),
{
    match kind {
        EntryKind::Directory => if text::str_eq(name, ".git") {
            Step::Skip
        } else {
            Step::Enter
        },
        EntryKind::File => if is_po_file(name) {
            Step::Take
        } else {
            Step::Skip
        },
        EntryKind::Other => Step::Skip,
    }
}

} // verus!
