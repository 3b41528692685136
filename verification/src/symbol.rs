//! SCIP symbol strings.
//!
//! A symbol reads `<scheme> <manager> <package> <version> <descriptors>`. It
//! is written by the `scip` crate; what the augments need of one that they
//! read is taken apart here.

use crate::text;
use scip::types as message;
use scip::types::descriptor;
use vstd::prelude::*;

verus! {

/// What a descriptor stands for.
#[derive(Debug, Clone, Copy, PartialEq, Eq, Structural)]
pub enum Suffix {
    Namespace,
    Type,
    Method,
    Meta,
}

/// One part of the path that a symbol names.
#[derive(Debug)]
pub struct Descriptor {
    pub name: String,
    pub suffix: Suffix,
}

/// What a [`Descriptor`] holds.
#[verifier::ext_equal]
pub struct DescriptorView {
    pub name: Seq<char>,
    pub suffix: Suffix,
}

impl View for Descriptor {
    type V = DescriptorView;

    open spec fn view(&self) -> DescriptorView {
        DescriptorView { name: self.name@, suffix: self.suffix }
    }
}

/// What each descriptor of a list holds.
pub open spec fn descriptor_views(v: Seq<Descriptor>) -> Seq<DescriptorView> {
    v.map_values(|d: Descriptor| d@)
}

/// Descriptors of one kind with the given names.
pub open spec fn named(names: Seq<Seq<char>>, suffix: Suffix) -> Seq<DescriptorView> {
    names.map_values(|name: Seq<char>| DescriptorView { name, suffix })
}

/// Appends a descriptor.
pub fn push_name(ds: &mut Vec<Descriptor>, name: &str, suffix: Suffix)
    ensures
        descriptor_views(final(ds)@) == descriptor_views(old(ds)@).push(
            DescriptorView { name: name@, suffix },
        ),
{
    let ghost before = descriptor_views(ds@);
    let d = Descriptor { name: name.to_string(), suffix };
    let ghost dv = d@;
    ds.push(d);
    assert(descriptor_views(ds@) =~= before.push(dv));
}

/// Appends descriptors of one kind with the first `n` of the names.
pub fn push_names(ds: &mut Vec<Descriptor>, names: &Vec<String>, n: usize, suffix: Suffix)
    requires
        n <= names@.len(),
    ensures
        descriptor_views(final(ds)@) == descriptor_views(old(ds)@) + named(
            text::strings_view(names@).take(n as int),
            suffix,
        ),
{
    let ghost before = descriptor_views(ds@);
    let ghost views = text::strings_view(names@);
    let mut i: usize = 0;
    assert(before + named(views.take(0), suffix) =~= before);
    while i < n
        invariant
            0 <= i <= n <= names@.len(),
            views == text::strings_view(names@),
            descriptor_views(ds@) =~= before + named(views.take(i as int), suffix),
        decreases n - i,
    {
        assert(views[i as int] == names@[i as int]@);
        push_name(ds, names[i].as_str(), suffix);
        i += 1;
        assert(named(views.take(i as int), suffix) =~= named(views.take(i - 1), suffix).push(
            DescriptorView { name: views[i - 1], suffix },
        ));
    }
}

/// Whether a character needs no quotes in a descriptor's name.
pub open spec fn is_simple(c: char) -> bool {
    ||| c == '_'
    ||| c == '+'
    ||| c == '-'
    ||| c == '$'
    ||| '0' <= c <= '9'
    ||| 'a' <= c <= 'z'
    ||| 'A' <= c <= 'Z'
}

/// Whether a character needs no quotes in a descriptor's name.
fn simple_char(c: char) -> (r: bool)
    ensures
        r == is_simple(c),
{
    c == '_' || c == '+' || c == '-' || c == '$' || ('0' <= c && c <= '9') || ('a' <= c && c
        <= 'z') || ('A' <= c && c <= 'Z')
}

/// A name as it stands in a descriptor: in backticks, with those inside it
/// doubled, unless all its characters are simple.
pub open spec fn escaped(name: Seq<char>) -> Seq<char> {
    if forall|i: int| 0 <= i < name.len() ==> is_simple(#[trigger] name[i]) {
        name
    } else {
        "`"@ + text::replaced(name, "`"@, "``"@) + "`"@
    }
}

/// A descriptor as it stands in a symbol.
pub open spec fn rendered(d: DescriptorView) -> Seq<char> {
    match d.suffix {
        Suffix::Namespace => escaped(d.name) + "/"@,
        Suffix::Type => escaped(d.name) + "#"@,
        Suffix::Method => escaped(d.name) + "()."@,
        Suffix::Meta => escaped(d.name) + ":"@,
    }
}

/// A part of the package as it stands in a symbol: a dot if it is empty.
pub open spec fn or_dot(s: Seq<char>) -> Seq<char> {
    if s.len() == 0 {
        "."@
    } else {
        s
    }
}

/// The package that a symbol belongs to.
#[verifier::ext_equal]
pub struct PackageView {
    pub scheme: Seq<char>,
    pub manager: Seq<char>,
    pub name: Seq<char>,
    pub version: Seq<char>,
}

/// A symbol's string.
pub open spec fn formatted(package: PackageView, descriptors: Seq<DescriptorView>) -> Seq<char> {
    let head = package.scheme + " "@ + or_dot(package.manager) + " "@ + or_dot(package.name) + " "@
        + or_dot(package.version);
    if descriptors.len() == 0 {
        head
    } else {
        head + " "@ + text::concatenated(
            descriptors.map_values(|d: DescriptorView| rendered(d)),
        )
    }
}

/// `scip::symbol::format_symbol` joins scheme, package manager, package name,
/// version and descriptors by spaces. An empty part of the package becomes a
/// dot; a descriptor is its name, escaped, and what its kind puts after it.
#[verifier::external_body]
pub(crate) fn format_symbol(
    scheme: &str,
    manager: &str,
    package: &str,
    version: &str,
    descriptors: Vec<Descriptor>,
) -> (r: String)
    ensures
        r@ == formatted(
            PackageView { scheme: scheme@, manager: manager@, name: package@, version: version@ },
            descriptor_views(descriptors@),
        ),
{
    let mut symbol = message::Symbol::new();
    let mut from = message::Package::new();
    (from.manager, from.name) = (manager.to_string(), package.to_string());
    from.version = version.to_string();
    (symbol.scheme, symbol.package) = (scheme.to_string(), Some(from).into());
    symbol.descriptors = descriptors.into_iter().map(|d| message::Descriptor {
        name: d.name, suffix: match d.suffix {
            Suffix::Namespace => descriptor::Suffix::Namespace,
            Suffix::Type => descriptor::Suffix::Type,
            Suffix::Method => descriptor::Suffix::Method,
            Suffix::Meta => descriptor::Suffix::Meta,
        }.into(), ..Default::default()
    }).collect();
    scip::symbol::format_symbol(symbol)
}

/// Whether a symbol is local to a document.
pub open spec fn is_local(symbol: Seq<char>) -> bool {
    text::has_prefix(symbol, "local "@)
}

/// Whether a symbol is local to a document.
pub fn local_symbol(symbol: &str) -> (r: bool)
    ensures
        r == is_local(symbol@),
{
    let chars = text::chars_of(symbol);
    text::starts_with(&chars, "local ")
}

/// The parts of `s` between its first spaces, in at most `n` parts: the last
/// one may hold more spaces.
pub open spec fn split_fields(s: Seq<char>, n: nat) -> Seq<Seq<char>>
    decreases n,
{
    if n <= 1 {
        seq![s]
    } else {
        match text::first_index(s, " "@) {
            Some(i) => seq![s.take(i)] + split_fields(s.skip(i + 1), (n - 1) as nat),
            None => seq![s],
        }
    }
}

/// The parts of a symbol: scheme, manager, package, version and descriptors.
pub open spec fn fields(symbol: Seq<char>) -> Seq<Seq<char>> {
    split_fields(symbol, 5)
}

/// The parts of a symbol.
fn fields_of<'a>(symbol: &'a [char]) -> (r: Vec<&'a [char]>)
    ensures
        text::slices_view(r@) == fields(symbol@),
{
    let mut r: Vec<&'a [char]> = Vec::new();
    let mut rest: &'a [char] = symbol;
    let mut n: usize = 5;
    proof {
        reveal_strlit(" ");
    }
    assert(text::slices_view(r@) + split_fields(rest@, 5) =~= fields(symbol@));
    while n > 1
        invariant
            1 <= n <= 5,
            " "@.len() == 1,
            text::slices_view(r@) + split_fields(rest@, n as nat) =~= fields(symbol@),
        ensures
            text::slices_view(r@).push(rest@) =~= fields(symbol@),
        decreases n,
    {
        match text::find(rest, " ") {
            Some(i) => {
                let len: usize = rest.len();
                let head = &rest[0..i];
                let tail = &rest[i + 1..len];
                assert(head@ =~= rest@.take(i as int));
                assert(tail@ =~= rest@.skip(i + 1));
                let ghost before = text::slices_view(r@);
                r.push(head);
                assert(text::slices_view(r@) =~= before.push(head@));
                rest = tail;
            },
            None => {
                break;
            },
        }
        n -= 1;
    }
    let ghost before = text::slices_view(r@);
    r.push(rest);
    assert(text::slices_view(r@) =~= before.push(rest@));
    r
}

/// The version of a symbol's package; none for a local symbol or one without
/// enough parts.
pub open spec fn version_of(symbol: Seq<char>) -> Option<Seq<char>> {
    if is_local(symbol) || fields(symbol).len() < 4 {
        None
    } else {
        Some(fields(symbol)[3])
    }
}

/// The version of a symbol's package.
pub fn symbol_version(symbol: &str) -> (r: Option<String>)
    ensures
        text::opt_view(r) == version_of(symbol@),
{
    if local_symbol(symbol) {
        return None;
    }
    let chars = text::chars_of(symbol);
    let parts = fields_of(&chars);
    if parts.len() < 4 {
        return None;
    }
    assert(text::slices_view(parts@)[3] == parts@[3]@);
    Some(text::string_of(parts[3]))
}

/// The descriptors of a symbol.
pub open spec fn descriptors_of(symbol: Seq<char>) -> Option<Seq<char>> {
    if fields(symbol).len() < 5 {
        None
    } else {
        Some(fields(symbol)[4])
    }
}

/// The descriptors of a symbol.
fn descriptors(symbol: &str) -> (r: Option<Vec<char>>)
    ensures
        r matches Some(d) ==> descriptors_of(symbol@) == Some(d@),
        r is None ==> descriptors_of(symbol@) is None,
{
    let chars = text::chars_of(symbol);
    let parts = fields_of(&chars);
    if parts.len() < 5 {
        return None;
    }
    assert(text::slices_view(parts@)[4] == parts@[4]@);
    let mut r: Vec<char> = Vec::new();
    r.extend_from_slice(parts[4]);
    assert(r@ =~= parts@[4]@);
    Some(r)
}

/// The descriptors of a symbol, without the `$ ` that stands for the global
/// namespace.
pub open spec fn global_descriptors(symbol: Seq<char>) -> Option<Seq<char>> {
    match descriptors_of(symbol) {
        Some(d) => match text::after_prefix(d, "$ "@) {
            Some(rest) => Some(rest),
            None => Some(d),
        },
        None => None,
    }
}

/// The descriptors of a symbol, without the `$ ` that stands for the global
/// namespace.
pub fn descriptor_text(symbol: &str) -> (r: Option<String>)
    ensures
        text::opt_view(r) == global_descriptors(symbol@),
{
    match descriptors(symbol) {
        Some(d) => match text::strip_prefix(&d, "$ ") {
            Some(rest) => Some(text::string_of(rest)),
            None => Some(text::string_of(&d)),
        },
        None => None,
    }
}

/// The descriptors of a symbol of C's global namespace, as scip-clang writes
/// it, are what follows the package.
pub proof fn lemma_clang_descriptors(d: Seq<char>)
    ensures
        descriptors_of("cxx . . $ "@ + d) == Some(d),
        is_clang_global("cxx . . $ "@ + d),
{
    let s = "cxx . . $ "@ + d;
    reveal_strlit("cxx . . $ ");
    reveal_strlit(" ");
    reveal_strlit("cxx");
    reveal_strlit(".");
    reveal_strlit("$");
    let rest1 = s.skip(4);
    let rest2 = rest1.skip(2);
    let rest3 = rest2.skip(2);
    text::lemma_first_char(s, " "@, 3);
    text::lemma_first_char(rest1, " "@, 1);
    text::lemma_first_char(rest2, " "@, 1);
    text::lemma_first_char(rest3, " "@, 1);
    assert(rest3.skip(2) =~= d);
    reveal_with_fuel(split_fields, 5);
    assert(fields(s).len() == 5);
    assert(fields(s)[0] =~= "cxx"@);
    assert(fields(s)[1] =~= "."@);
    assert(fields(s)[2] =~= "."@);
    assert(fields(s)[3] =~= "$"@);
    assert(fields(s)[4] == d);
}

/// The characters that `s` starts with and that need no quotes in a name.
pub open spec fn leading_name(s: Seq<char>) -> Seq<char>
    decreases s.len(),
{
    if s.len() == 0 || !is_simple(s[0]) {
        Seq::empty()
    } else {
        seq![s[0]] + leading_name(s.skip(1))
    }
}

/// Whether `s` is what scip-clang writes behind the name of a function, a
/// parenthesised hash and at most a dot, or behind that of a global, a dot.
pub open spec fn is_c_trailer(s: Seq<char>) -> bool {
    ||| s == "."@
    ||| {
        &&& s.len() > 0
        &&& s[0] == '('
        &&& s.skip(1).contains(')')
        &&& (after_char(s.skip(1), ')').len() == 0 || after_char(s.skip(1), ')') == "."@)
    }
}

/// Whether a symbol is one of C's global namespace, as scip-clang writes it:
/// `.` stands for the package manager and the package, `$` for the version.
pub open spec fn is_clang_global(symbol: Seq<char>) -> bool {
    &&& fields(symbol).len() == 5
    &&& fields(symbol)[0] == "cxx"@
    &&& fields(symbol)[1] == "."@
    &&& fields(symbol)[2] == "."@
    &&& fields(symbol)[3] == "$"@
}

/// The C identifier of a `cxx . . $ <ident>(...).` or `cxx . . $ <ident>.`
/// symbol. Anything else has none.
pub open spec fn c_name_of(symbol: Seq<char>) -> Option<Seq<char>> {
    let d = fields(symbol)[4];
    let name = leading_name(d);
    if is_clang_global(symbol) && name.len() > 0 && is_c_trailer(d.skip(name.len() as int)) {
        Some(name)
    } else {
        None
    }
}

/// Whether `s` is what scip-clang writes behind the name of a function or a
/// global.
fn ends_c_symbol(s: &[char]) -> (r: bool)
    ensures
        r == is_c_trailer(s@),
{
    if text::is_text(s, ".") {
        return true;
    }
    let n: usize = s.len();
    if n == 0 || s[0] != '(' {
        return false;
    }
    let end = position_of(s, 1, ')');
    let ghost inner = s@.skip(1);
    proof {
        lemma_before_char(inner, ')');
        if end < n {
            assert(inner[end - 1] == ')');
        } else {
            lemma_before_char_absent(inner, ')');
        }
    }
    if end >= n {
        return false;
    }
    let rest = &s[end + 1..n];
    assert(rest@ =~= s@.skip(end + 1));
    rest.len() == 0 || text::is_text(rest, ".")
}

/// The C identifier of a `cxx . . $ <ident>(...).` or `cxx . . $ <ident>.`
/// symbol. Anything else yields none.
pub fn c_symbol_name(symbol: &str) -> (r: Option<String>)
    ensures
        text::opt_view(r) == c_name_of(symbol@),
{
    let chars = text::chars_of(symbol);
    let parts = fields_of(&chars);
    let ghost views = text::slices_view(parts@);
    if parts.len() != 5 {
        return None;
    }
    proof {
        assert(views[0] == parts@[0]@);
        assert(views[1] == parts@[1]@);
        assert(views[2] == parts@[2]@);
        assert(views[3] == parts@[3]@);
        assert(views[4] == parts@[4]@);
    }
    if !text::is_text(parts[0], "cxx") || !text::is_text(parts[1], ".") || !text::is_text(
        parts[2],
        ".",
    ) || !text::is_text(parts[3], "$") {
        return None;
    }
    let d = parts[4];
    let len: usize = d.len();
    let mut n: usize = 0;
    assert(d@.take(0) + leading_name(d@.skip(0)) =~= leading_name(d@)) by {
        assert(d@.skip(0) =~= d@);
    }
    while n < len && simple_char(d[n])
        invariant
            0 <= n <= len,
            len == d@.len(),
            d@.take(n as int) + leading_name(d@.skip(n as int)) =~= leading_name(d@),
        decreases len - n,
    {
        assert(d@.skip(n as int).skip(1) =~= d@.skip(n + 1));
        assert(d@.take(n + 1) =~= d@.take(n as int).push(d@[n as int]));
        n += 1;
    }
    let name = &d[0..n];
    let rest = &d[n..len];
    assert(name@ =~= d@.take(n as int));
    assert(name@ =~= leading_name(d@));
    assert(rest@ =~= d@.skip(n as int));
    if n > 0 && ends_c_symbol(rest) {
        Some(text::string_of(name))
    } else {
        None
    }
}

/// What follows the parenthesis that closes the innermost of `depth` open
/// ones, and all the others; nothing if one is never closed.
pub open spec fn after_parens(s: Seq<char>, depth: nat) -> Seq<char>
    decreases s.len(),
{
    if s.len() == 0 {
        s
    } else if s[0] == '(' {
        after_parens(s.skip(1), depth + 1)
    } else if s[0] == ')' {
        if depth <= 1 {
            s.skip(1)
        } else {
            after_parens(s.skip(1), (depth - 1) as nat)
        }
    } else {
        after_parens(s.skip(1), depth)
    }
}

/// Skipping parentheses does not lengthen a text.
pub proof fn lemma_after_parens_len(s: Seq<char>, depth: nat)
    ensures
        after_parens(s, depth).len() <= s.len(),
    decreases s.len(),
{
    if s.len() > 0 {
        lemma_after_parens_len(s.skip(1), depth + 1);
        lemma_after_parens_len(s.skip(1), depth);
        if depth > 1 {
            lemma_after_parens_len(s.skip(1), (depth - 1) as nat);
        }
    }
}

/// What stands before the first `c`, or all of `s`.
pub open spec fn before_char(s: Seq<char>, c: char) -> Seq<char>
    decreases s.len(),
{
    if s.len() == 0 || s[0] == c {
        Seq::empty()
    } else {
        seq![s[0]] + before_char(s.skip(1), c)
    }
}

/// `before_char` cuts `s` at the first `c`.
pub proof fn lemma_before_char(s: Seq<char>, c: char)
    ensures
        before_char(s, c).len() <= s.len(),
        s.take(before_char(s, c).len() as int) == before_char(s, c),
        before_char(s, c).len() < s.len() ==> s[before_char(s, c).len() as int] == c,
    decreases s.len(),
{
    if s.len() > 0 && s[0] != c {
        lemma_before_char(s.skip(1), c);
        let n = before_char(s.skip(1), c).len() as int;
        assert(s.take(n + 1) =~= seq![s[0]] + s.skip(1).take(n));
    } else {
        assert(s.take(0) =~= Seq::empty());
    }
}

/// Where `before_char` is all of `s`, there is no `c`.
proof fn lemma_before_char_absent(s: Seq<char>, c: char)
    requires
        before_char(s, c).len() == s.len(),
    ensures
        !s.contains(c),
    decreases s.len(),
{
    if s.len() > 0 {
        lemma_before_char(s.skip(1), c);
        lemma_before_char_absent(s.skip(1), c);
        assert forall|i: int| 0 <= i < s.len() implies s[i] != c by {
            if i > 0 {
                assert(s.skip(1)[i - 1] == s[i]);
                assert(s.skip(1).contains(s[i]));
            }
        }
    }
}

/// What follows the first `c`; nothing if there is none.
pub open spec fn after_char(s: Seq<char>, c: char) -> Seq<char> {
    let n = before_char(s, c).len() as int;
    if n < s.len() {
        s.skip(n + 1)
    } else {
        Seq::empty()
    }
}

/// Whether a character ends a descriptor.
pub open spec fn ends_descriptor(c: char) -> bool {
    c == '/' || c == '#' || c == '.' || c == '!' || c == ':'
}

/// `name` if it is not empty, else `last`.
pub open spec fn or_last(name: Seq<char>, last: Option<Seq<char>>) -> Option<Seq<char>> {
    if name.len() > 0 {
        Some(name)
    } else {
        last
    }
}

/// The last name among descriptors, where `last` has come before them and
/// `current` is the start of their first name. A parenthesis after a name
/// opens a method's disambiguator, which is skipped. Square brackets hold the
/// name of a type parameter, a descriptor of its own. With `params`, a
/// parenthesis elsewhere opens the name of a parameter.
pub open spec fn last_name(
    s: Seq<char>,
    last: Option<Seq<char>>,
    current: Seq<char>,
    params: bool,
) -> Option<Seq<char>>
    decreases s.len(),
{
    if s.len() == 0 {
        last
    } else {
        let (c, rest) = (s[0], s.skip(1));
        proof {
            lemma_after_parens_len(rest, 1);
        }
        if ends_descriptor(c) {
            last_name(rest, or_last(current, last), Seq::empty(), params)
        } else if c == '(' && current.len() > 0 {
            last_name(after_parens(rest, 1), Some(current), Seq::empty(), params)
        } else if c == '(' && params {
            last_name(after_char(rest, ')'), or_last(before_char(rest, ')'), last), current, params)
        } else if c == '(' {
            last_name(rest, last, current, params)
        } else if c == '[' {
            last_name(
                after_char(rest, ']'),
                or_last(before_char(rest, ']'), last),
                Seq::empty(),
                params,
            )
        } else {
            last_name(rest, last, current.push(c), params)
        }
    }
}

/// The last name among a symbol's descriptors.
pub open spec fn terminal_name(symbol: Seq<char>, params: bool) -> Option<Seq<char>> {
    match descriptors_of(symbol) {
        Some(d) => last_name(d, None, Seq::empty(), params),
        None => None,
    }
}

/// The position after the parenthesis that closes the one before `from`.
fn skip_parens(s: &[char], from: usize) -> (r: usize)
    requires
        0 < from <= s@.len(),
    ensures
        from <= r <= s@.len(),
        s@.skip(r as int) == after_parens(s@.skip(from as int), 1),
{
    let n: usize = s.len();
    let mut i: usize = from;
    let mut depth: usize = 1;
    while i < n
        invariant
            0 < from <= i <= n,
            n == s@.len(),
            1 <= depth <= 1 + i - from,
            after_parens(s@.skip(from as int), 1) == after_parens(s@.skip(i as int), depth as nat),
        decreases n - i,
    {
        assert(s@.skip(i as int).skip(1) =~= s@.skip(i + 1));
        if s[i] == '(' {
            depth += 1;
        } else if s[i] == ')' {
            if depth == 1 {
                return i + 1;
            }
            depth -= 1;
        }
        i += 1;
    }
    i
}

/// The position of the first `c` from `from` on, or the end.
pub fn position_of(s: &[char], from: usize, c: char) -> (r: usize)
    requires
        from <= s@.len(),
    ensures
        from <= r <= s@.len(),
        r - from == before_char(s@.skip(from as int), c).len(),
        s@.subrange(from as int, r as int) == before_char(s@.skip(from as int), c),
        after_char(s@.skip(from as int), c) == (if r < s@.len() {
            s@.skip(r + 1)
        } else {
            Seq::empty()
        }),
{
    let n: usize = s.len();
    let mut i: usize = from;
    let ghost rest = s@.skip(from as int);
    while i < n && s[i] != c
        invariant
            from <= i <= n,
            n == s@.len(),
            rest == s@.skip(from as int),
            before_char(rest, c) =~= s@.subrange(from as int, i as int) + before_char(
                s@.skip(i as int),
                c,
            ),
        decreases n - i,
    {
        assert(s@.skip(i as int).skip(1) =~= s@.skip(i + 1));
        i += 1;
        assert(s@.subrange(from as int, i as int) =~= s@.subrange(from as int, i - 1).push(
            s@[i - 1],
        ));
    }
    assert(before_char(s@.skip(i as int), c) =~= Seq::empty());
    if i < n {
        assert(rest.skip(i - from + 1) =~= s@.skip(i + 1));
    }
    i
}

/// The last name among a symbol's descriptors. With `params`, the names of
/// parameters count.
pub fn terminal_descriptor_name(symbol: &str, params: bool) -> (r: Option<String>)
    ensures
        text::opt_view(r) == terminal_name(symbol@, params),
{
    let d = match descriptors(symbol) {
        Some(d) => d,
        None => {
            return None;
        },
    };
    let n: usize = d.len();
    let mut last: Option<String> = None;
    let mut current: Vec<char> = Vec::new();
    let mut i: usize = 0;
    assert(d@.skip(0) =~= d@);
    while i < n
        invariant
            0 <= i <= n,
            n == d@.len(),
            last_name(d@, None, Seq::empty(), params) == last_name(
                d@.skip(i as int),
                text::opt_view(last),
                current@,
                params,
            ),
        decreases n - i,
    {
        let c = d[i];
        let ghost rest = d@.skip(i as int);
        assert(rest.skip(1) =~= d@.skip(i + 1));
        if c == '/' || c == '#' || c == '.' || c == '!' || c == ':' {
            if current.len() > 0 {
                last = Some(text::string_of(&current));
                current = Vec::new();
            }
            assert(current@ =~= Seq::empty());
            i += 1;
        } else if c == '(' && current.len() > 0 {
            last = Some(text::string_of(&current));
            current = Vec::new();
            i = skip_parens(&d, i + 1);
        } else if c == '[' || (c == '(' && params) {
            let close = if c == '(' {
                ')'
            } else {
                current = Vec::new();
                ']'
            };
            assert(current@ =~= Seq::empty());
            let end = position_of(&d, i + 1, close);
            let inner = &d[i + 1..end];
            assert(inner@ =~= d@.subrange(i + 1, end as int));
            if inner.len() > 0 {
                last = Some(text::string_of(inner));
            }
            if end < n {
                i = end + 1;
            } else {
                i = n;
                assert(d@.skip(n as int) =~= Seq::empty());
            }
        } else if c == '(' {
            i += 1;
        } else {
            current.push(c);
            i += 1;
        }
    }
    assert(d@.skip(i as int).len() == 0);
    last
}

/// Whether a text can stand between the spaces of a symbol.
pub open spec fn is_field(s: Seq<char>) -> bool {
    forall|i: int| 0 <= i < s.len() ==> (#[trigger] s[i]) != ' '
}

/// Whether a list is made of a scheme, a package manager, a package and a
/// version.
pub open spec fn is_package(h: Seq<Seq<char>>) -> bool {
    h.len() == 4 && forall|i: int| 0 <= i < h.len() ==> is_field(#[trigger] h[i])
}

/// The symbol of a package with the descriptors `d`.
pub open spec fn in_package(h: Seq<Seq<char>>, d: Seq<char>) -> Seq<char> {
    h[0] + " "@ + (h[1] + " "@ + (h[2] + " "@ + (h[3] + " "@ + d)))
}

/// A field ends at the first space.
pub proof fn lemma_field(field: Seq<char>, rest: Seq<char>)
    requires
        is_field(field),
    ensures
        text::first_index(field + " "@ + rest, " "@) == Some(field.len() as int),
        (field + " "@ + rest).take(field.len() as int) == field,
        (field + " "@ + rest).skip(field.len() as int + 1) == rest,
{
    reveal_strlit(" ");
    let all = field + " "@ + rest;
    assert forall|i: int| 0 <= i < field.len() implies all[i] != ' ' by {
        assert(all[i] == field[i]);
    }
    text::lemma_first_char(all, " "@, field.len() as int);
    assert(all.take(field.len() as int) =~= field);
    assert(all.skip(field.len() as int + 1) =~= rest);
}

/// The descriptors of a symbol are what follows its package.
pub proof fn law_descriptors(h: Seq<Seq<char>>, d: Seq<char>)
    requires
        is_package(h),
    ensures
        descriptors_of(in_package(h, d)) == Some(d),
{
    let rest3 = h[3] + " "@ + d;
    let rest2 = h[2] + " "@ + rest3;
    let rest1 = h[1] + " "@ + rest2;
    lemma_field(h[0], rest1);
    lemma_field(h[1], rest2);
    lemma_field(h[2], rest3);
    lemma_field(h[3], d);
    reveal_with_fuel(split_fields, 5);
    assert(fields(in_package(h, d)).len() == 5);
    assert(fields(in_package(h, d))[4] == d);
}

/// Scheme and package do not matter to the last name among a symbol's
/// descriptors.
pub proof fn law_package_does_not_matter(
    h1: Seq<Seq<char>>,
    h2: Seq<Seq<char>>,
    d: Seq<char>,
    params: bool,
)
    requires
        is_package(h1),
        is_package(h2),
    ensures
        terminal_name(in_package(h1, d), params) == terminal_name(in_package(h2, d), params),
{
    law_descriptors(h1, d);
    law_descriptors(h2, d);
}

/// Whether `part` stands somewhere in `s`.
pub open spec fn stands_in(part: Seq<char>, s: Seq<char>) -> bool {
    exists|i: int, j: int| 0 <= i <= j <= s.len() && part == #[trigger] s.subrange(i, j)
}

/// What follows parentheses is an end of the text.
proof fn lemma_after_parens_suffix(s: Seq<char>, depth: nat) -> (n: int)
    ensures
        0 <= n <= s.len(),
        after_parens(s, depth) == s.skip(n),
    decreases s.len(),
{
    if s.len() == 0 {
        assert(s.skip(0) =~= s);
        0
    } else if s[0] == ')' && depth <= 1 {
        1
    } else {
        let next = if s[0] == '(' {
            depth + 1
        } else if s[0] == ')' {
            (depth - 1) as nat
        } else {
            depth
        };
        let n = lemma_after_parens_suffix(s.skip(1), next);
        assert(s.skip(1).skip(n) =~= s.skip(n + 1));
        n + 1
    }
}

/// A bracketed name stands in the descriptors, and what follows the bracket is
/// an end of them; `from` is the place after the bracket.
proof fn lemma_bracketed(d: Seq<char>, from: int, close: char) -> (n: int)
    requires
        0 <= from <= d.len(),
    ensures
        from <= n <= d.len(),
        after_char(d.skip(from), close) == d.skip(n),
        stands_in(before_char(d.skip(from), close), d),
{
    let rest = d.skip(from);
    let len = before_char(rest, close).len() as int;
    lemma_before_char(rest, close);
    assert(d.subrange(from, from + len) =~= rest.take(len));
    if len < rest.len() {
        assert(rest.skip(len + 1) =~= d.skip(from + len + 1));
        from + len + 1
    } else {
        assert(d.skip(d.len() as int) =~= Seq::empty());
        d.len() as int
    }
}

/// The last name among what is left of `d` from `k` on is not empty and stands
/// in `d`, where `current` ends at `k` and `last` stands in `d`.
proof fn lemma_last_name(
    d: Seq<char>,
    k: int,
    last: Option<Seq<char>>,
    current: Seq<char>,
    params: bool,
)
    requires
        0 <= current.len() <= k <= d.len(),
        d.subrange(k - current.len(), k) == current,
        last matches Some(l) ==> l.len() > 0 && stands_in(l, d),
    ensures
        last_name(d.skip(k), last, current, params) matches Some(n) ==> n.len() > 0 && stands_in(
            n,
            d,
        ),
    decreases d.len() - k,
{
    let none = Seq::<char>::empty();
    if k < d.len() {
        let s = d.skip(k);
        let c = s[0];
        let rest = s.skip(1);
        assert(rest =~= d.skip(k + 1));
        assert(d.subrange(k + 1, k + 1) =~= none);
        if ends_descriptor(c) {
            lemma_last_name(d, k + 1, or_last(current, last), none, params);
        } else if c == '(' && current.len() > 0 {
            let n = lemma_after_parens_suffix(rest, 1);
            assert(rest.skip(n) =~= d.skip(k + 1 + n));
            assert(d.subrange(k + 1 + n, k + 1 + n) =~= none);
            lemma_last_name(d, k + 1 + n, Some(current), none, params);
        } else if c == '[' || (c == '(' && params) {
            let close = if c == '(' {
                ')'
            } else {
                ']'
            };
            let n = lemma_bracketed(d, k + 1, close);
            assert(d.subrange(n, n) =~= none);
            assert(c == '(' ==> current =~= none);
            lemma_last_name(d, n, or_last(before_char(rest, close), last), none, params);
        } else if c == '(' {
            assert(current =~= none);
            lemma_last_name(d, k + 1, last, none, params);
        } else {
            let more = current.push(c);
            assert(d.subrange(k + 1 - more.len(), k + 1) =~= more);
            lemma_last_name(d, k + 1, last, more, params);
        }
    }
}

/// The last name among a symbol's descriptors is not empty and stands in them.
pub proof fn law_terminal_name_stands(symbol: Seq<char>, params: bool)
    ensures
        terminal_name(symbol, params) matches Some(n) ==> {
            &&& n.len() > 0
            &&& descriptors_of(symbol) matches Some(d)
            &&& stands_in(n, d)
        },
{
    if let Some(d) = descriptors_of(symbol) {
        assert(d.skip(0) =~= d);
        assert(d.subrange(0, 0) =~= Seq::empty());
        lemma_last_name(d, 0, None, Seq::empty(), params);
    }
}

/// How many spaces a text holds.
pub open spec fn spaces(s: Seq<char>) -> nat
    decreases s.len(),
{
    if s.len() == 0 {
        0
    } else {
        spaces(s.skip(1)) + if s[0] == ' ' {
            1nat
        } else {
            0nat
        }
    }
}

/// A space and those behind it are among the spaces of a text.
proof fn lemma_spaces(s: Seq<char>, i: int)
    requires
        0 <= i < s.len(),
        s[i] == ' ',
    ensures
        spaces(s) >= 1 + spaces(s.skip(i + 1)),
    decreases i,
{
    if i > 0 {
        lemma_spaces(s.skip(1), i - 1);
        assert(s.skip(1).skip(i) =~= s.skip(i + 1));
    }
}

/// A text has at most one part more than spaces.
proof fn lemma_parts(s: Seq<char>, n: nat)
    ensures
        split_fields(s, n).len() <= spaces(s) + 1,
    decreases n,
{
    if n > 1 {
        text::lemma_first_index(s, " "@);
        if let Some(i) = text::first_index(s, " "@) {
            reveal_strlit(" ");
            assert(s.subrange(i, i + 1)[0] == ' ');
            lemma_spaces(s, i);
            lemma_parts(s.skip(i + 1), (n - 1) as nat);
        }
    }
}

/// A symbol with fewer than four spaces, such as a local one, has no
/// descriptors, and so no last name and no C identifier.
pub proof fn law_short_symbols_have_no_name(symbol: Seq<char>, params: bool)
    requires
        spaces(symbol) < 4,
    ensures
        descriptors_of(symbol) is None,
        terminal_name(symbol, params) is None,
        c_name_of(symbol) is None,
{
    lemma_parts(symbol, 5);
}

/// What a descriptor names: its text without the punctuation in front of it,
/// and without a method's parentheses and what follows them, or the character
/// that ends another descriptor.
pub open spec fn descriptor_core(d: Seq<char>) -> Seq<char> {
    let s = text::trimmed_start_of(d, ".:!"@);
    let name = before_char(s, '(');
    if name.len() == s.len() && s.len() > 0 && ends_descriptor(s.last()) {
        s.drop_last()
    } else {
        name
    }
}

/// What a descriptor names.
pub fn strip_descriptor_trailer(d: &str) -> (r: String)
    ensures
        r@ == descriptor_core(d@),
{
    let d = text::chars_of(d);
    let s = text::trim_start_of(&d, ".:!");
    let mut n = position_of(s, 0, '(');
    assert(s@.skip(0) =~= s@);
    if n == s.len() && n > 0 {
        let c = s[n - 1];
        if c == '/' || c == '#' || c == '.' || c == '!' || c == ':' {
            n -= 1;
        }
    }
    let core = &s[0..n];
    assert(core@ =~= s@.subrange(0, n as int));
    text::string_of(core)
}

} // verus!
