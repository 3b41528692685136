//! How texts are cut, split and ordered.

use crate::paths;
use crate::text;
use vstd::prelude::*;

verus! {

/// Whether all characters are white space.
pub open spec fn is_blank(s: Seq<char>) -> bool {
    forall|i: int| 0 <= i < s.len() ==> text::white_space(#[trigger] s[i])
}

/// Whether a text is not empty and has no white space at its ends.
pub open spec fn is_trim(s: Seq<char>) -> bool {
    s.len() > 0 && !text::white_space(s[0]) && !text::white_space(s.last())
}

/// White space at the ends of a text is dropped, and nothing else.
pub proof fn law_trimmed(a: Seq<char>, s: Seq<char>, b: Seq<char>)
    requires
        is_blank(a),
        is_trim(s),
        is_blank(b),
    ensures
        text::trimmed(a + s + b) == s,
        text::trimmed_start(a + s + b) == s + b,
{
    law_trimmed_start(a, s + b);
    assert(a + s + b =~= a + (s + b));
    lemma_trimmed_end(s, b);
}

/// White space in front of a text is dropped.
pub proof fn law_trimmed_start(a: Seq<char>, s: Seq<char>)
    requires
        is_blank(a),
        s.len() > 0,
        !text::white_space(s[0]),
    ensures
        text::trimmed_start(a + s) == s,
    decreases a.len(),
{
    let all = a + s;
    if a.len() == 0 {
        assert(all =~= s);
    } else {
        let rest = a.skip(1);
        assert(all[0] == a[0]);
        assert(all.skip(1) =~= rest + s);
        assert forall|i: int| 0 <= i < rest.len() implies text::white_space(#[trigger] rest[i]) by {
            assert(rest[i] == a[i + 1]);
        }
        law_trimmed_start(rest, s);
    }
}

/// White space behind a text is dropped.
proof fn lemma_trimmed_end(s: Seq<char>, b: Seq<char>)
    requires
        is_trim(s),
        is_blank(b),
    ensures
        text::trimmed_end(s + b) == s,
    decreases b.len(),
{
    let all = s + b;
    if b.len() == 0 {
        assert(all =~= s);
    } else {
        let rest = b.drop_last();
        assert(all.last() == b[b.len() - 1]);
        assert(all.drop_last() =~= s + rest);
        assert forall|i: int| 0 <= i < rest.len() implies text::white_space(#[trigger] rest[i]) by {
            assert(rest[i] == b[i]);
        }
        lemma_trimmed_end(s, rest);
    }
}

/// A text of white space alone is trimmed to nothing.
pub proof fn law_blank(s: Seq<char>)
    requires
        is_blank(s),
    ensures
        text::trimmed(s).len() == 0,
        text::trimmed_start(s).len() == 0,
    decreases s.len(),
{
    if s.len() > 0 {
        let rest = s.skip(1);
        assert forall|i: int| 0 <= i < rest.len() implies text::white_space(#[trigger] rest[i]) by {
            assert(rest[i] == s[i + 1]);
        }
        law_blank(rest);
    }
}

/// What counts as white space: the characters of ASCII that do, and beyond it
/// none of the letters, digits and marks of ASCII.
pub proof fn law_white_space(c: char)
    ensures
        c == ' ' || c == '\t' || c == '\n' || c == '\r' ==> text::white_space(c),
        '!' <= c <= '~' ==> !text::white_space(c),
{
}

/// Characters of a set are dropped from both ends of a text.
pub proof fn law_trimmed_of(a: Seq<char>, s: Seq<char>, b: Seq<char>, set: Seq<char>)
    requires
        forall|i: int| 0 <= i < a.len() ==> set.contains(#[trigger] a[i]),
        s.len() > 0,
        !set.contains(s[0]),
        !set.contains(s.last()),
        forall|i: int| 0 <= i < b.len() ==> set.contains(#[trigger] b[i]),
    ensures
        text::trimmed_of(a + s + b, set) == s,
{
    assert(a + s + b =~= a + (s + b));
    lemma_start_of(a, s + b, set);
    lemma_end_of(s, b, set);
}

proof fn lemma_start_of(a: Seq<char>, s: Seq<char>, set: Seq<char>)
    requires
        forall|i: int| 0 <= i < a.len() ==> set.contains(#[trigger] a[i]),
        s.len() > 0,
        !set.contains(s[0]),
    ensures
        text::trimmed_start_of(a + s, set) == s,
    decreases a.len(),
{
    let all = a + s;
    if a.len() == 0 {
        assert(all =~= s);
    } else {
        let rest = a.skip(1);
        assert(all[0] == a[0]);
        assert(all.skip(1) =~= rest + s);
        assert forall|i: int| 0 <= i < rest.len() implies set.contains(#[trigger] rest[i]) by {
            assert(rest[i] == a[i + 1]);
        }
        lemma_start_of(rest, s, set);
    }
}

proof fn lemma_end_of(s: Seq<char>, b: Seq<char>, set: Seq<char>)
    requires
        s.len() > 0,
        !set.contains(s.last()),
        forall|i: int| 0 <= i < b.len() ==> set.contains(#[trigger] b[i]),
    ensures
        text::trimmed_end_of(s + b, set) == s,
    decreases b.len(),
{
    let all = s + b;
    if b.len() == 0 {
        assert(all =~= s);
    } else {
        let rest = b.drop_last();
        assert(all.last() == b[b.len() - 1]);
        assert(all.drop_last() =~= s + rest);
        assert forall|i: int| 0 <= i < rest.len() implies set.contains(#[trigger] rest[i]) by {
            assert(rest[i] == b[i]);
        }
        lemma_end_of(s, rest, set);
    }
}

/// A line ends at a line feed, and a carriage return before it goes with it;
/// the last line needs none.
pub proof fn law_lines(a: Seq<char>, rest: Seq<char>)
    requires
        !a.contains('\n'),
    ensures
        a.len() == 0 || a.last() != '\r' ==> text::lines_of(a + seq!['\n'] + rest) == seq![a]
            + text::lines_of(rest),
        text::lines_of(a + seq!['\r', '\n'] + rest) == seq![a] + text::lines_of(rest),
        a.len() > 0 ==> text::lines_of(a) == seq![a],
        text::lines_of(Seq::empty()).len() == 0,
{
    let s = a + seq!['\n'] + rest;
    lemma_newline(a, seq!['\n'] + rest);
    assert(s =~= a + (seq!['\n'] + rest));
    assert(s.take(a.len() as int) =~= a);
    assert(s.skip(a.len() as int + 1) =~= rest);
    let b = a.push('\r');
    let t = a + seq!['\r', '\n'] + rest;
    assert(!b.contains('\n')) by {
        if b.contains('\n') {
            let i = b.index_of('\n');
            assert(a[i] == '\n');
        }
    }
    lemma_newline(b, seq!['\n'] + rest);
    assert(t =~= b + (seq!['\n'] + rest));
    assert(t.take(b.len() as int) =~= b);
    assert(t.skip(b.len() as int + 1) =~= rest);
    assert(b.drop_last() =~= a);
    lemma_newline(a, Seq::empty());
    assert(a + Seq::<char>::empty() =~= a);
}

proof fn lemma_newline(a: Seq<char>, rest: Seq<char>)
    requires
        !a.contains('\n'),
        rest.len() > 0 ==> rest[0] == '\n',
    ensures
        rest.len() > 0 ==> text::newline_index(a + rest) == Some(a.len() as int),
        rest.len() == 0 ==> text::newline_index(a + rest) is None,
    decreases a.len(),
{
    let s = a + rest;
    if a.len() == 0 {
        assert(s =~= rest);
    } else {
        assert(a.contains(a[0]));
        assert(s.skip(1) =~= a.skip(1) + rest);
        assert forall|i: int| 0 <= i < a.skip(1).len() implies a.skip(1)[i] != '\n' by {
            assert(a.contains(a[i + 1]));
        }
        lemma_newline(a.skip(1), rest);
    }
}

/// Of two texts that first differ in a character, the one with the smaller
/// character comes first; a text comes before what it is the start of.
pub proof fn law_order_of_texts(p: Seq<char>, c: char, x: Seq<char>, d: char, y: Seq<char>)
    ensures
        c < d ==> text::precedes(p + (seq![c] + x), p + (seq![d] + y)),
        d < c ==> !text::precedes(p + (seq![c] + x), p + (seq![d] + y)),
        text::precedes(p, p + (seq![c] + x)),
        !text::precedes(p + (seq![c] + x), p),
        !text::precedes(p, p),
    decreases p.len(),
{
    let (a, b) = (p + (seq![c] + x), p + (seq![d] + y));
    if p.len() == 0 {
        assert(a =~= seq![c] + x);
        assert(b =~= seq![d] + y);
    } else {
        law_order_of_texts(p.skip(1), c, x, d, y);
        assert(a.skip(1) =~= p.skip(1) + (seq![c] + x));
        assert(b.skip(1) =~= p.skip(1) + (seq![d] + y));
    }
}

/// A text is split at a separator that it does not hold the start of before.
pub proof fn law_split(p: Seq<char>, sep: Seq<char>, rest: Seq<char>)
    requires
        sep.len() > 0,
        !p.contains(sep[0]),
    ensures
        text::split_text(p + sep + rest, sep) == seq![p] + text::split_text(rest, sep),
        text::split_text(p, sep) == seq![p],
{
    let s = p + sep + rest;
    let n = p.len() as int;
    text::lemma_first_index(s, sep);
    text::lemma_first_index(p, sep);
    assert(s.skip(n).take(sep.len() as int) =~= sep);
    assert(text::has_prefix(s.skip(n), sep));
    match text::first_index(s, sep) {
        Some(i) => {
            if i > n {
                assert(!text::has_prefix(s.skip(n), sep));
            } else if i < n {
                assert(s.subrange(i, i + sep.len())[0] == s[i]);
                assert(p.contains(p[i]));
            }
        },
        None => {},
    }
    assert(s.take(n) =~= p);
    assert(s.skip(n + sep.len()) =~= rest);
    if let Some(i) = text::first_index(p, sep) {
        assert(p.subrange(i, i + sep.len())[0] == p[i]);
        assert(p.contains(p[i]));
    }
}

/// Parts with a separator between each two.
pub open spec fn joined_by(parts: Seq<Seq<char>>, sep: Seq<char>) -> Seq<char>
    decreases parts.len(),
{
    if parts.len() == 0 {
        Seq::empty()
    } else if parts.len() == 1 {
        parts[0]
    } else {
        parts[0] + sep + joined_by(parts.skip(1), sep)
    }
}

/// Joining puts the separator between each two parts.
pub proof fn law_joined(parts: Seq<Seq<char>>, sep: Seq<char>)
    ensures
        text::joined(parts, sep) == joined_by(parts, sep),
    decreases parts.len(),
{
    if parts.len() > 2 {
        let (front, rest) = (parts.drop_last(), parts.skip(1));
        law_joined(front, sep);
        law_joined(rest, sep);
        law_joined(front.skip(1), sep);
        assert(rest.drop_last() =~= front.skip(1));
        assert(rest.last() == parts.last());
        assert(parts[0] + sep + (joined_by(front.skip(1), sep) + sep + parts.last()) =~= parts[0]
            + sep + joined_by(front.skip(1), sep) + sep + parts.last());
    } else if parts.len() == 2 {
        assert(parts.drop_last() =~= seq![parts[0]]);
        assert(parts.skip(1) =~= seq![parts[1]]);
        reveal_with_fuel(text::joined, 2);
        reveal_with_fuel(joined_by, 2);
    }
}

/// Replacing goes through a text from its start: what stands before the first
/// occurrence is kept, the occurrence is replaced, and so on behind it.
pub proof fn law_replaced(p: Seq<char>, from: Seq<char>, rest: Seq<char>, to: Seq<char>)
    requires
        from.len() > 0,
        !p.contains(from[0]),
    ensures
        text::replaced(p, from, to) == p,
        text::replaced(p + from + rest, from, to) == p + to + text::replaced(rest, from, to),
{
    law_split(p, from, rest);
    let parts = text::split_text(rest, from);
    lemma_some_piece(rest, from);
    law_joined(seq![p] + parts, to);
    law_joined(parts, to);
    assert((seq![p] + parts).skip(1) =~= parts);
}

/// There is at least one piece.
proof fn lemma_some_piece(s: Seq<char>, sep: Seq<char>)
    ensures
        text::split_text(s, sep).len() > 0,
{
}

/// Splitting gives back the parts that were joined.
pub proof fn law_split_joined(parts: Seq<Seq<char>>, sep: Seq<char>)
    requires
        parts.len() > 0,
        sep.len() > 0,
        forall|i: int| 0 <= i < parts.len() ==> !(#[trigger] parts[i]).contains(sep[0]),
    ensures
        text::split_text(joined_by(parts, sep), sep) == parts,
    decreases parts.len(),
{
    let rest = parts.skip(1);
    assert(!parts[0].contains(sep[0]));
    law_split(parts[0], sep, joined_by(rest, sep));
    if parts.len() == 1 {
        assert(seq![parts[0]] =~= parts);
    } else {
        assert forall|i: int| 0 <= i < rest.len() implies !(#[trigger] rest[i]).contains(sep[0]) by {
            assert(rest[i] == parts[i + 1]);
        }
        law_split_joined(rest, sep);
        assert(seq![parts[0]] + rest =~= parts);
    }
}

/// Empty parts are left out, and no others.
pub proof fn law_nonempty(a: Seq<Seq<char>>, b: Seq<Seq<char>>, part: Seq<char>)
    ensures
        text::nonempty(a + b) == text::nonempty(a) + text::nonempty(b),
        part.len() > 0 ==> text::nonempty(seq![part]) == seq![part],
        part.len() == 0 ==> text::nonempty(seq![part]).len() == 0,
        (forall|i: int| 0 <= i < a.len() ==> (#[trigger] a[i]).len() > 0) ==> text::nonempty(a) == a,
    decreases b.len(), a.len(),
{
    assert(seq![part].drop_last() =~= Seq::empty());
    assert(text::nonempty(seq![part].drop_last()) =~= Seq::empty());
    if part.len() > 0 {
        assert(Seq::empty().push(part) =~= seq![part]);
    }
    lemma_all_kept(a);
    if b.len() == 0 {
        assert(a + b =~= a);
        assert(text::nonempty(a) + text::nonempty(b) =~= text::nonempty(a));
    } else {
        law_nonempty(a, b.drop_last(), part);
        assert((a + b).drop_last() =~= a + b.drop_last());
        assert(text::nonempty(a + b) =~= text::nonempty(a) + text::nonempty(b));
    }
}

proof fn lemma_all_kept(a: Seq<Seq<char>>)
    ensures
        (forall|i: int| 0 <= i < a.len() ==> (#[trigger] a[i]).len() > 0) ==> text::nonempty(a) == a,
    decreases a.len(),
{
    if a.len() > 0 && forall|i: int| 0 <= i < a.len() ==> (#[trigger] a[i]).len() > 0 {
        let front = a.drop_last();
        assert forall|i: int| 0 <= i < front.len() implies (#[trigger] front[i]).len() > 0 by {
            assert(front[i] == a[i]);
        }
        lemma_all_kept(front);
        assert(a[a.len() - 1].len() > 0);
        assert(text::nonempty(a) =~= a);
    } else if a.len() == 0 {
        assert(text::nonempty(a) =~= a);
    }
}

/// What follows the last character of a set is what follows one and holds
/// none.
pub proof fn law_after_last_of(head: Seq<char>, tail: Seq<char>, set: Seq<char>)
    requires
        head.len() > 0 ==> set.contains(head.last()),
        forall|i: int| 0 <= i < tail.len() ==> !set.contains(#[trigger] tail[i]),
    ensures
        text::after_last_of(head + tail, set) == tail,
    decreases tail.len(),
{
    let all = head + tail;
    if tail.len() == 0 {
        assert(all =~= head);
        assert(text::after_last_of(all, set) =~= tail);
    } else {
        let front = tail.drop_last();
        assert(all.drop_last() =~= head + front);
        assert forall|i: int| 0 <= i < front.len() implies !set.contains(#[trigger] front[i]) by {
            assert(front[i] == tail[i]);
        }
        law_after_last_of(head, front, set);
        assert(all.last() == tail[tail.len() - 1]);
        assert(front.push(tail.last()) =~= tail);
    }
}

/// What follows the last occurrence of a text is what follows one and does not
/// hold its last character.
pub proof fn law_after_last(head: Seq<char>, p: Seq<char>, tail: Seq<char>)
    requires
        p.len() > 0,
        !tail.contains(p.last()),
    ensures
        text::after_last(head + p + tail, p) == tail,
        text::after_last(tail, p) == tail,
        text::last_index(head + p + tail, p) == Some(head.len() as int),
{
    lemma_last_index(head, p, tail);
    lemma_no_last_index(tail, p);
    let s = head + p + tail;
    assert(s.skip(head.len() + p.len() as int) =~= tail);
}

proof fn lemma_last_index(head: Seq<char>, p: Seq<char>, tail: Seq<char>)
    requires
        p.len() > 0,
        !tail.contains(p.last()),
    ensures
        text::last_index(head + p + tail, p) == Some(head.len() as int),
    decreases tail.len(),
{
    let s = head + p + tail;
    if tail.len() == 0 {
        assert(s =~= head + p);
        assert(s.skip(s.len() - p.len()) =~= p);
    } else {
        assert(tail.contains(tail.last()));
        if text::has_suffix(s, p) {
            assert(s.skip(s.len() - p.len()).last() == s.last());
        }
        let front = tail.drop_last();
        assert forall|i: int| 0 <= i < front.len() implies front[i] != p.last() by {
            assert(tail.contains(tail[i]));
        }
        assert(s.drop_last() =~= head + p + front);
        lemma_last_index(head, p, front);
    }
}

proof fn lemma_no_last_index(s: Seq<char>, p: Seq<char>)
    requires
        p.len() > 0,
        !s.contains(p.last()),
    ensures
        text::last_index(s, p) is None,
    decreases s.len(),
{
    if s.len() > 0 {
        assert(s.contains(s.last()));
        if text::has_suffix(s, p) {
            assert(s.skip(s.len() - p.len()).last() == s.last());
        }
        let front = s.drop_last();
        assert forall|i: int| 0 <= i < front.len() implies front[i] != p.last() by {
            assert(s.contains(s[i]));
        }
        lemma_no_last_index(front, p);
    } else {
        assert(!text::has_suffix(s, p));
    }
}

/// Whether a text can be a file's name.
pub open spec fn is_file_name(name: Seq<char>) -> bool {
    name.len() > 0 && !name.contains('/') && name != "."@ && name != ".."@
}

/// The name of a file is what follows the last slash of its path; slashes
/// behind it do not matter.
pub proof fn law_file_name(dir: Seq<char>, name: Seq<char>)
    requires
        is_file_name(name),
        dir.len() > 0 ==> dir.last() == '/',
    ensures
        paths::file_name_of(dir + name) == Some(name),
        paths::file_name_of((dir + name).push('/')) == Some(name),
{
    reveal_strlit("/");
    let set = "/"@;
    assert(set[0] == '/');
    assert(set.contains('/'));
    assert forall|i: int| 0 <= i < name.len() implies !set.contains(#[trigger] name[i]) by {
        assert(name.contains(name[i]));
        if set.contains(name[i]) {
            let k = set.index_of(name[i]);
            assert(set[k] == '/');
        }
    }
    law_after_last_of(dir, name, set);
    let slashed = (dir + name).push('/');
    assert(slashed.drop_last() =~= dir + name);
    assert(text::after_last_of(slashed, set) =~= Seq::empty());
    reveal_strlit(".");
    reveal_strlit("..");
    assert(Seq::<char>::empty() != ".."@);
}

/// A path that ends in `..` names no file.
pub proof fn law_no_file_name(dir: Seq<char>)
    requires
        dir.len() > 0 ==> dir.last() == '/',
    ensures
        paths::file_name_of(dir + seq!['.', '.']) is None,
        paths::file_name_of(Seq::empty()) is None,
{
    reveal_strlit("/");
    reveal_strlit("..");
    let set = "/"@;
    let name = seq!['.', '.'];
    assert(set[0] == '/');
    assert(set.contains('/'));
    assert forall|i: int| 0 <= i < name.len() implies !set.contains(#[trigger] name[i]) by {
        if set.contains(name[i]) {
            let k = set.index_of(name[i]);
            assert(set[k] == '/');
        }
    }
    law_after_last_of(dir, name, set);
    assert(name =~= ".."@);
}

/// The extension of a file is what follows the last dot of its name, unless
/// that dot comes first or there is none.
pub proof fn law_extension(dir: Seq<char>, stem: Seq<char>, ext: Seq<char>)
    requires
        dir.len() > 0 ==> dir.last() == '/',
        !stem.contains('/'),
        !ext.contains('/'),
        !ext.contains('.'),
    ensures
        stem.len() > 0 && is_file_name(stem + seq!['.'] + ext) ==> paths::extension_of(
            dir + (stem + seq!['.'] + ext),
        ) == Some(ext),
        ext.len() > 0 ==> paths::extension_of(dir + (seq!['.'] + ext)) is None,
        ext.len() > 0 ==> paths::extension_of(dir + ext) is None,
{
    reveal_strlit(".");
    reveal_strlit("..");
    assert("."@ =~= seq!['.']);
    let name = stem + seq!['.'] + ext;
    if stem.len() > 0 && is_file_name(name) {
        law_file_name(dir, name);
        law_after_last(stem, seq!['.'], ext);
        assert(name.skip(stem.len() as int + 1) =~= ext);
    }
    if ext.len() > 0 {
        let dotted = seq!['.'] + ext;
        assert(ext.contains(ext[0]));
        assert(dotted[1] == ext[0]);
        assert(!dotted.contains('/')) by {
            if dotted.contains('/') {
                let i = dotted.index_of('/');
                assert(i > 0);
                assert(ext[i - 1] == '/');
            }
        }
        assert(dotted != ".."@) by {
            assert(".."@[1] == '.');
        }
        law_file_name(dir, dotted);
        law_after_last(Seq::empty(), seq!['.'], ext);
        assert(Seq::<char>::empty() + seq!['.'] + ext =~= dotted);
        assert(ext != "."@ && ext != ".."@) by {
            assert("."@[0] == '.' && ".."@[0] == '.');
        }
        law_file_name(dir, ext);
        lemma_no_last_index(ext, seq!['.']);
    }
}

/// A file's language is told by its extension.
pub proof fn law_sources(path: Seq<char>, ext: Seq<char>)
    requires
        paths::extension_of(path) == Some(ext),
    ensures
        paths::cpp_source(path) <==> (ext == "cc"@ || ext == "cpp"@ || ext == "cxx"@ || ext
            == "hpp"@ || ext == "hh"@),
        paths::native_source(path) <==> (ext == "c"@ || ext == "cc"@ || ext == "cpp"@ || ext
            == "cxx"@),
        paths::po_file(path) <==> (ext == "po"@ || ext == "pot"@),
        ext == "mk"@ ==> paths::makefile(path),
        ext != "mk"@ ==> (paths::makefile(path) <==> (paths::file_name_of(path) == Some(
            "Makefile"@,
        ) || paths::file_name_of(path) == Some("makefile"@) || paths::file_name_of(path) == Some(
            "GNUmakefile"@,
        ))),
{
}

/// A file without an extension is no source; it is a makefile if it is called
/// one.
pub proof fn law_no_sources(path: Seq<char>)
    requires
        paths::extension_of(path) is None,
    ensures
        !paths::cpp_source(path),
        !paths::native_source(path),
        !paths::po_file(path),
        paths::makefile(path) <==> (paths::file_name_of(path) == Some("Makefile"@)
            || paths::file_name_of(path) == Some("makefile"@) || paths::file_name_of(path) == Some(
            "GNUmakefile"@,
        )),
{
}

/// The search for makefiles enters every directory but those of version
/// control, build outputs and installed packages, and takes the makefiles.
pub proof fn law_makefile_search(name: &str, kind: paths::EntryKind, r: paths::Step)
    requires
        call_ensures(paths::makefile_step, (name, kind), r),
    ensures
        kind == paths::EntryKind::Directory ==> (r == paths::Step::Skip <==> (name@ == ".git"@
            || name@ == ".hg"@ || name@ == ".svn"@ || name@ == "target"@ || name@ == "build"@
            || name@ == "node_modules"@)),
        kind == paths::EntryKind::Directory ==> r != paths::Step::Take,
        kind == paths::EntryKind::File ==> (r == paths::Step::Take <==> paths::makefile(name@)),
        kind == paths::EntryKind::File ==> r != paths::Step::Enter,
        kind == paths::EntryKind::Other ==> r == paths::Step::Skip,
{
}

/// The search for catalogues enters every directory but git's, and takes the
/// catalogues and templates.
pub proof fn law_po_search(name: &str, kind: paths::EntryKind, r: paths::Step)
    requires
        call_ensures(paths::po_step, (name, kind), r),
    ensures
        kind == paths::EntryKind::Directory ==> (r == paths::Step::Skip <==> name@ == ".git"@),
        kind == paths::EntryKind::Directory ==> r != paths::Step::Take,
        kind == paths::EntryKind::File ==> (r == paths::Step::Take <==> paths::extension_of(name@)
            == Some("po"@) || paths::extension_of(name@) == Some("pot"@)),
        kind == paths::EntryKind::File ==> r != paths::Step::Enter,
        kind == paths::EntryKind::Other ==> r == paths::Step::Skip,
{
}

/// The sources of native code are told by their extension.
pub proof fn law_native_sources(path: &str, r: bool)
    requires
        call_ensures(paths::is_native_source, (path,), r),
    ensures
        r <==> (paths::extension_of(path@) == Some("c"@) || paths::extension_of(path@) == Some(
            "cc"@,
        ) || paths::extension_of(path@) == Some("cpp"@) || paths::extension_of(path@) == Some(
            "cxx"@,
        )),
{
}

/// A Rust tree is searched but for what is hidden and for `target`.
pub proof fn law_rust_search(name: &str, r: bool)
    requires
        call_ensures(paths::is_hidden_or_target, (name,), r),
    ensures
        r <==> name@ == "target"@ || (name@.len() > 0 && name@[0] == '.'),
{
    reveal_strlit(".");
    if name@.len() > 0 {
        assert(name@.take(1)[0] == name@[0]);
        if name@[0] == '.' {
            assert(name@.take(1) =~= "."@);
        }
    }
}

/// Names that start with a dot are hidden; `build` and `target` hold build
/// outputs.
pub proof fn law_hidden(name: Seq<char>)
    ensures
        paths::hidden(seq!['.'] + name),
        name.len() > 0 && name[0] != '.' ==> !paths::hidden(name),
        paths::hidden_or_build(seq!['.'] + name),
        name.len() > 0 && name[0] != '.' && name != "build"@ && name != "target"@
            ==> !paths::hidden_or_build(name),
        paths::hidden_or_build("build"@),
        paths::hidden_or_build("target"@),
{
    reveal_strlit(".");
    let dotted = seq!['.'] + name;
    assert(dotted.take(1) =~= "."@);
    if name.len() > 0 && text::has_prefix(name, "."@) {
        assert(name.take(1)[0] == name[0]);
    }
}

/// A search enters wanted directories and takes wanted files, and follows
/// nothing else.
pub proof fn law_search(kind: paths::EntryKind, enters: bool, takes: bool)
    ensures
        (paths::search_step(kind, enters, takes) == paths::Step::Enter) <==> (kind
            == paths::EntryKind::Directory && enters),
        (paths::search_step(kind, enters, takes) == paths::Step::Take) <==> (kind
            == paths::EntryKind::File && takes),
{
}

} // verus!
