//! How symbols are written and read back.

use crate::shape;
use crate::symbol;
use crate::symbol::{DescriptorView, PackageView, Suffix};
use crate::text;
use vstd::prelude::*;

verus! {

/// Whether a name is not empty and needs no quotes.
pub open spec fn is_plain_name(name: Seq<char>) -> bool {
    name.len() > 0 && forall|i: int| 0 <= i < name.len() ==> is_plain_char(#[trigger] name[i])
}

/// Whether a character is an ASCII letter or digit or one of `_`, `+`, `-` and
/// `$`.
pub open spec fn is_plain_char(c: char) -> bool {
    ||| 'a' <= c <= 'z'
    ||| 'A' <= c <= 'Z'
    ||| '0' <= c <= '9'
    ||| c == '_' || c == '+' || c == '-' || c == '$'
}

/// What is written behind a name: a slash behind a namespace, a hash behind a
/// type, parentheses and a dot behind a method and a colon behind what has no
/// place of its own.
pub open spec fn tail_of(suffix: Suffix) -> Seq<char> {
    match suffix {
        Suffix::Namespace => seq!['/'],
        Suffix::Type => seq!['#'],
        Suffix::Method => seq!['(', ')', '.'],
        Suffix::Meta => seq![':'],
    }
}

/// A plain name stands in a symbol as it is; another one stands in backticks.
pub proof fn law_names_are_written(name: Seq<char>, suffix: Suffix, i: int)
    ensures
        is_plain_name(name) ==> symbol::rendered(DescriptorView { name, suffix }) == name + tail_of(
            suffix,
        ),
        0 <= i < name.len() && !is_plain_char(name[i]) && !name.contains('`') ==> symbol::rendered(
            DescriptorView { name, suffix },
        ) == seq!['`'] + name + seq!['`'] + tail_of(suffix),
{
    reveal_strlit("/");
    reveal_strlit("#");
    reveal_strlit("().");
    reveal_strlit(":");
    reveal_strlit("`");
    let d = DescriptorView { name, suffix };
    if is_plain_name(name) {
        assert forall|k: int| 0 <= k < name.len() implies symbol::is_simple(#[trigger] name[k]) by {
            assert(is_plain_char(name[k]));
        }
        assert(symbol::rendered(d) =~= name + tail_of(suffix));
    }
    if 0 <= i < name.len() && !is_plain_char(name[i]) && !name.contains('`') {
        assert(!symbol::is_simple(name[i]));
        shape::law_split(name, "`"@, Seq::empty());
        assert(text::replaced(name, "`"@, "``"@) == name);
        assert(symbol::rendered(d) =~= seq!['`'] + name + seq!['`'] + tail_of(suffix));
    }
}

/// A backtick in a name is doubled.
pub proof fn law_backticks_are_doubled(a: Seq<char>, b: Seq<char>)
    requires
        !a.contains('`'),
        !b.contains('`'),
    ensures
        symbol::escaped(a + seq!['`'] + b) == seq!['`'] + a + seq!['`', '`'] + b + seq!['`'],
{
    reveal_strlit("`");
    reveal_strlit("``");
    let name = a + seq!['`'] + b;
    assert("`"@ =~= seq!['`']);
    assert(!symbol::is_simple(name[a.len() as int]));
    shape::law_split(a, "`"@, b);
    shape::law_split(b, "`"@, Seq::empty());
    assert(text::split_text(name, "`"@) =~= seq![a, b]);
    let parts = seq![a, b];
    assert(parts.drop_last() =~= seq![a]);
    assert(text::joined(seq![a], "``"@) == a);
    assert(text::joined(parts, "``"@) == a + "``"@ + b);
    assert(symbol::escaped(name) =~= seq!['`'] + a + seq!['`', '`'] + b + seq!['`']);
}

/// Plain names with what is written behind each.
pub open spec fn written(ds: Seq<DescriptorView>) -> Seq<char>
    decreases ds.len(),
{
    if ds.len() == 0 {
        Seq::empty()
    } else {
        written(ds.drop_last()) + ds.last().name + tail_of(ds.last().suffix)
    }
}

/// Whether all names are plain.
pub open spec fn are_plain(ds: Seq<DescriptorView>) -> bool {
    forall|i: int| 0 <= i < ds.len() ==> is_plain_name((#[trigger] ds[i]).name)
}

/// Descriptors with plain names are written one after the other.
proof fn lemma_written(ds: Seq<DescriptorView>)
    requires
        are_plain(ds),
    ensures
        text::concatenated(ds.map_values(|d: DescriptorView| symbol::rendered(d))) == written(ds),
    decreases ds.len(),
{
    let all = ds.map_values(|d: DescriptorView| symbol::rendered(d));
    if ds.len() > 0 {
        let front = ds.drop_last();
        assert forall|i: int| 0 <= i < front.len() implies is_plain_name(
            (#[trigger] front[i]).name,
        ) by {
            assert(front[i] == ds[i]);
        }
        lemma_written(front);
        assert(all.drop_last() =~= front.map_values(|d: DescriptorView| symbol::rendered(d)));
        let d = ds[ds.len() - 1];
        law_names_are_written(d.name, d.suffix, 0);
        assert(text::concatenated(all) =~= written(front) + d.name + tail_of(d.suffix));
    }
}

/// A part of a package: a dot stands for an empty one.
pub open spec fn dotted(s: Seq<char>) -> Seq<char> {
    if s.len() == 0 {
        seq!['.']
    } else {
        s
    }
}

/// A symbol is written as scheme, package manager, package and version, with a
/// space behind each and a dot for an empty one, and then its descriptors.
pub proof fn law_symbols_are_written(p: PackageView, ds: Seq<DescriptorView>)
    requires
        ds.len() > 0,
        are_plain(ds),
    ensures
        symbol::formatted(p, ds) == p.scheme + seq![' '] + dotted(p.manager) + seq![' '] + dotted(
            p.name,
        ) + seq![' '] + dotted(p.version) + seq![' '] + written(ds),
{
    reveal_strlit(" ");
    reveal_strlit(".");
    lemma_written(ds);
    assert(" "@ =~= seq![' ']);
    assert("."@ =~= seq!['.']);
}

/// What is written behind a name ends the name.
proof fn lemma_tail_read(
    tail: Seq<char>,
    rest: Seq<char>,
    last: Option<Seq<char>>,
    name: Seq<char>,
    params: bool,
)
    requires
        name.len() > 0,
        is_tail(tail),
    ensures
        symbol::last_name(tail + rest, last, name, params) == symbol::last_name(
            rest,
            Some(name),
            Seq::empty(),
            params,
        ),
{
    let s = tail + rest;
    if tail.len() == 1 {
        assert(s.skip(1) =~= rest);
    } else {
        let hash = tail.subrange(1, tail.len() - 2);
        assert(s.skip(1) =~= hash + (seq![')', '.'] + rest));
        lemma_hash(hash, seq![')', '.'] + rest);
        let dot = seq!['.'] + rest;
        assert((seq![')', '.'] + rest).skip(1) =~= dot);
        assert(dot.skip(1) =~= rest);
        assert(symbol::after_parens(s.skip(1), 1) == dot);
        assert(symbol::last_name(s, last, name, params) == symbol::last_name(
            dot,
            Some(name),
            Seq::empty(),
            params,
        ));
        assert(dot[0] == '.');
    }
}

/// Whether a text is what can stand behind a name: one of `/`, `#`, `.`, `!` and
/// `:`, or parentheses with anything but parentheses in them, and a dot.
pub open spec fn is_tail(tail: Seq<char>) -> bool {
    ||| tail.len() == 1 && (tail[0] == '/' || tail[0] == '#' || tail[0] == '.' || tail[0] == '!'
        || tail[0] == ':')
    ||| {
        &&& tail.len() >= 3
        &&& tail[0] == '('
        &&& tail[tail.len() - 2] == ')'
        &&& tail[tail.len() - 1] == '.'
        &&& forall|i: int| 1 <= i < tail.len() - 2 ==> tail[i] != '(' && tail[i] != ')'
    }
}

/// What stands in parentheses is skipped.
proof fn lemma_hash(hash: Seq<char>, rest: Seq<char>)
    requires
        forall|i: int| 0 <= i < hash.len() ==> hash[i] != '(' && hash[i] != ')',
        rest.len() > 0,
        rest[0] == ')',
    ensures
        symbol::after_parens(hash + rest, 1) == rest.skip(1),
    decreases hash.len(),
{
    let s = hash + rest;
    if hash.len() == 0 {
        assert(s =~= rest);
    } else {
        assert(s.skip(1) =~= hash.skip(1) + rest);
        assert forall|i: int| 0 <= i < hash.skip(1).len() implies hash.skip(1)[i] != '('
            && hash.skip(1)[i] != ')' by {
            assert(hash.skip(1)[i] == hash[i + 1]);
        }
        lemma_hash(hash.skip(1), rest);
    }
}

/// A plain name is read to its end.
proof fn lemma_name_read(
    name: Seq<char>,
    rest: Seq<char>,
    last: Option<Seq<char>>,
    current: Seq<char>,
    params: bool,
)
    requires
        forall|i: int| 0 <= i < name.len() ==> is_plain_char(#[trigger] name[i]),
    ensures
        symbol::last_name(name + rest, last, current, params) == symbol::last_name(
            rest,
            last,
            current + name,
            params,
        ),
    decreases name.len(),
{
    let s = name + rest;
    if name.len() == 0 {
        assert(s =~= rest);
        assert(current + name =~= current);
    } else {
        assert(is_plain_char(name[0]));
        assert(s.skip(1) =~= name.skip(1) + rest);
        assert forall|i: int| 0 <= i < name.skip(1).len() implies is_plain_char(
            #[trigger] name.skip(1)[i],
        ) by {
            assert(name.skip(1)[i] == name[i + 1]);
        }
        lemma_name_read(name.skip(1), rest, last, current.push(name[0]), params);
        assert(current.push(name[0]) + name.skip(1) =~= current + name);
    }
}

/// Names with what stands behind each.
pub open spec fn spelled(parts: Seq<(Seq<char>, Seq<char>)>) -> Seq<char>
    decreases parts.len(),
{
    if parts.len() == 0 {
        Seq::empty()
    } else {
        parts[0].0 + (parts[0].1 + spelled(parts.skip(1)))
    }
}

/// Whether each part is a plain name and what can stand behind it.
pub open spec fn are_parts(parts: Seq<(Seq<char>, Seq<char>)>) -> bool {
    forall|i: int|
        0 <= i < parts.len() ==> is_plain_name((#[trigger] parts[i]).0) && is_tail(parts[i].1)
}

/// The last name of descriptors is that of the last of them, whatever it is and
/// whatever stands before it; a disambiguator in parentheses is no name.
pub proof fn law_last_name(
    parts: Seq<(Seq<char>, Seq<char>)>,
    last: Option<Seq<char>>,
    params: bool,
)
    requires
        are_parts(parts),
    ensures
        parts.len() > 0 ==> symbol::last_name(spelled(parts), last, Seq::empty(), params) == Some(
            parts.last().0,
        ),
        parts.len() == 0 ==> symbol::last_name(spelled(parts), last, Seq::empty(), params) == last,
    decreases parts.len(),
{
    if parts.len() > 0 {
        let (name, tail) = parts[0];
        let others = parts.skip(1);
        assert(is_plain_name(parts[0].0) && is_tail(parts[0].1));
        assert forall|i: int| 0 <= i < others.len() implies is_plain_name(
            (#[trigger] others[i]).0,
        ) && is_tail(others[i].1) by {
            assert(others[i] == parts[i + 1]);
        }
        let more = spelled(others);
        lemma_name_read(name, tail + more, last, Seq::empty(), params);
        assert(Seq::<char>::empty() + name =~= name);
        lemma_tail_read(tail, more, last, name, params);
        law_last_name(others, Some(name), params);
    }
}

/// The last name of a symbol is that of its last descriptor.
pub proof fn law_terminal_name(
    h: Seq<Seq<char>>,
    parts: Seq<(Seq<char>, Seq<char>)>,
    params: bool,
)
    requires
        symbol::is_package(h),
        are_parts(parts),
        parts.len() > 0,
    ensures
        symbol::terminal_name(symbol::in_package(h, spelled(parts)), params) == Some(
            parts.last().0,
        ),
{
    symbol::law_descriptors(h, spelled(parts));
    law_last_name(parts, None, params);
}

/// The version of a symbol is the fourth of its fields, unless it is local.
pub proof fn law_version_is_fourth(h: Seq<Seq<char>>, d: Seq<char>)
    requires
        symbol::is_package(h),
    ensures
        ({
            let s = symbol::in_package(h, d);
            &&& h[0] != "local"@ ==> symbol::version_of(s) == Some(h[3])
            &&& h[0] == "local"@ ==> symbol::version_of(s) is None
            &&& symbol::is_local(s) == (h[0] == "local"@)
        }),
{
    reveal_strlit("local");
    reveal_strlit("local ");
    reveal_strlit(" ");
    let rest3 = h[3] + " "@ + d;
    let rest2 = h[2] + " "@ + rest3;
    let rest1 = h[1] + " "@ + rest2;
    let s = symbol::in_package(h, d);
    symbol::lemma_field(h[0], rest1);
    symbol::lemma_field(h[1], rest2);
    symbol::lemma_field(h[2], rest3);
    symbol::lemma_field(h[3], d);
    reveal_with_fuel(symbol::split_fields, 5);
    assert(symbol::fields(s).len() == 5);
    assert(symbol::fields(s)[3] == h[3]);
    assert(symbol::is_field(h[0]));
    if h[0] == "local"@ {
        assert(s.take(6) =~= "local "@);
    }
    if symbol::is_local(s) {
        assert forall|i: int| 0 <= i < 6 implies #[trigger] s[i] == "local "@[i] by {
            assert(s.take(6)[i] == s[i]);
        }
        assert(s[5] == ' ');
        if h[0].len() > 5 {
            assert(h[0][5] == s[5]);
        } else if h[0].len() < 5 {
            assert(s[h[0].len() as int] == ' ');
        }
        assert(h[0] =~= "local"@);
    }
}

/// A function or a global of C's global namespace has its name as C identifier,
/// whatever hash tells it apart. A symbol with another scheme, package or
/// version has none, nor has one whose name is followed by something else.
pub proof fn law_c_identifiers(
    name: Seq<char>,
    hash: Seq<char>,
    h: Seq<Seq<char>>,
    d: Seq<char>,
    other: Seq<char>,
)
    requires
        is_plain_name(name),
        !hash.contains(')'),
        symbol::is_package(h),
        h[0] != "cxx"@ || h[1] != "."@ || h[2] != "."@ || h[3] != "$"@,
        other.len() > 0,
        other[0] == '/' || other[0] == '#' || other[0] == ':' || other[0] == '[' || other[0] == '!',
    ensures
        symbol::c_name_of("cxx . . $ "@ + (name + seq!['('] + hash + seq![')', '.'])) == Some(name),
        symbol::c_name_of("cxx . . $ "@ + (name + seq!['.'])) == Some(name),
        symbol::c_name_of("cxx . . $ "@ + (name + other)) is None,
        symbol::c_name_of("cxx . . $ "@ + other) is None,
        symbol::c_name_of(symbol::in_package(h, d)) is None,
{
    reveal_strlit(".");
    let f = seq!['('] + hash + seq![')', '.'];
    let d1 = name + seq!['('] + hash + seq![')', '.'];
    assert(d1 =~= name + f);
    symbol::lemma_clang_descriptors(d1);
    lemma_leading(name, f);
    assert(d1.skip(name.len() as int) =~= f);
    assert(f.skip(1) =~= hash + seq![')', '.']);
    lemma_before(hash, seq![')', '.'], ')');
    assert(f.skip(1)[hash.len() as int] == ')');
    assert(f.skip(1).skip(hash.len() as int + 1) =~= "."@);
    let d2 = name + seq!['.'];
    symbol::lemma_clang_descriptors(d2);
    lemma_leading(name, seq!['.']);
    assert(d2.skip(name.len() as int) =~= "."@);
    let d3 = name + other;
    symbol::lemma_clang_descriptors(d3);
    lemma_leading(name, other);
    assert(d3.skip(name.len() as int) =~= other);
    symbol::lemma_clang_descriptors(other);
    lemma_leading(Seq::empty(), other);
    assert(Seq::<char>::empty() + other =~= other);
    // Another package.
    let rest3 = h[3] + " "@ + d;
    let rest2 = h[2] + " "@ + rest3;
    let rest1 = h[1] + " "@ + rest2;
    symbol::lemma_field(h[0], rest1);
    symbol::lemma_field(h[1], rest2);
    symbol::lemma_field(h[2], rest3);
    symbol::lemma_field(h[3], d);
    reveal_with_fuel(symbol::split_fields, 5);
    let s = symbol::in_package(h, d);
    assert(symbol::fields(s)[0] == h[0]);
    assert(symbol::fields(s)[1] == h[1]);
    assert(symbol::fields(s)[2] == h[2]);
    assert(symbol::fields(s)[3] == h[3]);
}

/// The hash of a C function may stand without a dot behind it, but with nothing
/// else; and a name needs one of the two ends.
pub proof fn law_c_identifier_ends(name: Seq<char>, hash: Seq<char>, tail: Seq<char>)
    requires
        is_plain_name(name),
        !hash.contains(')'),
        tail.len() > 0,
        tail != "."@,
    ensures
        symbol::c_name_of("cxx . . $ "@ + (name + seq!['('] + hash + seq![')'])) == Some(name),
        symbol::c_name_of("cxx . . $ "@ + (name + seq!['('] + hash + seq![')'] + tail)) is None,
        symbol::c_name_of("cxx . . $ "@ + (name + seq!['('] + hash)) is None,
        symbol::c_name_of("cxx . . $ "@ + name) is None,
{
    reveal_strlit(".");
    let n = name.len() as int;
    let none = Seq::<char>::empty();
    let f1 = seq!['('] + hash + seq![')'];
    let d1 = name + seq!['('] + hash + seq![')'];
    assert(d1 =~= name + f1);
    symbol::lemma_clang_descriptors(d1);
    lemma_leading(name, f1);
    assert(d1.skip(n) =~= f1);
    assert(f1.skip(1) =~= hash + seq![')']);
    lemma_before(hash, seq![')'], ')');
    assert(f1.skip(1)[hash.len() as int] == ')');
    let f2 = seq!['('] + hash + seq![')'] + tail;
    let d2 = name + seq!['('] + hash + seq![')'] + tail;
    assert(d2 =~= name + f2);
    symbol::lemma_clang_descriptors(d2);
    lemma_leading(name, f2);
    assert(d2.skip(n) =~= f2);
    assert(f2.skip(1) =~= hash + (seq![')'] + tail));
    lemma_before(hash, seq![')'] + tail, ')');
    assert(f2.skip(1).skip(hash.len() as int + 1) =~= tail);
    assert(f2[0] != "."@[0]);
    let f3 = seq!['('] + hash;
    let d3 = name + seq!['('] + hash;
    assert(d3 =~= name + f3);
    symbol::lemma_clang_descriptors(d3);
    lemma_leading(name, f3);
    assert(d3.skip(n) =~= f3);
    assert(f3.skip(1) =~= hash);
    assert(f3[0] != "."@[0]);
    symbol::lemma_clang_descriptors(name);
    lemma_leading(name, none);
    assert(name + none =~= name);
    assert(name.skip(n).len() == 0);
    assert("."@.len() == 1);
}

/// A plain name is all that stands before a character that is not plain.
proof fn lemma_leading(name: Seq<char>, tail: Seq<char>)
    requires
        forall|i: int| 0 <= i < name.len() ==> is_plain_char(#[trigger] name[i]),
        tail.len() > 0 ==> !is_plain_char(tail[0]),
    ensures
        symbol::leading_name(name + tail) == name,
    decreases name.len(),
{
    let all = name + tail;
    if name.len() > 0 {
        assert(is_plain_char(name[0]));
        assert(all.skip(1) =~= name.skip(1) + tail);
        assert forall|i: int| 0 <= i < name.skip(1).len() implies is_plain_char(
            #[trigger] name.skip(1)[i],
        ) by {
            assert(name.skip(1)[i] == name[i + 1]);
        }
        lemma_leading(name.skip(1), tail);
        assert(seq![name[0]] + name.skip(1) =~= name);
    } else {
        assert(all =~= tail);
    }
}

/// What stands before the first `c`.
pub proof fn lemma_before(a: Seq<char>, y: Seq<char>, c: char)
    requires
        !a.contains(c),
        y.len() > 0 ==> y[0] == c,
    ensures
        symbol::before_char(a + y, c) == a,
    decreases a.len(),
{
    let s = a + y;
    if a.len() == 0 {
        assert(s =~= y);
        assert(symbol::before_char(s, c) =~= a);
    } else {
        assert(a.contains(a[0]));
        let rest = a.skip(1);
        assert(s.skip(1) =~= rest + y);
        assert forall|i: int| 0 <= i < rest.len() implies rest[i] != c by {
            assert(a.contains(a[i + 1]));
        }
        lemma_before(rest, y, c);
        assert(seq![s[0]] + rest =~= a);
    }
}

/// What a descriptor names is its name, whatever stands behind it and whatever
/// punctuation before it.
pub proof fn law_descriptor_core(front: Seq<char>, name: Seq<char>, tail: Seq<char>)
    requires
        forall|i: int|
            0 <= i < front.len() ==> (#[trigger] front[i]) == '.' || front[i] == ':' || front[i]
                == '!',
        name.len() > 0,
        !name.contains('('),
        name[0] != '.' && name[0] != ':' && name[0] != '!',
        is_tail(tail),
    ensures
        symbol::descriptor_core(front + name + tail) == name,
{
    reveal_strlit(".:!");
    let set = ".:!"@;
    let rest = name + tail;
    assert(front + name + tail =~= front + rest);
    lemma_front_dropped(front, rest, set);
    if tail.len() == 1 {
        assert(!rest.contains('(')) by {
            if rest.contains('(') {
                let i = rest.index_of('(');
                if i < name.len() {
                    assert(name[i] == '(');
                }
            }
        }
        lemma_before(rest, Seq::empty(), '(');
        assert(rest + Seq::<char>::empty() =~= rest);
        assert(rest.drop_last() =~= name);
        assert(rest.last() == tail[0]);
    } else {
        lemma_before(name, tail, '(');
    }
}

/// Leading characters of a set are dropped.
proof fn lemma_front_dropped(front: Seq<char>, rest: Seq<char>, set: Seq<char>)
    requires
        set == ".:!"@,
        forall|i: int|
            0 <= i < front.len() ==> (#[trigger] front[i]) == '.' || front[i] == ':' || front[i]
                == '!',
        rest.len() > 0,
        rest[0] != '.' && rest[0] != ':' && rest[0] != '!',
    ensures
        text::trimmed_start_of(front + rest, set) == rest,
    decreases front.len(),
{
    reveal_strlit(".:!");
    let s = front + rest;
    assert(set[0] == '.' && set[1] == ':' && set[2] == '!');
    assert(!set.contains(rest[0])) by {
        if set.contains(rest[0]) {
            let k = set.index_of(rest[0]);
            assert(set[k] == rest[0]);
        }
    }
    if front.len() == 0 {
        assert(s =~= rest);
    } else {
        assert(s[0] == front[0]);
        assert(set.contains(s[0]));
        assert(s.skip(1) =~= front.skip(1) + rest);
        assert forall|i: int| 0 <= i < front.skip(1).len() implies (#[trigger] front.skip(1)[i])
            == '.' || front.skip(1)[i] == ':' || front.skip(1)[i] == '!' by {
            assert(front.skip(1)[i] == front[i + 1]);
        }
        lemma_front_dropped(front.skip(1), rest, set);
    }
}

} // verus!
