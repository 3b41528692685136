//! Text helpers over sequences of characters.
//!
//! A string is handled as its characters: `chars_of` opens a `&str`, the
//! functions here cut and compare slices of it, and `string_of` closes one
//! again. Each function has a spec function beside it that says what it
//! computes on `Seq<char>`.

use vstd::prelude::*;
use vstd::utf8::*;

verus! {

broadcast use vstd::string::group_string_axioms;

/// `String::push` appends one character.
pub assume_specification[ String::push ](s: &mut String, c: char)
    ensures
        final(s)@ == old(s)@.push(c),
;

/// The error of `std::str::from_utf8`, carried through and never looked into.
#[verifier::external_type_specification]
#[verifier::external_body]
pub struct ExUtf8Error(std::str::Utf8Error);

/// `std::str::from_utf8` succeeds exactly on valid UTF-8, and then yields the
/// text whose encoding the bytes are.
pub assume_specification[ std::str::from_utf8 ](v: &[u8]) -> (r: Result<&str, std::str::Utf8Error>)
    ensures
        r is Ok <==> valid_utf8(v@),
        r matches Ok(s) ==> s@ == decode_utf8(v@),
;

/// The characters of an optional string.
pub open spec fn opt_view(s: Option<String>) -> Option<Seq<char>> {
    match s {
        Some(s) => Some(s@),
        None => None,
    }
}

/// The characters of an optional borrowed string.
pub open spec fn opt_str_view(s: Option<&str>) -> Option<Seq<char>> {
    match s {
        Some(s) => Some(s@),
        None => None,
    }
}

/// The characters of an optional slice.
pub open spec fn opt_slice_view(s: Option<&[char]>) -> Option<Seq<char>> {
    match s {
        Some(s) => Some(s@),
        None => None,
    }
}

/// The first of two values that is there.
pub open spec fn or_else(a: Option<Seq<char>>, b: Option<Seq<char>>) -> Option<Seq<char>> {
    match a {
        Some(v) => Some(v),
        None => b,
    }
}

/// The characters of each string of a list.
pub open spec fn strings_view(v: Seq<String>) -> Seq<Seq<char>> {
    v.map_values(|s: String| s@)
}

/// The characters of each slice of a list.
pub open spec fn slices_view(v: Seq<&[char]>) -> Seq<Seq<char>> {
    v.map_values(|s: &[char]| s@)
}

/// The characters of a string.
pub fn chars_of(s: &str) -> (r: Vec<char>)
    ensures
        r@ == s@,
{
    let mut r: Vec<char> = Vec::new();
    for c in it: s.chars()
        invariant
            r@ == it.seq().take(it.index() as int),
            it.seq() == s@,
    {
        r.push(c);
    }
    r
}

/// The string made of some characters.
pub fn string_of(s: &[char]) -> (r: String)
    ensures
        r@ == s@,
{
    let mut r = String::new();
    let mut i: usize = 0;
    while i < s.len()
        invariant
            0 <= i <= s@.len(),
            r@ == s@.take(i as int),
        decreases s.len() - i,
    {
        r.push(s[i]);
        i += 1;
        assert(s@.take(i as int) =~= s@.take(i - 1).push(s@[i - 1]));
    }
    assert(s@.take(s@.len() as int) =~= s@);
    r
}

/// Two strings with the same encoding hold the same characters.
pub proof fn lemma_encode_injective(a: Seq<char>, b: Seq<char>)
    requires
        encode_utf8(a) == encode_utf8(b),
    ensures
        a == b,
{
    encode_utf8_decode_utf8(a);
    encode_utf8_decode_utf8(b);
}

/// Whether two strings hold the same characters.
pub fn str_eq(a: &str, b: &str) -> (r: bool)
    ensures
        r == (a@ == b@),
{
    let x = a.as_bytes();
    let y = b.as_bytes();
    if x.len() != y.len() {
        return false;
    }
    let mut i: usize = 0;
    while i < x.len()
        invariant
            0 <= i <= x@.len(),
            x@.len() == y@.len(),
            x@ == encode_utf8(a@),
            y@ == encode_utf8(b@),
            forall|j: int| 0 <= j < i ==> x@[j] == y@[j],
        decreases x.len() - i,
    {
        if x[i] != y[i] {
            return false;
        }
        i += 1;
    }
    proof {
        assert(x@ =~= y@);
        lemma_encode_injective(a@, b@);
    }
    true
}

/// Whether a slice holds exactly the characters of a string.
pub fn is_text(s: &[char], t: &str) -> (r: bool)
    ensures
        r == (s@ == t@),
{
    let t = chars_of(t);
    s.len() == t.len() && starts_with_chars(s, &t)
}

/// Whether `s` begins with `p`.
pub open spec fn has_prefix(s: Seq<char>, p: Seq<char>) -> bool {
    p.len() <= s.len() && s.take(p.len() as int) == p
}

/// Whether `s` begins with the characters `p`.
pub fn starts_with_chars(s: &[char], p: &[char]) -> (r: bool)
    ensures
        r == has_prefix(s@, p@),
        s@.len() == p@.len() ==> r == (s@ == p@),
{
    if s.len() < p.len() {
        return false;
    }
    let mut i: usize = 0;
    while i < p.len()
        invariant
            0 <= i <= p@.len() <= s@.len(),
            forall|j: int| 0 <= j < i ==> s@[j] == p@[j],
        decreases p.len() - i,
    {
        if s[i] != p[i] {
            assert(s@.take(p@.len() as int)[i as int] != p@[i as int]);
            assert(s@ != p@);
            return false;
        }
        i += 1;
    }
    assert(s@.take(p@.len() as int) =~= p@);
    assert(s@.len() == p@.len() ==> s@ =~= p@);
    true
}

/// Whether `s` begins with the string `p`.
pub fn starts_with(s: &[char], p: &str) -> (r: bool)
    ensures
        r == has_prefix(s@, p@),
{
    let p = chars_of(p);
    starts_with_chars(s, &p)
}

/// What follows the prefix `p` in `s`, if `s` begins with it.
pub open spec fn after_prefix(s: Seq<char>, p: Seq<char>) -> Option<Seq<char>> {
    if has_prefix(s, p) {
        Some(s.skip(p.len() as int))
    } else {
        None
    }
}

/// What follows the prefix `p` in `s`, if `s` begins with it.
pub fn strip_prefix<'a>(s: &'a [char], p: &str) -> (r: Option<&'a [char]>)
    ensures
        opt_slice_view(r) == after_prefix(s@, p@),
{
    let p = chars_of(p);
    if starts_with_chars(s, &p) {
        let rest = &s[p.len()..s.len()];
        assert(rest@ =~= s@.skip(p@.len() as int));
        Some(rest)
    } else {
        None
    }
}

/// Whether `s` ends with `p`.
pub open spec fn has_suffix(s: Seq<char>, p: Seq<char>) -> bool {
    p.len() <= s.len() && s.skip(s.len() - p.len()) == p
}

/// Whether `s` ends with the string `p`.
pub fn ends_with(s: &[char], p: &str) -> (r: bool)
    ensures
        r == has_suffix(s@, p@),
{
    let p = chars_of(p);
    if s.len() < p.len() {
        return false;
    }
    let tail = &s[s.len() - p.len()..s.len()];
    assert(tail@ =~= s@.skip(s@.len() - p@.len()));
    starts_with_chars(tail, &p)
}

/// Whether `c` has the Unicode property `White_Space`.
pub open spec fn white_space(c: char) -> bool {
    ||| '\u{9}' <= c <= '\u{d}'
    ||| c == ' '
    ||| c == '\u{85}'
    ||| c == '\u{a0}'
    ||| c == '\u{1680}'
    ||| '\u{2000}' <= c <= '\u{200a}'
    ||| c == '\u{2028}'
    ||| c == '\u{2029}'
    ||| c == '\u{202f}'
    ||| c == '\u{205f}'
    ||| c == '\u{3000}'
}

/// Whether `c` has the Unicode property `White_Space`.
pub fn is_white_space(c: char) -> (r: bool)
    ensures
        r == white_space(c),
{
    ('\u{9}' <= c && c <= '\u{d}') || c == ' ' || c == '\u{85}' || c == '\u{a0}' || c == '\u{1680}'
        || ('\u{2000}' <= c && c <= '\u{200a}') || c == '\u{2028}' || c == '\u{2029}'
        || c == '\u{202f}' || c == '\u{205f}' || c == '\u{3000}'
}

/// `s` without its leading white space.
pub open spec fn trimmed_start(s: Seq<char>) -> Seq<char>
    decreases s.len(),
{
    if s.len() > 0 && white_space(s[0]) {
        trimmed_start(s.skip(1))
    } else {
        s
    }
}

/// Dropping white space does not lengthen a text.
pub proof fn lemma_trimmed_start_len(s: Seq<char>)
    ensures
        trimmed_start(s).len() <= s.len(),
    decreases s.len(),
{
    if s.len() > 0 && white_space(s[0]) {
        lemma_trimmed_start_len(s.skip(1));
    }
}

/// `s` without its trailing white space.
pub open spec fn trimmed_end(s: Seq<char>) -> Seq<char>
    decreases s.len(),
{
    if s.len() > 0 && white_space(s.last()) {
        trimmed_end(s.drop_last())
    } else {
        s
    }
}

/// `s` without white space at either end.
pub open spec fn trimmed(s: Seq<char>) -> Seq<char> {
    trimmed_end(trimmed_start(s))
}

/// `s` without its leading white space.
pub fn trim_start(s: &[char]) -> (r: &[char])
    ensures
        r@ == trimmed_start(s@),
{
    let mut i: usize = 0;
    assert(s@.skip(0) =~= s@);
    while i < s.len() && is_white_space(s[i])
        invariant
            0 <= i <= s@.len(),
            trimmed_start(s@) == trimmed_start(s@.skip(i as int)),
        decreases s.len() - i,
    {
        assert(s@.skip(i as int).skip(1) =~= s@.skip(i + 1));
        i += 1;
    }
    let r = &s[i..s.len()];
    assert(r@ =~= s@.skip(i as int));
    r
}

/// `s` without its trailing white space.
pub fn trim_end(s: &[char]) -> (r: &[char])
    ensures
        r@ == trimmed_end(s@),
{
    let mut n: usize = s.len();
    assert(s@.take(n as int) =~= s@);
    while n > 0 && is_white_space(s[n - 1])
        invariant
            0 <= n <= s@.len(),
            trimmed_end(s@) == trimmed_end(s@.take(n as int)),
        decreases n,
    {
        assert(s@.take(n as int).drop_last() =~= s@.take(n - 1));
        n -= 1;
    }
    let r = &s[0..n];
    assert(r@ =~= s@.take(n as int));
    r
}

/// `s` without white space at either end.
pub fn trim(s: &[char]) -> (r: &[char])
    ensures
        r@ == trimmed(s@),
{
    trim_end(trim_start(s))
}

/// The position of the first occurrence of `p` in `s`.
pub open spec fn first_index(s: Seq<char>, p: Seq<char>) -> Option<int>
    decreases s.len(),
{
    if has_prefix(s, p) {
        Some(0)
    } else if s.len() == 0 {
        None
    } else {
        match first_index(s.skip(1), p) {
            Some(i) => Some(i + 1),
            None => None,
        }
    }
}

/// A position that `first_index` finds is one where `p` stands, and no
/// earlier one is.
pub proof fn lemma_first_index(s: Seq<char>, p: Seq<char>)
    ensures
        first_index(s, p) matches Some(i) ==> {
            &&& 0 <= i
            &&& i + p.len() <= s.len()
            &&& s.subrange(i, i + p.len()) == p
            &&& forall|j: int| 0 <= j < i ==> !has_prefix(#[trigger] s.skip(j), p)
        },
        first_index(s, p) is None ==> forall|j: int|
            0 <= j <= s.len() ==> !has_prefix(#[trigger] s.skip(j), p),
    decreases s.len(),
{
    assert(s.skip(0) =~= s);
    if has_prefix(s, p) {
        assert(s.subrange(0, p.len() as int) =~= s.take(p.len() as int));
    } else if s.len() > 0 {
        lemma_first_index(s.skip(1), p);
        assert forall|j: int| 0 < j <= s.len() implies s.skip(j) == #[trigger] s.skip(1).skip(
            j - 1,
        ) by {
            assert(s.skip(j) =~= s.skip(1).skip(j - 1));
        }
        match first_index(s.skip(1), p) {
            Some(i) => {
                assert(s.subrange(i + 1, i + 1 + p.len()) =~= s.skip(1).subrange(i, i + p.len()));
                assert forall|j: int| 0 <= j < i + 1 implies !has_prefix(#[trigger] s.skip(j), p) by {
                    if j > 0 {
                        assert(s.skip(j) == s.skip(1).skip(j - 1));
                    }
                }
            },
            None => {
                assert forall|j: int| 0 <= j <= s.len() implies !has_prefix(
                    #[trigger] s.skip(j),
                    p,
                ) by {
                    if j > 0 {
                        assert(s.skip(j) == s.skip(1).skip(j - 1));
                    }
                }
            },
        }
    }
}

/// The position of the first occurrence of the characters `p` in `s`.
pub fn find_chars(s: &[char], p: &[char]) -> (r: Option<usize>)
    ensures
        r matches Some(i) ==> first_index(s@, p@) == Some(i as int) && i + p@.len() <= s@.len(),
        r is None ==> first_index(s@, p@) is None,
{
    let mut i: usize = 0;
    assert(s@.skip(0) =~= s@);
    proof {
        lemma_first_index(s@, p@);
    }
    while i < s.len()
        invariant
            0 <= i <= s@.len(),
            first_index(s@, p@) == (match first_index(s@.skip(i as int), p@) {
                Some(k) => Some(k + i),
                None => None::<int>,
            }),
            first_index(s@, p@) matches Some(k) ==> k + p@.len() <= s@.len(),
        decreases s.len() - i,
    {
        let rest = &s[i..s.len()];
        assert(rest@ =~= s@.skip(i as int));
        if starts_with_chars(rest, p) {
            return Some(i);
        }
        assert(s@.skip(i as int).skip(1) =~= s@.skip(i + 1));
        i += 1;
    }
    if p.len() == 0 {
        assert(s@.skip(i as int).take(0) =~= p@);
        Some(i)
    } else {
        None
    }
}

/// The position of the first occurrence of the string `p` in `s`.
pub fn find(s: &[char], p: &str) -> (r: Option<usize>)
    ensures
        r matches Some(i) ==> first_index(s@, p@) == Some(i as int) && i + p@.len() <= s@.len(),
        r is None ==> first_index(s@, p@) is None,
{
    let p = chars_of(p);
    find_chars(s, &p)
}

/// Whether the string `p` occurs in `s`.
pub fn contains(s: &[char], p: &str) -> (r: bool)
    ensures
        r == (first_index(s@, p@) is Some),
{
    find(s, p).is_some()
}

/// The position of the last occurrence of `p` in `s`.
pub open spec fn last_index(s: Seq<char>, p: Seq<char>) -> Option<int>
    decreases s.len(),
{
    if has_suffix(s, p) {
        Some(s.len() - p.len())
    } else if s.len() == 0 {
        None
    } else {
        last_index(s.drop_last(), p)
    }
}

/// What follows the last occurrence of `p` in `s`, or all of `s`.
pub open spec fn after_last(s: Seq<char>, p: Seq<char>) -> Seq<char> {
    match last_index(s, p) {
        Some(i) => s.skip(i + p.len()),
        None => s,
    }
}

/// What follows the last occurrence of the string `p` in `s`, or all of `s`.
pub fn tail_after<'a>(s: &'a [char], p: &str) -> (r: &'a [char])
    ensures
        r@ == after_last(s@, p@),
{
    let mut n: usize = s.len();
    assert(s@.take(n as int) =~= s@);
    while n > 0
        invariant
            0 <= n <= s@.len(),
            last_index(s@, p@) == last_index(s@.take(n as int), p@),
        decreases n,
    {
        let head = &s[0..n];
        assert(head@ =~= s@.take(n as int));
        if ends_with(head, p) {
            let r = &s[n..s.len()];
            assert(r@ =~= s@.skip(n as int));
            return r;
        }
        assert(s@.take(n as int).drop_last() =~= s@.take(n - 1));
        n -= 1;
    }
    assert(s@.skip(0) =~= s@);
    s
}

/// What follows the last character of `s` that is in `set`, or all of `s`.
pub open spec fn after_last_of(s: Seq<char>, set: Seq<char>) -> Seq<char>
    decreases s.len(),
{
    if s.len() == 0 || set.contains(s.last()) {
        Seq::empty()
    } else {
        after_last_of(s.drop_last(), set).push(s.last())
    }
}

/// Whether the characters of `s` hold `c`.
pub fn has_char(s: &[char], c: char) -> (r: bool)
    ensures
        r == s@.contains(c),
{
    let mut i: usize = 0;
    while i < s.len()
        invariant
            0 <= i <= s@.len(),
            forall|j: int| 0 <= j < i ==> s@[j] != c,
        decreases s.len() - i,
    {
        if s[i] == c {
            return true;
        }
        i += 1;
    }
    false
}

/// What follows the last character of `s` that is in `set`, or all of `s`.
pub fn tail_after_any<'a>(s: &'a [char], set: &str) -> (r: &'a [char])
    ensures
        r@ == after_last_of(s@, set@),
{
    let set = chars_of(set);
    let mut n: usize = s.len();
    assert(s@.take(n as int) =~= s@);
    assert(s@.skip(n as int) =~= Seq::empty());
    while n > 0 && !has_char(&set, s[n - 1])
        invariant
            0 <= n <= s@.len(),
            after_last_of(s@, set@) =~= after_last_of(s@.take(n as int), set@) + s@.skip(n as int),
        decreases n,
    {
        assert(s@.take(n as int).drop_last() =~= s@.take(n - 1));
        assert(s@.skip(n - 1) =~= seq![s@[n - 1]] + s@.skip(n as int));
        n -= 1;
    }
    let r = &s[n..s.len()];
    assert(r@ =~= s@.skip(n as int));
    r
}

/// The first place of a character, where `p` is that character alone.
pub proof fn lemma_first_char(s: Seq<char>, p: Seq<char>, n: int)
    requires
        p.len() == 1,
        0 <= n < s.len(),
        s[n] == p[0],
        forall|i: int| 0 <= i < n ==> s[i] != p[0],
    ensures
        first_index(s, p) == Some(n),
    decreases n,
{
    if n == 0 {
        assert(s.take(1) =~= p);
    } else {
        assert(s.take(1)[0] != p[0]);
        lemma_first_char(s.skip(1), p, n - 1);
    }
}

/// A character that is not there has no place, where `p` is that character
/// alone.
pub proof fn lemma_no_char(s: Seq<char>, p: Seq<char>)
    requires
        p.len() == 1,
        forall|i: int| 0 <= i < s.len() ==> s[i] != p[0],
    ensures
        first_index(s, p) is None,
    decreases s.len(),
{
    if s.len() > 0 {
        assert(s.take(1)[0] != p[0]);
        lemma_no_char(s.skip(1), p);
    }
}

/// The pieces of `s` between the occurrences of `sep`.
pub open spec fn split_text(s: Seq<char>, sep: Seq<char>) -> Seq<Seq<char>>
    decreases s.len(),
{
    if sep.len() == 0 {
        seq![s]
    } else {
        match first_index(s, sep) {
            Some(i) => if 0 <= i && i + sep.len() <= s.len() {
                seq![s.take(i)] + split_text(s.skip(i + sep.len()), sep)
            } else {
                seq![s]
            },
            None => seq![s],
        }
    }
}

/// The pieces of `s` between the occurrences of the string `sep`.
pub fn split<'a>(s: &'a [char], sep: &str) -> (r: Vec<&'a [char]>)
    requires
        sep@.len() > 0,
    ensures
        slices_view(r@) == split_text(s@, sep@),
        r@.len() > 0,
{
    let sep = chars_of(sep);
    let mut r: Vec<&'a [char]> = Vec::new();
    let mut rest: &'a [char] = s;
    assert(slices_view(r@) =~= Seq::empty());
    loop
        invariant
            sep@.len() > 0,
            split_text(s@, sep@) =~= slices_view(r@) + split_text(rest@, sep@),
        ensures
            split_text(s@, sep@) =~= slices_view(r@) + seq![rest@],
        decreases rest@.len(),
    {
        match find_chars(rest, &sep) {
            Some(i) => {
                let n = rest.len();
                let head = &rest[0..i];
                let tail = &rest[i + sep.len()..n];
                assert(head@ =~= rest@.take(i as int));
                assert(tail@ =~= rest@.skip(i + sep@.len()));
                let ghost before = slices_view(r@);
                r.push(head);
                assert(slices_view(r@) =~= before.push(head@));
                rest = tail;
            },
            None => {
                break;
            },
        }
    }
    let ghost before = slices_view(r@);
    r.push(rest);
    assert(slices_view(r@) =~= before.push(rest@));
    r
}

/// The pieces joined again, with `sep` between them.
pub open spec fn joined(parts: Seq<Seq<char>>, sep: Seq<char>) -> Seq<char>
    decreases parts.len(),
{
    if parts.len() == 0 {
        Seq::empty()
    } else if parts.len() == 1 {
        parts[0]
    } else {
        joined(parts.drop_last(), sep) + sep + parts.last()
    }
}

/// `s` with each occurrence of `from` replaced by `to`.
pub open spec fn replaced(s: Seq<char>, from: Seq<char>, to: Seq<char>) -> Seq<char> {
    joined(split_text(s, from), to)
}

/// `s` with each occurrence of `from` replaced by `to`.
pub fn replace(s: &[char], from: &str, to: &str) -> (r: Vec<char>)
    requires
        from@.len() > 0,
    ensures
        r@ == replaced(s@, from@, to@),
{
    let parts = split(s, from);
    let to = chars_of(to);
    let mut r: Vec<char> = Vec::new();
    let ghost views = slices_view(parts@);
    r.extend_from_slice(parts[0]);
    assert(r@ =~= views[0]);
    assert(views.take(1) =~= seq![views[0]]);
    let mut i: usize = 1;
    while i < parts.len()
        invariant
            1 <= i <= parts@.len(),
            views == slices_view(parts@),
            r@ == joined(views.take(i as int), to@),
        decreases parts.len() - i,
    {
        let ghost before = r@;
        r.extend_from_slice(&to);
        assert(r@ =~= before + to@);
        r.extend_from_slice(parts[i]);
        assert(r@ =~= before + to@ + views[i as int]);
        i += 1;
        assert(views.take(i as int).drop_last() =~= views.take(i - 1));
    }
    assert(views.take(i as int) =~= views);
    r
}

/// `s` without the characters of `set` at either end: first the front.
pub open spec fn trimmed_start_of(s: Seq<char>, set: Seq<char>) -> Seq<char>
    decreases s.len(),
{
    if s.len() > 0 && set.contains(s[0]) {
        trimmed_start_of(s.skip(1), set)
    } else {
        s
    }
}

/// `s` without the characters of `set` at its end.
pub open spec fn trimmed_end_of(s: Seq<char>, set: Seq<char>) -> Seq<char>
    decreases s.len(),
{
    if s.len() > 0 && set.contains(s.last()) {
        trimmed_end_of(s.drop_last(), set)
    } else {
        s
    }
}

/// `s` without the characters of `set` at either end.
pub open spec fn trimmed_of(s: Seq<char>, set: Seq<char>) -> Seq<char> {
    trimmed_end_of(trimmed_start_of(s, set), set)
}

/// `s` without the characters of `set` at its front.
pub fn trim_start_of<'a>(s: &'a [char], set: &str) -> (r: &'a [char])
    ensures
        r@ == trimmed_start_of(s@, set@),
{
    let set = chars_of(set);
    let mut i: usize = 0;
    assert(s@.skip(0) =~= s@);
    while i < s.len() && has_char(&set, s[i])
        invariant
            0 <= i <= s@.len(),
            trimmed_start_of(s@, set@) == trimmed_start_of(s@.skip(i as int), set@),
        decreases s.len() - i,
    {
        assert(s@.skip(i as int).skip(1) =~= s@.skip(i + 1));
        i += 1;
    }
    let r = &s[i..s.len()];
    assert(r@ =~= s@.skip(i as int));
    r
}

/// `s` without the characters of `set` at either end.
pub fn trim_of<'a>(s: &'a [char], set: &str) -> (r: &'a [char])
    ensures
        r@ == trimmed_of(s@, set@),
{
    let s = trim_start_of(s, set);
    let set = chars_of(set);
    let mut n: usize = s.len();
    assert(s@.take(n as int) =~= s@);
    while n > 0 && has_char(&set, s[n - 1])
        invariant
            0 <= n <= s@.len(),
            trimmed_end_of(s@, set@) == trimmed_end_of(s@.take(n as int), set@),
        decreases n,
    {
        assert(s@.take(n as int).drop_last() =~= s@.take(n - 1));
        n -= 1;
    }
    let r = &s[0..n];
    assert(r@ =~= s@.take(n as int));
    r
}

/// A line without the carriage return at its end.
pub open spec fn without_cr(s: Seq<char>) -> Seq<char> {
    if s.len() > 0 && s.last() == '\r' {
        s.drop_last()
    } else {
        s
    }
}

/// The position of the first line feed in `s`.
pub open spec fn newline_index(s: Seq<char>) -> Option<int>
    decreases s.len(),
{
    if s.len() == 0 {
        None
    } else if s[0] == '\n' {
        Some(0)
    } else {
        match newline_index(s.skip(1)) {
            Some(i) => Some(i + 1),
            None => None,
        }
    }
}

/// The lines of `s`: each ends at a line feed, which is dropped together with
/// a carriage return before it; what follows the last line feed is a line
/// unless it is empty.
pub open spec fn lines_of(s: Seq<char>) -> Seq<Seq<char>>
    decreases s.len(),
{
    if s.len() == 0 {
        Seq::empty()
    } else {
        match newline_index(s) {
            Some(i) => if 0 <= i < s.len() {
                seq![without_cr(s.take(i))] + lines_of(s.skip(i + 1))
            } else {
                seq![s]
            },
            None => seq![s],
        }
    }
}

/// The position of the first line feed in `s`.
pub fn find_newline(s: &[char]) -> (r: Option<usize>)
    ensures
        r matches Some(i) ==> newline_index(s@) == Some(i as int) && i < s@.len(),
        r is None ==> newline_index(s@) is None,
{
    let mut i: usize = 0;
    assert(s@.skip(0) =~= s@);
    while i < s.len()
        invariant
            0 <= i <= s@.len(),
            newline_index(s@) == (match newline_index(s@.skip(i as int)) {
                Some(k) => Some(k + i),
                None => None::<int>,
            }),
        decreases s.len() - i,
    {
        if s[i] == '\n' {
            return Some(i);
        }
        assert(s@.skip(i as int).skip(1) =~= s@.skip(i + 1));
        i += 1;
    }
    None
}

/// The lines of `s`.
pub fn lines<'a>(s: &'a [char]) -> (r: Vec<&'a [char]>)
    ensures
        slices_view(r@) == lines_of(s@),
{
    let mut r: Vec<&'a [char]> = Vec::new();
    let mut rest: &'a [char] = s;
    assert(slices_view(r@) =~= Seq::empty());
    while rest.len() > 0
        invariant
            lines_of(s@) =~= slices_view(r@) + lines_of(rest@),
        decreases rest@.len(),
    {
        let ghost before = slices_view(r@);
        match find_newline(rest) {
            Some(i) => {
                let mut end: usize = i;
                if i > 0 && rest[i - 1] == '\r' {
                    end = i - 1;
                }
                let line = &rest[0..end];
                let tail = &rest[i + 1..rest.len()];
                assert(rest@.take(i as int).drop_last() =~= rest@.take(i - 1) || i == 0);
                assert(line@ =~= without_cr(rest@.take(i as int)));
                assert(tail@ =~= rest@.skip(i + 1));
                r.push(line);
                assert(slices_view(r@) =~= before.push(line@));
                rest = tail;
            },
            None => {
                r.push(rest);
                assert(slices_view(r@) =~= before.push(rest@));
                let tail = &rest[rest.len()..rest.len()];
                assert(tail@ =~= Seq::empty());
                assert(lines_of(rest@) =~= seq![rest@]);
                rest = tail;
            },
        }
    }
    r
}

/// Copies of the strings of a list.
pub fn copy_strings(v: &Vec<String>) -> (r: Vec<String>)
    ensures
        strings_view(r@) == strings_view(v@),
{
    let mut r: Vec<String> = Vec::new();
    let mut i: usize = 0;
    while i < v.len()
        invariant
            0 <= i <= v@.len(),
            r@ =~= v@.take(i as int),
        decreases v.len() - i,
    {
        r.push(v[i].clone());
        i += 1;
    }
    assert(r@ =~= v@);
    r
}

/// Whether `a` comes before `b` in the order of their characters, which is
/// also the order of their UTF-8 bytes.
pub open spec fn precedes(a: Seq<char>, b: Seq<char>) -> bool
    decreases a.len(),
{
    if b.len() == 0 {
        false
    } else if a.len() == 0 {
        true
    } else if a[0] == b[0] {
        precedes(a.skip(1), b.skip(1))
    } else {
        a[0] < b[0]
    }
}

/// Of two texts one comes first, unless they are the same.
pub proof fn lemma_precedes_total(a: Seq<char>, b: Seq<char>)
    ensures
        precedes(a, b) || precedes(b, a) || a == b,
        !(precedes(a, b) && precedes(b, a)),
        a == b ==> !precedes(a, b),
    decreases a.len(),
{
    if a.len() > 0 && b.len() > 0 && a[0] == b[0] {
        lemma_precedes_total(a.skip(1), b.skip(1));
        if a.skip(1) == b.skip(1) {
            assert(a =~= seq![a[0]] + a.skip(1));
            assert(b =~= seq![b[0]] + b.skip(1));
        }
    } else if a.len() == 0 && b.len() == 0 {
        assert(a =~= b);
    }
}

/// The order of texts is transitive.
pub proof fn lemma_precedes_transitive(a: Seq<char>, b: Seq<char>, c: Seq<char>)
    requires
        precedes(a, b),
        precedes(b, c),
    ensures
        precedes(a, c),
    decreases a.len(),
{
    if a.len() > 0 && b.len() > 0 && c.len() > 0 && a[0] == b[0] && b[0] == c[0] {
        lemma_precedes_transitive(a.skip(1), b.skip(1), c.skip(1));
    }
}

/// Whether `a` comes before `b`.
pub fn comes_before(a: &str, b: &str) -> (r: bool)
    ensures
        r == precedes(a@, b@),
{
    let x = chars_of(a);
    let y = chars_of(b);
    let mut i: usize = 0;
    assert(x@.skip(0) =~= x@);
    assert(y@.skip(0) =~= y@);
    while i < x.len() && i < y.len() && x[i] == y[i]
        invariant
            0 <= i <= x@.len(),
            i <= y@.len(),
            precedes(x@, y@) == precedes(x@.skip(i as int), y@.skip(i as int)),
        decreases x.len() - i,
    {
        assert(x@.skip(i as int).skip(1) =~= x@.skip(i + 1));
        assert(y@.skip(i as int).skip(1) =~= y@.skip(i + 1));
        i += 1;
    }
    if i >= y.len() {
        false
    } else if i >= x.len() {
        true
    } else {
        x[i] < y[i]
    }
}

/// Whether a text is empty.
pub fn is_empty_text(s: &str) -> (r: bool)
    ensures
        r == (s@.len() == 0),
{
    let chars = chars_of(s);
    chars.len() == 0
}

/// Some texts, one after the other.
pub open spec fn concatenated(parts: Seq<Seq<char>>) -> Seq<char>
    decreases parts.len(),
{
    if parts.len() == 0 {
        Seq::empty()
    } else {
        concatenated(parts.drop_last()) + parts.last()
    }
}

/// Two strings, one after the other.
pub fn concat(a: &str, b: &str) -> (r: String)
    ensures
        r@ == a@ + b@,
{
    let mut all = chars_of(a);
    let tail = chars_of(b);
    all.extend_from_slice(&tail);
    assert(all@ =~= a@ + b@);
    string_of(&all)
}

/// The parts that are not empty.
pub open spec fn nonempty(parts: Seq<Seq<char>>) -> Seq<Seq<char>>
    decreases parts.len(),
{
    if parts.len() == 0 {
        Seq::empty()
    } else if parts.last().len() == 0 {
        nonempty(parts.drop_last())
    } else {
        nonempty(parts.drop_last()).push(parts.last())
    }
}

/// The pieces of `s` between the occurrences of `sep` that are not empty.
pub fn split_nonempty(s: &str, sep: &str) -> (r: Vec<String>)
    requires
        sep@.len() > 0,
    ensures
        strings_view(r@) == nonempty(split_text(s@, sep@)),
{
    let chars = chars_of(s);
    let parts = split(&chars, sep);
    let ghost views = slices_view(parts@);
    let mut r: Vec<String> = Vec::new();
    let mut i: usize = 0;
    assert(strings_view(r@) =~= nonempty(views.take(0)));
    while i < parts.len()
        invariant
            0 <= i <= parts@.len(),
            views == slices_view(parts@),
            strings_view(r@) == nonempty(views.take(i as int)),
        decreases parts.len() - i,
    {
        let ghost had = strings_view(r@);
        assert(views[i as int] == parts@[i as int]@);
        assert(views.take(i + 1).drop_last() =~= views.take(i as int));
        if parts[i].len() > 0 {
            let part = string_of(parts[i]);
            r.push(part);
            assert(strings_view(r@) =~= had.push(part@));
        }
        i += 1;
    }
    assert(views.take(i as int) =~= views);
    r
}

/// Whether the positions in a text can be counted in 32 bits.
pub open spec fn is_countable(text: Seq<char>) -> bool {
    encode_utf8(text).len() < u32::MAX
}

/// Whether the positions in a text can be counted in 32 bits.
pub fn fits_counters(text: &str) -> (r: bool)
    ensures
        r == is_countable(text@),
{
    text.as_bytes().len() < 0xffff_ffff
}

} // verus!
