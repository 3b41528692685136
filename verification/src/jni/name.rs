//! The names of exported JNI functions.
//!
//! A native method `bar` of the class `com.example.Foo` is exported as
//! `Java_com_example_Foo_bar`: components are joined by `_`, and inside a
//! component `_1` stands for `_`, `_2` for `;`, `_3` for `[` and `_0xxxx` for
//! the character with that hexadecimal code. `__` starts the mangled
//! signature of an overloaded method.

use crate::text;
use vstd::prelude::*;

verus! {

/// A demangled JNI export name.
#[derive(Debug, Clone, PartialEq, Eq)]
pub struct JniName {
    pub class: Vec<String>,
    pub method: String,
}

/// What a [`JniName`] holds.
#[verifier::ext_equal]
pub struct JniNameView {
    pub class: Seq<Seq<char>>,
    pub method: Seq<char>,
}

impl View for JniName {
    type V = JniNameView;

    open spec fn view(&self) -> JniNameView {
        JniNameView { class: text::strings_view(self.class@), method: self.method@ }
    }
}

/// What an optional name holds.
pub open spec fn opt_name(n: Option<JniName>) -> Option<JniNameView> {
    match n {
        Some(n) => Some(n@),
        None => None,
    }
}

/// `char::from_u32` yields the character with code `i`, for each code but
/// those of the surrogates and those above the last character's.
pub assume_specification[ char::from_u32 ](i: u32) -> (r: Option<char>)
    ensures
        r is Some <==> i < 0xd800 || 0xe000 <= i <= 0x10ffff,
        r matches Some(c) ==> c == i as char,
;

/// The value of a hexadecimal digit.
pub open spec fn digit_value(c: char) -> Option<int> {
    if '0' <= c <= '9' {
        Some(c as int - '0' as int)
    } else if 'a' <= c <= 'f' {
        Some(c as int - 'a' as int + 10)
    } else if 'A' <= c <= 'F' {
        Some(c as int - 'A' as int + 10)
    } else {
        None
    }
}

/// The number that hexadecimal digits write; none if another character is
/// among them.
pub open spec fn hex_number(s: Seq<char>) -> Option<int>
    decreases s.len(),
{
    if s.len() == 0 {
        Some(0)
    } else {
        match (hex_number(s.drop_last()), digit_value(s.last())) {
            (Some(n), Some(d)) => Some(16 * n + d),
            _ => None,
        }
    }
}

/// The character that the four hexadecimal digits of a `_0` escape stand for.
pub open spec fn escaped_char(s: Seq<char>) -> Option<char> {
    if s.len() != 4 {
        None
    } else {
        match hex_number(s) {
            Some(n) => if n < 0xd800 || 0xe000 <= n {
                Some(n as char)
            } else {
                None
            },
            None => None,
        }
    }
}

/// `parts` with `c` put in front of the first one.
pub open spec fn with_front(c: char, parts: Option<Seq<Seq<char>>>) -> Option<Seq<Seq<char>>> {
    match parts {
        Some(parts) => Some(parts.update(0, seq![c] + parts[0])),
        None => None,
    }
}

/// The components of a mangled name; none if an escape is malformed.
pub open spec fn name_parts(s: Seq<char>) -> Option<Seq<Seq<char>>>
    decreases s.len(),
{
    if s.len() == 0 {
        Some(seq![Seq::empty()])
    } else if s[0] != '_' {
        with_front(s[0], name_parts(s.skip(1)))
    } else if s.len() == 1 {
        Some(seq![Seq::empty(), Seq::empty()])
    } else if s[1] == '1' {
        with_front('_', name_parts(s.skip(2)))
    } else if s[1] == '2' {
        with_front(';', name_parts(s.skip(2)))
    } else if s[1] == '3' {
        with_front('[', name_parts(s.skip(2)))
    } else if s[1] == '0' {
        if s.len() < 6 {
            None
        } else {
            match escaped_char(s.subrange(2, 6)) {
                Some(c) => with_front(c, name_parts(s.skip(6))),
                None => None,
            }
        }
    } else if s[1] == '_' {
        // What follows is an overloaded method's signature.
        Some(seq![Seq::empty()])
    } else {
        match name_parts(s.skip(1)) {
            Some(parts) => Some(seq![Seq::<char>::empty()] + parts),
            None => None,
        }
    }
}

/// Whether the components name a class and a method.
pub open spec fn are_name(parts: Seq<Seq<char>>) -> bool {
    &&& parts.len() >= 2
    &&& forall|i: int| 0 <= i < parts.len() ==> (#[trigger] parts[i]).len() > 0
}

/// The class and the method that a `Java_*` name stands for.
pub open spec fn demangled(name: Seq<char>) -> Option<JniNameView> {
    match text::after_prefix(name, "Java_"@) {
        Some(rest) => match name_parts(rest) {
            Some(parts) => if are_name(parts) {
                Some(JniNameView { class: parts.drop_last(), method: parts.last() })
            } else {
                None
            },
            None => None,
        },
        None => None,
    }
}

/// The value of a hexadecimal digit.
fn hex_digit(c: char) -> (r: Option<u32>)
    ensures
        r matches Some(d) ==> digit_value(c) == Some(d as int) && d < 16,
        r is None ==> digit_value(c) is None,
{
    if '0' <= c && c <= '9' {
        Some(c as u32 - 48)
    } else if 'a' <= c && c <= 'f' {
        Some(c as u32 - 97 + 10)
    } else if 'A' <= c && c <= 'F' {
        Some(c as u32 - 65 + 10)
    } else {
        None
    }
}

/// A number with no more than three hexadecimal digits is below 16 to the
/// number of its digits.
proof fn lemma_hex_number_bound(s: Seq<char>)
    ensures
        hex_number(s) matches Some(n) ==> {
            &&& 0 <= n
            &&& s.len() == 0 ==> n < 1
            &&& s.len() == 1 ==> n < 16
            &&& s.len() == 2 ==> n < 256
            &&& s.len() == 3 ==> n < 4096
            &&& s.len() == 4 ==> n < 65536
        },
    decreases s.len(),
{
    if s.len() > 0 {
        lemma_hex_number_bound(s.drop_last());
    }
}

/// The character that the four hexadecimal digits of a `_0` escape stand for.
fn unescape(s: &[char]) -> (r: Option<char>)
    requires
        s@.len() == 4,
    ensures
        r == escaped_char(s@),
{
    let ghost digits = s@;
    let mut i: usize = 0;
    let mut value: u32 = 0;
    while i < 4
        invariant
            0 <= i <= 4,
            s@.len() == 4,
            digits == s@,
            hex_number(digits.take(i as int)) == Some(value as int),
        decreases 4 - i,
    {
        proof {
            assert(digits.take(i + 1).drop_last() =~= digits.take(i as int));
            lemma_hex_number_bound(digits.take(i as int));
        }
        match hex_digit(s[i]) {
            Some(d) => {
                value = 16 * value + d;
            },
            None => {
                proof {
                    assert(hex_number(digits.take(i + 1)) is None);
                    lemma_hex_number_none(digits, i + 1);
                }
                return None;
            },
        }
        i += 1;
    }
    assert(digits.take(4) =~= digits);
    proof {
        lemma_hex_number_bound(digits);
    }
    char::from_u32(value)
}

/// Digits that go on after a malformed start are malformed.
proof fn lemma_hex_number_none(s: Seq<char>, k: int)
    requires
        0 <= k <= s.len(),
        hex_number(s.take(k)) is None,
    ensures
        hex_number(s) is None,
    decreases s.len() - k,
{
    if k < s.len() {
        assert(s.take(k + 1).drop_last() =~= s.take(k));
        lemma_hex_number_none(s, k + 1);
    } else {
        assert(s.take(k) =~= s);
    }
}

/// Components whose last one goes on with the first of `more`.
spec fn glued(done: Seq<Seq<char>>, cur: Seq<char>, more: Option<Seq<Seq<char>>>) -> Option<
    Seq<Seq<char>>,
> {
    match more {
        Some(more) => Some(done + more.update(0, cur + more[0])),
        None => None,
    }
}

/// A name has at least one component.
proof fn lemma_name_parts_nonempty(s: Seq<char>)
    ensures
        name_parts(s) matches Some(parts) ==> parts.len() > 0,
    decreases s.len(),
{
    if s.len() == 0 {
    } else if s[0] != '_' {
        lemma_name_parts_nonempty(s.skip(1));
    } else if s.len() > 1 && s[1] == '0' {
        if s.len() >= 6 {
            lemma_name_parts_nonempty(s.skip(6));
        }
    } else if s.len() > 1 {
        lemma_name_parts_nonempty(s.skip(2));
        lemma_name_parts_nonempty(s.skip(1));
    }
}

/// A character read onto the current component.
proof fn lemma_glued_front(
    done: Seq<Seq<char>>,
    cur: Seq<char>,
    c: char,
    more: Option<Seq<Seq<char>>>,
)
    requires
        more matches Some(more) ==> more.len() > 0,
    ensures
        glued(done, cur, with_front(c, more)) == glued(done, cur.push(c), more),
{
    if let Some(m) = more {
        assert(cur + (seq![c] + m[0]) =~= cur.push(c) + m[0]);
        assert(m.update(0, seq![c] + m[0]).update(0, cur + (seq![c] + m[0])) =~= m.update(
            0,
            cur.push(c) + m[0],
        ));
    }
}

/// The characters of a component and of those before it, as a list of
/// components.
proof fn lemma_glued_end(done: Seq<Seq<char>>, cur: Seq<char>)
    ensures
        glued(done, cur, Some(seq![Seq::<char>::empty()])) == Some(done.push(cur)),
{
    let one = seq![Seq::<char>::empty()];
    assert(cur + one[0] =~= cur);
    assert(done + one.update(0, cur + one[0]) =~= done.push(cur));
}

/// A finished component.
proof fn lemma_glued_next(done: Seq<Seq<char>>, cur: Seq<char>, more: Seq<Seq<char>>)
    requires
        more.len() > 0,
    ensures
        glued(done, cur, Some(seq![Seq::<char>::empty()] + more)) == glued(
            done.push(cur),
            Seq::empty(),
            Some(more),
        ),
{
    let all = seq![Seq::<char>::empty()] + more;
    assert(cur + all[0] =~= cur);
    assert(Seq::<char>::empty() + more[0] =~= more[0]);
    assert(more.update(0, more[0]) =~= more);
    assert(done + all.update(0, cur) =~= done.push(cur) + more);
}

/// The components of a mangled name; none if an escape is malformed.
fn parse_parts(s: &[char]) -> (r: Option<Vec<String>>)
    ensures
        r matches Some(parts) ==> name_parts(s@) == Some(text::strings_view(parts@)),
        r is None ==> name_parts(s@) is None,
{
    let n: usize = s.len();
    let mut parts: Vec<String> = Vec::new();
    let mut cur: String = String::new();
    let mut i: usize = 0;
    proof {
        assert(s@.skip(0) =~= s@);
        assert(text::strings_view(parts@) =~= Seq::empty());
        lemma_name_parts_nonempty(s@);
        if let Some(all) = name_parts(s@) {
            assert(Seq::<char>::empty() + all[0] =~= all[0]);
            assert(all.update(0, all[0]) =~= all);
            assert(Seq::<Seq<char>>::empty() + all =~= all);
        }
    }
    while i < n
        invariant_except_break
            0 <= i <= n,
            n == s@.len(),
            name_parts(s@) == glued(
                text::strings_view(parts@),
                cur@,
                name_parts(s@.skip(i as int)),
            ),
        ensures
            name_parts(s@) == Some(text::strings_view(parts@).push(cur@)),
        decreases n - i,
    {
        let ghost rest = s@.skip(i as int);
        let ghost done = text::strings_view(parts@);
        let ghost had = cur@;
        proof {
            assert(rest.skip(1) =~= s@.skip(i + 1));
            if i + 2 <= n {
                assert(rest.skip(2) =~= s@.skip(i + 2));
            }
            if i + 6 <= n {
                assert(rest.skip(6) =~= s@.skip(i + 6));
            }
            lemma_name_parts_nonempty(s@.skip(i + 1));
            lemma_name_parts_nonempty(s@.skip(i + 2));
            lemma_name_parts_nonempty(s@.skip(i + 6));
            lemma_glued_end(done, had);
        }
        let c = s[i];
        if c != '_' {
            proof {
                lemma_glued_front(done, had, c, name_parts(s@.skip(i + 1)));
            }
            cur.push(c);
            i += 1;
        } else if n - i >= 2 && (s[i + 1] == '1' || s[i + 1] == '2' || s[i + 1] == '3') {
            let plain = if s[i + 1] == '1' {
                '_'
            } else if s[i + 1] == '2' {
                ';'
            } else {
                '['
            };
            proof {
                lemma_glued_front(done, had, plain, name_parts(s@.skip(i + 2)));
            }
            cur.push(plain);
            i += 2;
        } else if n - i >= 2 && s[i + 1] == '0' {
            if n - i < 6 {
                return None;
            }
            let code = &s[i + 2..i + 6];
            assert(code@ =~= rest.subrange(2, 6));
            match unescape(code) {
                Some(plain) => {
                    proof {
                        lemma_glued_front(done, had, plain, name_parts(s@.skip(i + 6)));
                    }
                    cur.push(plain);
                },
                None => {
                    return None;
                },
            }
            i += 6;
        } else if n - i >= 2 && s[i + 1] == '_' {
            break;
        } else {
            parts.push(cur);
            assert(text::strings_view(parts@) =~= done.push(had));
            cur = String::new();
            proof {
                if i + 1 == n {
                    assert(s@.skip(i + 1).len() == 0);
                    assert(seq![Seq::<char>::empty(), Seq::<char>::empty()] =~= seq![
                        Seq::<char>::empty(),
                    ] + seq![Seq::<char>::empty()]);
                }
                if let Some(more) = name_parts(s@.skip(i + 1)) {
                    lemma_glued_next(done, had, more);
                }
            }
            i += 1;
        }
        proof {
            if i == n {
                assert(s@.skip(i as int).len() == 0);
                lemma_glued_end(text::strings_view(parts@), cur@);
            }
        }
    }
    let ghost done = text::strings_view(parts@);
    let ghost had = cur@;
    parts.push(cur);
    assert(text::strings_view(parts@) =~= done.push(had));
    Some(parts)
}

/// Whether the components name a class and a method.
fn is_name(parts: &Vec<String>) -> (r: bool)
    ensures
        r == are_name(text::strings_view(parts@)),
{
    let ghost views = text::strings_view(parts@);
    if parts.len() < 2 {
        return false;
    }
    let mut i: usize = 0;
    while i < parts.len()
        invariant
            0 <= i <= parts@.len(),
            views == text::strings_view(parts@),
            forall|j: int| 0 <= j < i ==> (#[trigger] views[j]).len() > 0,
        decreases parts.len() - i,
    {
        assert(views[i as int] == parts@[i as int]@);
        if text::chars_of(parts[i].as_str()).len() == 0 {
            return false;
        }
        i += 1;
    }
    true
}

/// Demangles a `Java_*` exported function name into its class components and
/// its method name. There is none for identifiers that don't follow the
/// scheme. An overloaded method's signature is discarded.
pub fn demangle_jni(name: &str) -> (r: Option<JniName>)
    ensures
        opt_name(r) == demangled(name@),
{
    let name = text::chars_of(name);
    let rest = match text::strip_prefix(&name, "Java_") {
        Some(rest) => rest,
        None => {
            return None;
        },
    };
    let mut parts = match parse_parts(rest) {
        Some(parts) => parts,
        None => {
            return None;
        },
    };
    let ghost views = text::strings_view(parts@);
    if !is_name(&parts) {
        return None;
    }
    match parts.pop() {
        Some(method) => {
            assert(text::strings_view(parts@) =~= views.drop_last());
            Some(JniName { class: parts, method })
        },
        None => None,
    }
}

/// Whether a character stands for itself in a mangled name.
pub open spec fn is_plain(c: char) -> bool {
    '0' <= c <= '9' || 'a' <= c <= 'z' || 'A' <= c <= 'Z'
}

/// The hexadecimal digit of value `d`.
pub open spec fn hex_char(d: int) -> char {
    if d < 10 {
        ('0' as int + d) as char
    } else {
        ('a' as int + d - 10) as char
    }
}

/// A character as it stands in a mangled name.
pub open spec fn mangled_char(c: char) -> Seq<char> {
    if is_plain(c) {
        seq![c]
    } else if c == '_' {
        seq!['_', '1']
    } else if c == ';' {
        seq!['_', '2']
    } else if c == '[' {
        seq!['_', '3']
    } else {
        let n = c as int;
        seq![
            '_',
            '0',
            hex_char(n / 4096),
            hex_char(n / 256 % 16),
            hex_char(n / 16 % 16),
            hex_char(n % 16),
        ]
    }
}

/// A component as it stands in a mangled name.
pub open spec fn mangled_component(s: Seq<char>) -> Seq<char>
    decreases s.len(),
{
    if s.len() == 0 {
        Seq::empty()
    } else {
        mangled_char(s[0]) + mangled_component(s.skip(1))
    }
}

/// Components as they stand in a mangled name, joined by underscores.
pub open spec fn mangled_components(parts: Seq<Seq<char>>) -> Seq<char>
    decreases parts.len(),
{
    if parts.len() == 0 {
        Seq::empty()
    } else if parts.len() == 1 {
        mangled_component(parts[0])
    } else {
        mangled_component(parts[0]) + seq!['_'] + mangled_components(parts.skip(1))
    }
}

/// The name under which a native method is exported.
pub open spec fn mangled(name: JniNameView) -> Seq<char> {
    "Java_"@ + mangled_components(name.class.push(name.method))
}

/// Whether a component can be read back: it is not empty, and each character
/// has a code of four hexadecimal digits.
pub open spec fn is_readable(part: Seq<char>) -> bool {
    &&& part.len() > 0
    &&& forall|i: int| 0 <= i < part.len() ==> (#[trigger] part[i]) as int <= 0xffff
}

/// Whether a component can stand after an underscore: its first character is
/// not read as the rest of an escape or as the start of a signature.
pub open spec fn can_follow(part: Seq<char>) -> bool {
    is_plain(part[0]) && !('0' <= part[0] <= '3')
}

/// Whether every component can be read back, and every one but the first can
/// follow another.
pub open spec fn are_readable(parts: Seq<Seq<char>>) -> bool {
    &&& forall|i: int| 0 <= i < parts.len() ==> is_readable(#[trigger] parts[i])
    &&& forall|i: int| 1 <= i < parts.len() ==> can_follow(#[trigger] parts[i])
}

/// Four hexadecimal digits write the number that they were made of.
proof fn lemma_hex_round_trip(c: char)
    requires
        c as int <= 0xffff,
    ensures
        ({
            let n = c as int;
            escaped_char(
                seq![
                    hex_char(n / 4096),
                    hex_char(n / 256 % 16),
                    hex_char(n / 16 % 16),
                    hex_char(n % 16),
                ],
            ) == Some(c)
        }),
{
    let n = c as int;
    let (a, b, d, e) = (n / 4096, n / 256 % 16, n / 16 % 16, n % 16);
    let s = seq![hex_char(a), hex_char(b), hex_char(d), hex_char(e)];
    assert(digit_value(hex_char(a)) == Some(a));
    assert(digit_value(hex_char(b)) == Some(b));
    assert(digit_value(hex_char(d)) == Some(d));
    assert(digit_value(hex_char(e)) == Some(e));
    assert(s.drop_last() =~= seq![hex_char(a), hex_char(b), hex_char(d)]);
    assert(s.drop_last().drop_last() =~= seq![hex_char(a), hex_char(b)]);
    assert(s.drop_last().drop_last().drop_last() =~= seq![hex_char(a)]);
    assert(s.drop_last().drop_last().drop_last().drop_last() =~= Seq::<char>::empty());
    reveal_with_fuel(hex_number, 5);
    assert(hex_number(s) == Some(16 * (16 * (16 * a + b) + d) + e));
    assert(16 * (16 * (16 * a + b) + d) + e == n);
}

/// `parts` with `s` put in front of the first one.
spec fn prefixed(s: Seq<char>, parts: Option<Seq<Seq<char>>>) -> Option<Seq<Seq<char>>> {
    match parts {
        Some(parts) => Some(parts.update(0, s + parts[0])),
        None => None,
    }
}

/// A mangled component is read back in front of what follows it.
proof fn lemma_component_round_trip(s: Seq<char>, tail: Seq<char>)
    requires
        forall|i: int| 0 <= i < s.len() ==> (#[trigger] s[i]) as int <= 0xffff,
    ensures
        name_parts(mangled_component(s) + tail) == prefixed(s, name_parts(tail)),
    decreases s.len(),
{
    lemma_name_parts_nonempty(tail);
    if s.len() == 0 {
        assert(mangled_component(s) + tail =~= tail);
        if let Some(parts) = name_parts(tail) {
            assert(s + parts[0] =~= parts[0]);
            assert(parts.update(0, parts[0]) =~= parts);
        }
    } else {
        let c = s[0];
        let rest = mangled_component(s.skip(1)) + tail;
        lemma_component_round_trip(s.skip(1), tail);
        let all = mangled_component(s) + tail;
        assert(all =~= mangled_char(c) + rest);
        if is_plain(c) {
            assert(all.skip(1) =~= rest);
        } else if c == '_' || c == ';' || c == '[' {
            assert(all.skip(2) =~= rest);
        } else {
            lemma_hex_round_trip(c);
            assert(all.skip(6) =~= rest);
            let n = c as int;
            assert(all.subrange(2, 6) =~= seq![
                hex_char(n / 4096),
                hex_char(n / 256 % 16),
                hex_char(n / 16 % 16),
                hex_char(n % 16),
            ]);
        }
        assert(name_parts(all) == with_front(c, name_parts(rest)));
        if let Some(parts) = name_parts(tail) {
            let more = parts.update(0, s.skip(1) + parts[0]);
            assert(seq![c] + (s.skip(1) + parts[0]) =~= s + parts[0]);
            assert(more.update(0, seq![c] + more[0]) =~= parts.update(0, s + parts[0]));
        }
    }
}

/// Mangled components are read back in front of a signature or of the end.
proof fn lemma_components_round_trip(parts: Seq<Seq<char>>, tail: Seq<char>)
    requires
        parts.len() > 0,
        are_readable(parts),
        name_parts(tail) == Some(seq![Seq::<char>::empty()]),
    ensures
        name_parts(mangled_components(parts) + tail) == Some(parts),
    decreases parts.len(),
{
    let first = parts[0];
    assert(is_readable(first));
    if parts.len() == 1 {
        lemma_component_round_trip(first, tail);
        assert(first + Seq::<char>::empty() =~= first);
        assert(seq![Seq::<char>::empty()].update(0, first) =~= parts);
    } else {
        let others = parts.skip(1);
        assert forall|i: int| 0 <= i < others.len() implies is_readable(#[trigger] others[i]) by {
            assert(others[i] == parts[i + 1]);
        }
        assert forall|i: int| 1 <= i < others.len() implies can_follow(#[trigger] others[i]) by {
            assert(others[i] == parts[i + 1]);
        }
        lemma_components_round_trip(others, tail);
        let more = mangled_components(others) + tail;
        let after = seq!['_'] + more;
        assert(mangled_components(parts) + tail =~= mangled_component(first) + after);
        assert(can_follow(parts[1]) && others[0] == parts[1]);
        assert(is_readable(parts[1]));
        assert(mangled_component(others[0])[0] == others[0][0]);
        assert(more[0] == others[0][0]);
        assert(after.skip(1) =~= more);
        assert(after[1] == more[0]);
        lemma_component_round_trip(first, after);
        let read = seq![Seq::<char>::empty()] + others;
        assert(name_parts(after) == Some(read));
        assert(first + read[0] =~= first);
        assert(read.update(0, first) =~= parts);
    }
}

/// Demangling undoes mangling: the name under which a native method is
/// exported is read back as that method's class and name, with or without an
/// overload signature after two underscores.
///
/// Each component has to be readable: a component that begins with an escape
/// or with one of the digits 0 to 3 is taken for part of the separator
/// before it.
pub proof fn law_demangle_mangled(name: JniNameView, signature: Option<Seq<char>>)
    requires
        name.class.len() > 0,
        are_readable(name.class.push(name.method)),
    ensures
        demangled(
            mangled(name) + match signature {
                Some(signature) => seq!['_', '_'] + signature,
                None => Seq::empty(),
            },
        ) == Some(name),
{
    let parts = name.class.push(name.method);
    let tail = match signature {
        Some(signature) => seq!['_', '_'] + signature,
        None => Seq::empty(),
    };
    lemma_components_round_trip(parts, tail);
    let all = mangled(name) + tail;
    let rest = mangled_components(parts) + tail;
    assert(all =~= "Java_"@ + rest);
    assert(all.take("Java_"@.len() as int) =~= "Java_"@);
    assert(all.skip("Java_"@.len() as int) =~= rest);
    assert(parts.drop_last() =~= name.class);
    assert forall|i: int| 0 <= i < parts.len() implies (#[trigger] parts[i]).len() > 0 by {
        assert(is_readable(parts[i]));
    }
}

/// Only names that start with `Java_` are demangled, and what comes out names
/// at least one class component and a method, none of them empty.
pub proof fn law_demangled_shape(name: Seq<char>)
    ensures
        demangled(name) matches Some(n) ==> {
            &&& text::has_prefix(name, "Java_"@)
            &&& n.class.len() > 0
            &&& n.method.len() > 0
            &&& forall|i: int| 0 <= i < n.class.len() ==> (#[trigger] n.class[i]).len() > 0
        },
{
    if let Some(n) = demangled(name) {
        let parts = name_parts(text::after_prefix(name, "Java_"@).unwrap()).unwrap();
        assert(parts[parts.len() - 1].len() > 0);
        assert forall|i: int| 0 <= i < n.class.len() implies (#[trigger] n.class[i]).len() > 0 by {
            assert(n.class[i] == parts[i]);
        }
    }
}

} // verus!
