//! What is read of a `pom.xml`, and how mangled names are taken apart.

use crate::jni::name;
use crate::jni::pom;
use crate::jni::pom::PomView;
use crate::jni::span;
use crate::jni::span::SpanView;
use crate::text;
use vstd::prelude::*;

verus! {

/// Whether a text does not begin with a mark: one of their characters differs.
proof fn lemma_other_mark(s: Seq<char>, mark: Seq<char>, k: int)
    requires
        0 <= k < s.len(),
        0 <= k < mark.len(),
        s[k] != mark[k],
    ensures
        !text::has_prefix(s, mark),
{
    if text::has_prefix(s, mark) {
        assert(s.take(mark.len() as int)[k] == mark[k]);
    }
}

/// Whether an inner text goes up to the first closing mark.
pub open spec fn ends_at(inner: Seq<char>, close: Seq<char>) -> bool {
    forall|j: int|
        0 <= j < inner.len() ==> !text::has_prefix(#[trigger] (inner + close).skip(j), close)
}

/// The first closing mark does not depend on what follows it.
proof fn lemma_ends_at(inner: Seq<char>, close: Seq<char>, tail: Seq<char>)
    requires
        ends_at(inner, close),
    ensures
        text::first_index(inner + close + tail, close) == Some(inner.len() as int),
{
    let s = inner + close + tail;
    let n = inner.len() as int;
    assert(s.skip(n).take(close.len() as int) =~= close);
    assert forall|j: int| 0 <= j < n implies !text::has_prefix(#[trigger] s.skip(j), close) by {
        let short = (inner + close).skip(j);
        assert(!text::has_prefix(short, close));
        assert(short.take(close.len() as int) =~= s.skip(j).take(close.len() as int));
    }
    span::lemma_first_at(s, close, n);
}

/// The kind of a span is the first of the list that fits.
proof fn lemma_kind(s: Seq<char>, spans: Seq<SpanView>, i: int)
    requires
        0 <= i < spans.len(),
        spans[i].open.len() > 0,
        text::has_prefix(s, spans[i].open),
        forall|j: int| 0 <= j < i ==> !text::has_prefix(s, (#[trigger] spans[j]).open),
    ensures
        span::span_at(s, spans) == Some(spans[i]),
    decreases spans.len(),
{
    if i > 0 {
        let rest = spans.skip(1);
        assert(!text::has_prefix(s, spans[0].open));
        assert(rest[i - 1] == spans[i]);
        assert forall|j: int| 0 <= j < i - 1 implies !text::has_prefix(s, (#[trigger] rest[j]).open) by {
            assert(rest[j] == spans[j + 1]);
        }
        lemma_kind(s, rest, i - 1);
    }
}

/// Where every opening mark begins with `<`, text without one stays.
proof fn lemma_text_stays(head: Seq<char>, y: Seq<char>, spans: Seq<SpanView>)
    requires
        !head.contains('<'),
        forall|i: int| 0 <= i < spans.len() ==> (#[trigger] spans[i]).open.len() > 0 && spans[i].open[0]
            == '<',
    ensures
        span::without_spans(head + y, spans) == head + span::without_spans(y, spans),
    decreases head.len(),
{
    if head.len() == 0 {
        assert(head + y =~= y);
        assert(head + span::without_spans(y, spans) =~= span::without_spans(y, spans));
    } else {
        let s = head + y;
        assert(head.contains(head[0]));
        span::lemma_span_len(s, spans);
        lemma_no_kind(s, spans);
        let rest = head.skip(1);
        assert(!rest.contains('<')) by {
            if rest.contains('<') {
                let k = rest.index_of('<');
                assert(head[k + 1] == '<');
            }
        }
        assert(s.skip(1) =~= rest + y);
        lemma_text_stays(rest, y, spans);
        assert(seq![s[0]] + (rest + span::without_spans(y, spans)) =~= head + span::without_spans(
            y,
            spans,
        ));
    }
}

/// No span begins with another character.
proof fn lemma_no_kind(s: Seq<char>, spans: Seq<SpanView>)
    requires
        s.len() > 0,
        s[0] != '<',
        forall|i: int| 0 <= i < spans.len() ==> (#[trigger] spans[i]).open.len() > 0 && spans[i].open[0]
            == '<',
    ensures
        span::span_at(s, spans) is None,
    decreases spans.len(),
{
    if spans.len() > 0 {
        lemma_other_mark(s, spans[0].open, 0);
        assert forall|i: int| 0 <= i < spans.skip(1).len() implies (#[trigger] spans.skip(
            1,
        )[i]).open.len() > 0 && spans.skip(1)[i].open[0] == '<' by {
            assert(spans.skip(1)[i] == spans[i + 1]);
        }
        lemma_no_kind(s, spans.skip(1));
    }
}

/// A span behind plain text is replaced, and the cutting goes on behind it.
proof fn lemma_span_is_cut(
    head: Seq<char>,
    inner: Seq<char>,
    tail: Seq<char>,
    spans: Seq<SpanView>,
    i: int,
)
    requires
        !head.contains('<'),
        0 <= i < spans.len(),
        forall|k: int| 0 <= k < spans.len() ==> (#[trigger] spans[k]).open.len() > 0 && spans[k].open[0]
            == '<',
        spans[i].close.len() > 0,
        forall|j: int|
            0 <= j < i ==> !text::has_prefix(
                spans[i].open + (inner + spans[i].close + tail),
                (#[trigger] spans[j]).open,
            ),
        ends_at(inner, spans[i].close),
    ensures
        span::without_spans(head + spans[i].open + inner + spans[i].close + tail, spans) == head
            + spans[i].put + span::without_spans(tail, spans),
{
    let p = spans[i];
    let y = p.open + (inner + p.close + tail);
    assert(head + p.open + inner + p.close + tail =~= head + y);
    lemma_text_stays(head, y, spans);
    assert(y.take(p.open.len() as int) =~= p.open);
    lemma_kind(y, spans, i);
    assert(y.skip(p.open.len() as int) =~= inner + p.close + tail);
    lemma_ends_at(inner, p.close, tail);
    let n = p.open.len() + inner.len() + p.close.len();
    assert(span::span_len(y, p) == Some(n as int));
    assert(y.skip(n as int) =~= tail);
    span::lemma_span_len(y, spans);
    assert(head + (p.put + span::without_spans(tail, spans)) =~= head + p.put
        + span::without_spans(tail, spans));
}

/// Comments, character data and processing instructions are emptied, up to the
/// first mark that closes them, whatever they hold.
pub proof fn law_hidden_parts(head: Seq<char>, inner: Seq<char>, tail: Seq<char>)
    requires
        !head.contains('<'),
    ensures
        ({
            let spans = pom::hidden_spans();
            &&& ends_at(inner, "-->"@) ==> span::without_spans(
                head + "<!--"@ + inner + "-->"@ + tail,
                spans,
            ) == head + "<!---->"@ + span::without_spans(tail, spans)
            &&& ends_at(inner, "]]>"@) ==> span::without_spans(
                head + "<![CDATA["@ + inner + "]]>"@ + tail,
                spans,
            ) == head + "<![CDATA[]]>"@ + span::without_spans(tail, spans)
            &&& ends_at(inner, "?>"@) ==> span::without_spans(
                head + "<?"@ + inner + "?>"@ + tail,
                spans,
            ) == head + "<??>"@ + span::without_spans(tail, spans)
        }),
{
    reveal_strlit("<!--");
    reveal_strlit("-->");
    reveal_strlit("<![CDATA[");
    reveal_strlit("]]>");
    reveal_strlit("<?");
    reveal_strlit("?>");
    let spans = pom::hidden_spans();
    assert(spans.len() == 3);
    assert("<!--"@.len() == 4 && "<![CDATA["@.len() == 9 && "<?"@.len() == 2);
    assert("-->"@.len() == 3 && "]]>"@.len() == 3 && "?>"@.len() == 2);
    if ends_at(inner, "-->"@) {
        lemma_span_is_cut(head, inner, tail, spans, 0);
    }
    if ends_at(inner, "]]>"@) {
        let y = spans[1].open + (inner + spans[1].close + tail);
        assert(y[2] == '[');
        lemma_other_mark(y, spans[0].open, 2);
        lemma_span_is_cut(head, inner, tail, spans, 1);
    }
    if ends_at(inner, "?>"@) {
        let y = spans[2].open + (inner + spans[2].close + tail);
        assert(y[1] == '?');
        lemma_other_mark(y, spans[0].open, 1);
        lemma_other_mark(y, spans[1].open, 1);
        lemma_span_is_cut(head, inner, tail, spans, 2);
    }
}

/// An element with an inner text.
pub open spec fn block(tag: Seq<char>, inner: Seq<char>) -> Seq<char> {
    "<"@ + tag + ">"@ + inner + "</"@ + tag + ">"@
}

/// Whether a tag holds coordinates of other projects, besides `parent`.
pub open spec fn is_foreign(tag: Seq<char>) -> bool {
    ||| tag == "profiles"@
    ||| tag == "dependencyManagement"@
    ||| tag == "build"@
    ||| tag == "reporting"@
    ||| tag == "dependencies"@
    ||| tag == "distributionManagement"@
    ||| tag == "properties"@
}

/// Elements that hold coordinates of other projects are dropped, up to the
/// first tag that closes them, whatever they hold.
pub proof fn law_foreign_elements(
    head: Seq<char>,
    tag: Seq<char>,
    inner: Seq<char>,
    tail: Seq<char>,
)
    requires
        !head.contains('<'),
        is_foreign(tag),
        ends_at(inner, "</"@ + tag + ">"@),
    ensures
        span::without_spans(head + block(tag, inner) + tail, pom::foreign_spans()) == head
            + span::without_spans(tail, pom::foreign_spans()),
{
    let spans = pom::foreign_spans();
    let i = lemma_foreign(tag, inner + ("</"@ + tag + ">"@) + tail);
    let p = spans[i];
    lemma_span_is_cut(head, inner, tail, spans, i);
    assert(head + block(tag, inner) + tail =~= head + p.open + inner + p.close + tail);
    assert(head + p.put =~= head);
}

/// The place of a tag among those that are dropped.
proof fn lemma_foreign(tag: Seq<char>, rest: Seq<char>) -> (i: int)
    requires
        is_foreign(tag),
    ensures
        0 <= i < pom::foreign_spans().len(),
        pom::foreign_spans()[i].open == "<"@ + tag + ">"@,
        pom::foreign_spans()[i].close == "</"@ + tag + ">"@,
        pom::foreign_spans()[i].put.len() == 0,
        pom::foreign_spans()[i].close.len() > 0,
        forall|k: int|
            0 <= k < pom::foreign_spans().len() ==> (
            #[trigger] pom::foreign_spans()[k]).open.len() > 0 && pom::foreign_spans()[k].open[0]
                == '<',
        forall|j: int|
            0 <= j < i ==> !text::has_prefix(
                pom::foreign_spans()[i].open + rest,
                (#[trigger] pom::foreign_spans()[j]).open,
            ),
{
    reveal_strlit("<");
    reveal_strlit("</");
    reveal_strlit(">");
    reveal_strlit("profiles");
    reveal_strlit("dependencyManagement");
    reveal_strlit("build");
    reveal_strlit("reporting");
    reveal_strlit("dependencies");
    reveal_strlit("distributionManagement");
    reveal_strlit("properties");
    let spans = pom::foreign_spans();
    assert(spans.len() == 7);
    let y = "<"@ + tag + ">"@ + rest;
    assert(y =~= ("<"@ + tag + ">"@) + rest);
    if tag == "profiles"@ {
        0
    } else if tag == "dependencyManagement"@ {
        lemma_other_mark(y, spans[0].open, 1);
        1
    } else if tag == "build"@ {
        lemma_other_mark(y, spans[0].open, 1);
        lemma_other_mark(y, spans[1].open, 1);
        2
    } else if tag == "reporting"@ {
        lemma_other_mark(y, spans[0].open, 1);
        lemma_other_mark(y, spans[1].open, 1);
        lemma_other_mark(y, spans[2].open, 1);
        3
    } else if tag == "dependencies"@ {
        lemma_other_mark(y, spans[0].open, 1);
        lemma_other_mark(y, spans[1].open, 10);
        lemma_other_mark(y, spans[2].open, 1);
        lemma_other_mark(y, spans[3].open, 1);
        4
    } else if tag == "distributionManagement"@ {
        lemma_other_mark(y, spans[0].open, 1);
        lemma_other_mark(y, spans[1].open, 2);
        lemma_other_mark(y, spans[2].open, 1);
        lemma_other_mark(y, spans[3].open, 1);
        lemma_other_mark(y, spans[4].open, 2);
        5
    } else {
        lemma_other_mark(y, spans[0].open, 4);
        lemma_other_mark(y, spans[1].open, 1);
        lemma_other_mark(y, spans[2].open, 1);
        lemma_other_mark(y, spans[3].open, 1);
        lemma_other_mark(y, spans[4].open, 1);
        lemma_other_mark(y, spans[5].open, 1);
        6
    }
}

/// What is looked at of a document: first what is hidden is emptied, then the
/// elements of other projects are dropped.
pub proof fn law_hidden_before_foreign(doc: Seq<char>)
    ensures
        pom::project_part(doc) == span::without_spans(
            span::without_spans(doc, pom::hidden_spans()),
            pom::foreign_spans(),
        ),
{
}

/// Whether a tag can stand in a document: it is not empty and holds no `<`.
pub open spec fn is_tag(tag: Seq<char>) -> bool {
    tag.len() > 0 && !tag.contains('<')
}

/// The text of an element is what stands between its tags, without the white
/// space around it; an element that is blank or holds markup has none, and a
/// document without the opening tag neither.
pub proof fn law_element_text(head: Seq<char>, tag: Seq<char>, inner: Seq<char>, tail: Seq<char>)
    requires
        is_tag(tag),
        !head.contains('<'),
        ends_at(inner, "</"@ + tag + ">"@),
    ensures
        ({
            let value = pom::tag_value(head + block(tag, inner) + tail, tag);
            let trimmed = text::trimmed(inner);
            &&& trimmed.len() > 0 && !trimmed.contains('<') ==> value == Some(trimmed)
            &&& trimmed.len() == 0 || trimmed.contains('<') ==> value is None
        }),
        pom::tag_value(head, tag) is None,
{
    lemma_block_content(head, tag, inner, tail);
    let open = "<"@ + tag + ">"@;
    reveal_strlit("<");
    reveal_strlit(">");
    text::lemma_first_index(head, open);
    if let Some(k) = text::first_index(head, open) {
        assert(head.subrange(k, k + open.len())[0] == head[k]);
        assert(head.contains(head[k]));
    }
}

/// The first element of a kind, behind text.
proof fn lemma_block_content(head: Seq<char>, tag: Seq<char>, inner: Seq<char>, tail: Seq<char>)
    requires
        is_tag(tag),
        !head.contains('<'),
        ends_at(inner, "</"@ + tag + ">"@),
    ensures
        text::first_index(head + block(tag, inner) + tail, "<"@ + tag + ">"@) == Some(
            head.len() as int,
        ),
        pom::block_content(head + block(tag, inner) + tail, tag) == Some(inner),
{
    reveal_strlit("<");
    reveal_strlit("</");
    reveal_strlit(">");
    let (open, close) = ("<"@ + tag + ">"@, "</"@ + tag + ">"@);
    let s = head + block(tag, inner) + tail;
    let n = head.len() as int;
    assert(s.skip(n).take(open.len() as int) =~= open);
    assert forall|j: int| 0 <= j < n implies !text::has_prefix(#[trigger] s.skip(j), open) by {
        assert(head.contains(head[j]));
        assert(s.skip(j)[0] == head[j]);
        lemma_other_mark(s.skip(j), open, 0);
    }
    span::lemma_first_at(s, open, n);
    assert(s.skip(n + open.len()) =~= inner + close + tail);
    lemma_ends_at(inner, close, tail);
    assert((inner + close + tail).take(inner.len() as int) =~= inner);
}

/// What is read of the parent is what stands in its element, and what is read
/// of the project is the document without that element.
pub proof fn law_parent(head: Seq<char>, inner: Seq<char>, tail: Seq<char>, tag: Seq<char>)
    requires
        !head.contains('<'),
        ends_at(inner, "</parent>"@),
    ensures
        ({
            let doc = head + block("parent"@, inner) + tail;
            &&& pom::parent_value(doc, tag) == pom::tag_value(inner, tag)
            &&& pom::without_block(doc, "parent"@) == head + tail
        }),
        pom::parent_value(head, tag) is None,
        pom::without_block(head, "parent"@) == head,
{
    reveal_strlit("<");
    reveal_strlit("</");
    reveal_strlit(">");
    reveal_strlit("parent");
    reveal_strlit("</parent>");
    let (open, close) = ("<"@ + "parent"@ + ">"@, "</"@ + "parent"@ + ">"@);
    assert(close =~= "</parent>"@);
    assert(!"parent"@.contains('<')) by {
        if "parent"@.contains('<') {
            let k = "parent"@.index_of('<');
            assert("parent"@[k] == '<');
        }
    }
    lemma_block_content(head, "parent"@, inner, tail);
    let doc = head + block("parent"@, inner) + tail;
    let before = head + open + inner;
    let n = before.len() as int;
    assert(doc =~= before + close + tail);
    assert(doc.skip(n).take(close.len() as int) =~= close);
    assert forall|j: int| 0 <= j < n implies !text::has_prefix(#[trigger] doc.skip(j), close) by {
        if j < head.len() {
            assert(head.contains(head[j]));
            assert(doc.skip(j)[0] == head[j]);
            lemma_other_mark(doc.skip(j), close, 0);
        } else if j == head.len() {
            assert(doc.skip(j)[1] == open[1]);
            lemma_other_mark(doc.skip(j), close, 1);
        } else if j < head.len() + open.len() {
            assert(doc.skip(j)[0] == open[j - head.len()]);
            lemma_other_mark(doc.skip(j), close, 0);
        } else {
            let k = j - head.len() - open.len();
            let short = (inner + close).skip(k);
            assert(!text::has_prefix(short, close));
            assert(short.take(close.len() as int) =~= doc.skip(j).take(close.len() as int));
        }
    }
    span::lemma_first_at(doc, close, n);
    assert(doc.take(head.len() as int) + doc.skip(n + close.len()) =~= head + tail);
    text::lemma_first_index(head, open);
    if let Some(k) = text::first_index(head, open) {
        assert(head.subrange(k, k + open.len())[0] == head[k]);
        assert(head.contains(head[k]));
    }
}

/// The group and the version are the project's own, else its parent's; the
/// artifact is the project's own alone.
pub proof fn law_coordinates(doc: Seq<char>)
    ensures
        ({
            let own = pom::without_block(pom::project_part(doc), "parent"@);
            let part = pom::project_part(doc);
            let pom = pom::pom_of(doc);
            &&& pom.artifact_id == pom::tag_value(own, "artifactId"@)
            &&& pom::tag_value(own, "groupId"@) is Some ==> pom.group_id == pom::tag_value(
                own,
                "groupId"@,
            )
            &&& pom::tag_value(own, "groupId"@) is None ==> pom.group_id == pom::parent_value(
                part,
                "groupId"@,
            )
            &&& pom::tag_value(own, "version"@) is Some ==> pom.version == pom::tag_value(
                own,
                "version"@,
            )
            &&& pom::tag_value(own, "version"@) is None ==> pom.version == pom::parent_value(
                part,
                "version"@,
            )
        }),
{
}

/// A project is named by its group and its artifact, and only by both.
pub proof fn law_maven_names(pom: PomView)
    ensures
        pom::maven_name(pom) is Some <==> pom.group_id is Some && pom.artifact_id is Some,
        pom.group_id matches Some(g) ==> (pom.artifact_id matches Some(a) ==> pom::maven_name(pom)
            == Some("maven/"@ + g + "/"@ + a)),
{
}

/// Characters other than the underscore stand for themselves.
pub proof fn law_plain_characters(a: Seq<char>, s: Seq<char>)
    requires
        !a.contains('_'),
    ensures
        name::name_parts(a) == Some(seq![a]),
        name::name_parts(s) is None ==> name::name_parts(a + s) is None,
        name::name_parts(s) matches Some(parts) ==> parts.len() > 0 && name::name_parts(a + s)
            == Some(parts.update(0, a + parts[0])),
    decreases a.len(),
{
    lemma_some_part(s);
    if a.len() == 0 {
        assert(a + s =~= s);
        assert(name::name_parts(a) == Some(seq![a])) by {
            assert(a =~= Seq::empty());
        }
        if let Some(parts) = name::name_parts(s) {
            assert(a + parts[0] =~= parts[0]);
            assert(parts.update(0, a + parts[0]) =~= parts);
        }
    } else {
        let rest = a.skip(1);
        assert(a.contains(a[0]));
        assert(!rest.contains('_')) by {
            if rest.contains('_') {
                let k = rest.index_of('_');
                assert(a[k + 1] == '_');
            }
        }
        law_plain_characters(rest, s);
        assert((a + s).skip(1) =~= rest + s);
        assert(seq![a[0]] + rest =~= a);
        assert(seq![rest].update(0, a) =~= seq![a]);
        if let Some(parts) = name::name_parts(s) {
            assert(seq![a[0]] + (rest + parts[0]) =~= a + parts[0]);
            assert(parts.update(0, rest + parts[0]).update(0, a + parts[0]) =~= parts.update(
                0,
                a + parts[0],
            ));
        }
    }
}

/// There is at least one component.
proof fn lemma_some_part(s: Seq<char>)
    ensures
        name::name_parts(s) matches Some(parts) ==> parts.len() > 0,
    decreases s.len(),
{
    if s.len() > 0 {
        lemma_some_part(s.skip(1));
        if s.len() > 1 {
            lemma_some_part(s.skip(2));
        }
        if s.len() >= 6 {
            lemma_some_part(s.skip(6));
        }
    }
}

/// `_1`, `_2` and `_3` stand for an underscore, a semicolon and a bracket, and
/// `_0` with four hexadecimal digits for the character of that number.
pub proof fn law_escapes(s: Seq<char>, digits: Seq<char>)
    requires
        digits.len() == 4,
        name::name_parts(s) is Some,
    ensures
        ({
            let parts = name::name_parts(s)->Some_0;
            let first = parts[0];
            &&& name::name_parts(seq!['_', '1'] + s) == Some(parts.update(0, seq!['_'] + first))
            &&& name::name_parts(seq!['_', '2'] + s) == Some(parts.update(0, seq![';'] + first))
            &&& name::name_parts(seq!['_', '3'] + s) == Some(parts.update(0, seq!['['] + first))
            &&& name::escaped_char(digits) matches Some(c) ==> name::name_parts(
                seq!['_', '0'] + digits + s,
            ) == Some(parts.update(0, seq![c] + first))
        }),
{
    assert((seq!['_', '1'] + s).skip(2) =~= s);
    assert((seq!['_', '2'] + s).skip(2) =~= s);
    assert((seq!['_', '3'] + s).skip(2) =~= s);
    let long = seq!['_', '0'] + digits + s;
    assert(long.subrange(2, 6) =~= digits);
    assert(long.skip(6) =~= s);
}

/// An underscore before another character separates two components; two
/// underscores end the name.
pub proof fn law_separators(a: Seq<char>, s: Seq<char>)
    requires
        !a.contains('_'),
    ensures
        s.len() > 0 && s[0] != '_' && !('0' <= s[0] <= '3') ==> match name::name_parts(s) {
            Some(parts) => name::name_parts(a + seq!['_'] + s) == Some(seq![a] + parts),
            None => name::name_parts(a + seq!['_'] + s) is None,
        },
        name::name_parts(a + seq!['_', '_'] + s) == Some(seq![a]),
        name::name_parts(a + seq!['_']) == Some(seq![a, Seq::<char>::empty()]),
{
    let none = Seq::<char>::empty();
    let x = seq!['_'] + s;
    assert(a + seq!['_'] + s =~= a + x);
    assert(x.skip(1) =~= s);
    law_plain_characters(a, x);
    if let Some(parts) = name::name_parts(s) {
        assert((seq![none] + parts).update(0, a + none) =~= seq![a] + parts) by {
            assert(a + none =~= a);
        }
        assert((seq![none] + parts)[0] == none);
    }
    let y = seq!['_', '_'] + s;
    assert(a + seq!['_', '_'] + s =~= a + y);
    law_plain_characters(a, y);
    assert(a + none =~= a);
    assert(seq![none].update(0, a) =~= seq![a]);
    law_plain_characters(a, seq!['_']);
    assert(seq![none, none].update(0, a) =~= seq![a, none]);
}

/// A name whose escape has fewer than four digits, another character among
/// them, or the number of a surrogate, is no name at all.
pub proof fn law_malformed_escapes(a: Seq<char>, digits: Seq<char>, s: Seq<char>)
    requires
        !a.contains('_'),
    ensures
        digits.len() < 4 ==> name::name_parts(a + (seq!['_', '0'] + digits)) is None,
        digits.len() == 4 && (exists|k: int|
            0 <= k < 4 && name::digit_value(#[trigger] digits[k]) is None) ==> name::name_parts(
            a + (seq!['_', '0'] + digits + s),
        ) is None,
        digits.len() == 4 && (name::hex_number(digits) matches Some(n) && 0xd800 <= n < 0xe000)
            ==> name::name_parts(a + (seq!['_', '0'] + digits + s)) is None,
{
    law_plain_characters(a, seq!['_', '0'] + digits);
    let long = seq!['_', '0'] + digits + s;
    law_plain_characters(a, long);
    if digits.len() == 4 {
        assert(long.subrange(2, 6) =~= digits);
        if exists|k: int| 0 <= k < 4 && name::digit_value(#[trigger] digits[k]) is None {
            let k = choose|k: int| 0 <= k < 4 && name::digit_value(#[trigger] digits[k]) is None;
            lemma_no_number(digits, k);
        }
    }
}

/// Characters of which one is no digit write no number.
proof fn lemma_no_number(s: Seq<char>, k: int)
    requires
        0 <= k < s.len(),
        name::digit_value(s[k]) is None,
    ensures
        name::hex_number(s) is None,
    decreases s.len(),
{
    if k < s.len() - 1 {
        assert(s.drop_last()[k] == s[k]);
        lemma_no_number(s.drop_last(), k);
    }
}

/// The hexadecimal digits are `0` to `9`, `a` to `f` and `A` to `F`: each counts
/// one more than the one before it, and case does not matter.
pub proof fn law_hexadecimal_digits(d: int, c: char)
    ensures
        0 <= d < 10 ==> name::digit_value(('0' as int + d) as char) == Some(d),
        10 <= d < 16 ==> name::digit_value(('a' as int + (d - 10)) as char) == Some(d),
        10 <= d < 16 ==> name::digit_value(('A' as int + (d - 10)) as char) == Some(d),
        !('0' <= c <= '9' || 'a' <= c <= 'f' || 'A' <= c <= 'F') ==> name::digit_value(c) is None,
{
}

/// A number is written with its highest digit first.
pub proof fn law_hexadecimal_numbers(s: Seq<char>, c: char)
    ensures
        name::hex_number(Seq::empty()) == Some(0int),
        match (name::hex_number(s), name::digit_value(c)) {
            (Some(n), Some(d)) => name::hex_number(s.push(c)) == Some(16 * n + d),
            _ => name::hex_number(s.push(c)) is None,
        },
{
    assert(s.push(c).drop_last() =~= s);
}

/// The last component is the method and the others are the class; a name with
/// one component, or with an empty one, stands for nothing, and neither does one
/// without the prefix.
pub proof fn law_class_and_method(name: Seq<char>, rest: Seq<char>, k: int)
    ensures
        !text::has_prefix(name, "Java_"@) ==> name::demangled(name) is None,
        match name::name_parts(rest) {
            Some(parts) => {
                &&& parts.len() < 2 ==> name::demangled("Java_"@ + rest) is None
                &&& 0 <= k < parts.len() && parts[k].len() == 0 ==> name::demangled("Java_"@ + rest)
                    is None
                &&& parts.len() >= 2 && (forall|i: int|
                    0 <= i < parts.len() ==> (#[trigger] parts[i]).len() > 0) ==> (
                name::demangled("Java_"@ + rest) matches Some(n) && n.class + seq![n.method]
                    == parts)
            },
            None => name::demangled("Java_"@ + rest) is None,
        },
{
    let all = "Java_"@ + rest;
    assert(all.take("Java_"@.len() as int) =~= "Java_"@);
    assert(all.skip("Java_"@.len() as int) =~= rest);
    if let Some(parts) = name::name_parts(rest) {
        if parts.len() > 0 {
            assert(parts.drop_last() + seq![parts.last()] =~= parts);
        }
    }
}

} // verus!
