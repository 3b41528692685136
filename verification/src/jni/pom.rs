//! The Maven coordinates in a `pom.xml`.
//!
//! The text is searched for tags; it is not parsed. What stands in comments,
//! and in the elements that hold coordinates of other projects, is cut out of
//! it first.

use crate::jni::span;
use crate::jni::span::{Span, SpanView};
use crate::text;
use vstd::prelude::*;

verus! {

/// The Maven coordinates of a project.
#[derive(Debug)]
pub struct Pom {
    pub group_id: Option<String>,
    pub artifact_id: Option<String>,
    pub version: Option<String>,
}

/// What a [`Pom`] holds.
pub struct PomView {
    pub group_id: Option<Seq<char>>,
    pub artifact_id: Option<Seq<char>>,
    pub version: Option<Seq<char>>,
}

impl View for Pom {
    type V = PomView;

    open spec fn view(&self) -> PomView {
        PomView {
            group_id: text::opt_view(self.group_id),
            artifact_id: text::opt_view(self.artifact_id),
            version: text::opt_view(self.version),
        }
    }
}

/// The tag that opens an element.
pub open spec fn open_tag(tag: Seq<char>) -> Seq<char> {
    "<"@ + tag + ">"@
}

/// The tag that closes an element.
pub open spec fn close_tag(tag: Seq<char>) -> Seq<char> {
    "</"@ + tag + ">"@
}

/// `doc` without its first element `tag`.
pub open spec fn without_block(doc: Seq<char>, tag: Seq<char>) -> Seq<char> {
    match (text::first_index(doc, open_tag(tag)), text::first_index(doc, close_tag(tag))) {
        (Some(start), Some(end)) => if end > start {
            doc.take(start) + doc.skip(end + close_tag(tag).len())
        } else {
            doc
        },
        _ => doc,
    }
}

/// What stands inside the first element `tag`.
pub open spec fn block_content(doc: Seq<char>, tag: Seq<char>) -> Option<Seq<char>> {
    match text::first_index(doc, open_tag(tag)) {
        Some(i) => {
            let rest = doc.skip(i + open_tag(tag).len());
            match text::first_index(rest, close_tag(tag)) {
                Some(end) => Some(rest.take(end)),
                None => None,
            }
        },
        None => None,
    }
}

/// The text of the first element `tag`, if it holds text alone.
pub open spec fn tag_value(doc: Seq<char>, tag: Seq<char>) -> Option<Seq<char>> {
    match block_content(doc, tag) {
        Some(content) => {
            let value = text::trimmed(content);
            if value.len() > 0 && !value.contains('<') {
                Some(value)
            } else {
                None
            }
        },
        None => None,
    }
}

/// A span of a text, with what is put in its place.
pub open spec fn span_of(open: Seq<char>, close: Seq<char>, put: Seq<char>) -> SpanView {
    SpanView { open, close, put }
}

/// The parts of a document that hold no elements: comments, character data
/// and processing instructions. They are emptied, not dropped, so that the
/// text on their two sides does not run together.
pub open spec fn hidden_spans() -> Seq<SpanView> {
    seq![
        span_of("<!--"@, "-->"@, "<!---->"@),
        span_of("<![CDATA["@, "]]>"@, "<![CDATA[]]>"@),
        span_of("<?"@, "?>"@, "<??>"@),
    ]
}

/// The element `tag`, to be dropped.
pub open spec fn element_span(tag: Seq<char>) -> SpanView {
    span_of(open_tag(tag), close_tag(tag), Seq::empty())
}

/// The elements of a `pom.xml` that hold coordinates of other projects, besides
/// `<parent>`.
pub open spec fn foreign_spans() -> Seq<SpanView> {
    seq![
        element_span("profiles"@),
        element_span("dependencyManagement"@),
        element_span("build"@),
        element_span("reporting"@),
        element_span("dependencies"@),
        element_span("distributionManagement"@),
        element_span("properties"@),
    ]
}

/// What a `pom.xml` says of the project and its parent: the elements that
/// stand outside comments and hold no coordinates of other projects.
pub open spec fn project_part(doc: Seq<char>) -> Seq<char> {
    span::without_spans(span::without_spans(doc, hidden_spans()), foreign_spans())
}

/// What a `pom.xml` says of the project itself.
pub open spec fn own_part(doc: Seq<char>) -> Seq<char> {
    without_block(project_part(doc), "parent"@)
}

/// The text of an element inside `<parent>`.
pub open spec fn parent_value(doc: Seq<char>, tag: Seq<char>) -> Option<Seq<char>> {
    match block_content(doc, "parent"@) {
        Some(parent) => tag_value(parent, tag),
        None => None,
    }
}

/// The coordinates in a `pom.xml`. The project's own are preferred over those
/// of its parent, but the group and the version fall back to the parent's.
pub open spec fn pom_of(doc: Seq<char>) -> PomView {
    let (part, own) = (project_part(doc), own_part(doc));
    PomView {
        group_id: text::or_else(tag_value(own, "groupId"@), parent_value(part, "groupId"@)),
        artifact_id: tag_value(own, "artifactId"@),
        version: text::or_else(tag_value(own, "version"@), parent_value(part, "version"@)),
    }
}

/// The scip-java package name of a project: `maven/<groupId>/<artifactId>`.
pub open spec fn maven_name(pom: PomView) -> Option<Seq<char>> {
    match (pom.group_id, pom.artifact_id) {
        (Some(group), Some(artifact)) => Some("maven/"@ + group + "/"@ + artifact),
        _ => None,
    }
}

impl Pom {
    /// The scip-java package name of a project: `maven/<groupId>/<artifactId>`.
    pub fn package_name(&self) -> (r: Option<String>)
        ensures
            text::opt_view(r) == maven_name(self@),
    {
        match (&self.group_id, &self.artifact_id) {
            (Some(group), Some(artifact)) => {
                let head = text::concat("maven/", group.as_str());
                let head = text::concat(head.as_str(), "/");
                Some(text::concat(head.as_str(), artifact.as_str()))
            },
            _ => None,
        }
    }
}

/// The tag that opens an element.
fn opening(tag: &str) -> (r: Vec<char>)
    ensures
        r@ == open_tag(tag@),
{
    let head = text::concat("<", tag);
    text::chars_of(text::concat(head.as_str(), ">").as_str())
}

/// The tag that closes an element.
fn closing(tag: &str) -> (r: Vec<char>)
    ensures
        r@ == close_tag(tag@),
{
    let head = text::concat("</", tag);
    text::chars_of(text::concat(head.as_str(), ">").as_str())
}

/// `doc` without its first element `tag`.
pub fn strip_xml_block(doc: &str, tag: &str) -> (r: String)
    ensures
        r@ == without_block(doc@, tag@),
{
    let chars = text::chars_of(doc);
    let close = closing(tag);
    match (text::find_chars(&chars, &opening(tag)), text::find_chars(&chars, &close)) {
        (Some(start), Some(end)) if end > start => {
            let n: usize = chars.len();
            let mut kept: Vec<char> = Vec::new();
            kept.extend_from_slice(&chars[0..start]);
            kept.extend_from_slice(&chars[end + close.len()..n]);
            assert(kept@ =~= chars@.take(start as int) + chars@.skip(end + close@.len()));
            text::string_of(&kept)
        },
        _ => doc.to_string(),
    }
}

/// What stands inside the first element `tag`.
fn find_block<'a>(chars: &'a [char], tag: &str) -> (r: Option<&'a [char]>)
    ensures
        text::opt_slice_view(r) == block_content(chars@, tag@),
{
    let n: usize = chars.len();
    let open = opening(tag);
    let start = match text::find_chars(chars, &open) {
        Some(i) => i + open.len(),
        None => {
            return None;
        },
    };
    let rest = &chars[start..n];
    assert(rest@ =~= chars@.skip(start as int));
    let end = match text::find_chars(rest, &closing(tag)) {
        Some(end) => end,
        None => {
            return None;
        },
    };
    let inner = &rest[0..end];
    assert(inner@ =~= rest@.take(end as int));
    Some(inner)
}

/// The text of the first element `tag`, if it holds text alone.
pub fn extract_xml_tag(doc: &str, tag: &str) -> (r: Option<String>)
    ensures
        text::opt_view(r) == tag_value(doc@, tag@),
{
    let chars = text::chars_of(doc);
    let value = match find_block(&chars, tag) {
        Some(content) => text::trim(content),
        None => {
            return None;
        },
    };
    if value.len() > 0 && !text::has_char(value, '<') {
        Some(text::string_of(value))
    } else {
        None
    }
}

/// A span of a text, with what is put in its place.
fn make_span(open: &str, close: &str, put: &str) -> (r: Span)
    ensures
        r@ == span_of(open@, close@, put@),
{
    Span { open: text::chars_of(open), close: text::chars_of(close), put: text::chars_of(put) }
}

/// The element `tag`, to be dropped.
fn make_element_span(tag: &str) -> (r: Span)
    ensures
        r@ == element_span(tag@),
{
    let r = Span { open: opening(tag), close: closing(tag), put: Vec::new() };
    assert(r.put@ =~= Seq::empty());
    r
}

/// What a `pom.xml` says of the project and its parent.
fn strip_foreign(doc: &str) -> (r: String)
    ensures
        r@ == project_part(doc@),
{
    let hidden = vec![
        make_span("<!--", "-->", "<!---->"),
        make_span("<![CDATA[", "]]>", "<![CDATA[]]>"),
        make_span("<?", "?>", "<??>"),
    ];
    let foreign = vec![
        make_element_span("profiles"),
        make_element_span("dependencyManagement"),
        make_element_span("build"),
        make_element_span("reporting"),
        make_element_span("dependencies"),
        make_element_span("distributionManagement"),
        make_element_span("properties"),
    ];
    assert(span::span_views(hidden@) =~= hidden_spans());
    assert(span::span_views(foreign@) =~= foreign_spans());
    let elements = span::cut_spans(&text::chars_of(doc), &hidden);
    text::string_of(&span::cut_spans(&elements, &foreign))
}

/// The text of an element inside `<parent>`.
fn extract_parent_tag(doc: &str, tag: &str) -> (r: Option<String>)
    ensures
        text::opt_view(r) == parent_value(doc@, tag@),
{
    let chars = text::chars_of(doc);
    match find_block(&chars, "parent") {
        Some(parent) => extract_xml_tag(text::string_of(parent).as_str(), tag),
        None => None,
    }
}

/// The coordinates in a `pom.xml`.
pub fn parse_pom(doc: &str) -> (r: Pom)
    ensures
        r@ == pom_of(doc@),
{
    let part = strip_foreign(doc);
    let own = strip_xml_block(part.as_str(), "parent");
    let group_id = match extract_xml_tag(own.as_str(), "groupId") {
        Some(v) => Some(v),
        None => extract_parent_tag(part.as_str(), "groupId"),
    };
    let version = match extract_xml_tag(own.as_str(), "version") {
        Some(v) => Some(v),
        None => extract_parent_tag(part.as_str(), "version"),
    };
    Pom { group_id, artifact_id: extract_xml_tag(own.as_str(), "artifactId"), version }
}

/// Whether `doc` closes the element `tag` if it opens it.
pub open spec fn is_closed(doc: Seq<char>, tag: Seq<char>) -> bool {
    match (text::first_index(doc, open_tag(tag)), text::first_index(doc, close_tag(tag))) {
        (Some(start), Some(end)) => end > start,
        (None, None) => true,
        _ => false,
    }
}

/// An element `tag` that holds `value`.
pub open spec fn element(tag: Seq<char>, value: Seq<char>) -> Seq<char> {
    open_tag(tag) + value + close_tag(tag)
}

/// Tags are pieces of markup.
proof fn lemma_tag_markup(tag: Seq<char>, c: char)
    requires
        tag.len() > 0,
        forall|k: int| 0 <= k < tag.len() ==> (#[trigger] tag[k]) != '<',
    ensures
        tag[0] != c ==> span::is_markup(open_tag(tag), c),
        c != '/' ==> span::is_markup(close_tag(tag), c),
        open_tag(tag).len() == tag.len() + 2,
        open_tag(tag)[0] == '<',
        open_tag(tag)[1] == tag[0],
        close_tag(tag).len() == tag.len() + 3,
        close_tag(tag)[0] == '<',
        close_tag(tag)[1] == '/',
{
    reveal_strlit("<");
    reveal_strlit("</");
    reveal_strlit(">");
}

/// The first letters of the tags of coordinates, and of closing tags.
spec fn begins_own_tag(c: char) -> bool {
    c == 'g' || c == 'a' || c == 'v' || c == '/'
}

/// No span that is cut begins like a coordinate or a closing tag.
proof fn lemma_spans_markup(c: char)
    requires
        begins_own_tag(c),
    ensures
        span::open_with_markup(hidden_spans(), c),
        span::open_with_markup(foreign_spans(), c),
        span::is_markup(open_tag("parent"@), c),
{
    reveal_strlit("<!--");
    reveal_strlit("<![CDATA[");
    reveal_strlit("<?");
    reveal_strlit("profiles");
    reveal_strlit("dependencyManagement");
    reveal_strlit("build");
    reveal_strlit("reporting");
    reveal_strlit("dependencies");
    reveal_strlit("distributionManagement");
    reveal_strlit("properties");
    reveal_strlit("parent");
    lemma_tag_markup("profiles"@, c);
    lemma_tag_markup("dependencyManagement"@, c);
    lemma_tag_markup("build"@, c);
    lemma_tag_markup("reporting"@, c);
    lemma_tag_markup("dependencies"@, c);
    lemma_tag_markup("distributionManagement"@, c);
    lemma_tag_markup("properties"@, c);
    lemma_tag_markup("parent"@, c);
}

/// Spans are cut on either side of a coordinate, and the coordinate stays.
proof fn lemma_element_stays(
    head: Seq<char>,
    tag: Seq<char>,
    value: Seq<char>,
    tail: Seq<char>,
    spans: Seq<SpanView>,
)
    requires
        tag.len() > 0,
        forall|k: int| 0 <= k < tag.len() ==> (#[trigger] tag[k]) != '<',
        !value.contains('<'),
        span::all_closed(head, spans),
        span::open_with_markup(spans, tag[0]),
        span::open_with_markup(spans, '/'),
    ensures
        span::without_spans(head + element(tag, value) + tail, spans) == span::without_spans(
            head,
            spans,
        ) + element(tag, value) + span::without_spans(tail, spans),
{
    lemma_tag_markup(tag, 'x');
    reveal_strlit("<");
    reveal_strlit("</");
    reveal_strlit(">");
    let (x1, x2) = (open_tag(tag) + value, close_tag(tag));
    let y = element(tag, value) + tail;
    assert(y =~= x1 + (x2 + tail));
    assert(head + element(tag, value) + tail =~= head + y);
    span::lemma_cut_apart(head, y, spans, '/');
    assert forall|i: int| 0 <= i < x1.len() implies (#[trigger] x1[i]) != '<' || (i + 1 < x1.len()
        && x1[i + 1] == tag[0]) by {
        if i >= open_tag(tag).len() {
            assert(x1[i] == value[i - open_tag(tag).len()]);
        }
    }
    span::lemma_plain(x1, x2 + tail, spans, tag[0]);
    span::lemma_plain(x2, tail, spans, '/');
    assert(span::without_spans(head, spans) + (x1 + (x2 + span::without_spans(tail, spans)))
        =~= span::without_spans(head, spans) + element(tag, value) + span::without_spans(
        tail,
        spans,
    ));
}

/// A mark that is not in `a` is not in `a` with markup behind it either, unless
/// it stands behind `a`.
proof fn lemma_absent_before(a: Seq<char>, y: Seq<char>, mark: Seq<char>, c: char)
    requires
        y.len() > 0,
        y[0] == '<',
        span::is_markup(mark, c),
        text::first_index(a, mark) is None,
    ensures
        forall|j: int| 0 <= j < a.len() ==> !text::has_prefix(#[trigger] (a + y).skip(j), mark),
{
    text::lemma_first_index(a, mark);
    assert forall|j: int| 0 <= j < a.len() implies !text::has_prefix(
        #[trigger] (a + y).skip(j),
        mark,
    ) by {
        assert((a + y).skip(j) =~= a.skip(j) + y);
        span::lemma_no_overlap(a.skip(j), y, mark, c);
    }
}

/// Where `a` closes `<parent>`, dropping `<parent>` leaves a coordinate behind
/// `a` as it is.
proof fn lemma_parent_apart(a: Seq<char>, tag: Seq<char>, value: Seq<char>, b: Seq<char>) -> (rest:
    Seq<char>)
    requires
        tag.len() > 0,
        begins_own_tag(tag[0]),
        tag[0] != '/',
        forall|k: int| 0 <= k < tag.len() ==> (#[trigger] tag[k]) != '<',
        !value.contains('<'),
        is_closed(a, "parent"@),
    ensures
        without_block(a + element(tag, value) + b, "parent"@) == without_block(a, "parent"@)
            + element(tag, value) + rest,
{
    let x = element(tag, value);
    let y = x + b;
    let s = a + y;
    let (open, close) = (open_tag("parent"@), close_tag("parent"@));
    assert(a + x + b =~= s);
    lemma_tag_markup(tag, 'x');
    match text::first_index(a, open) {
        Some(start) => {
            let end = text::first_index(a, close).unwrap();
            span::lemma_first_stays(a, y, open);
            span::lemma_first_stays(a, y, close);
            text::lemma_first_index(a, open);
            text::lemma_first_index(a, close);
            let end = end + close.len();
            assert(s.take(start) + s.skip(end) =~= a.take(start) + a.skip(end) + x + b);
            b
        },
        None => {
            lemma_spans_markup(tag[0]);
            lemma_spans_markup('/');
            lemma_absent_before(a, y, open, '/');
            text::lemma_first_index(s, open);
            text::lemma_first_index(s, close);
            match (text::first_index(s, open), text::first_index(s, close)) {
                (Some(start), Some(end)) => {
                    if end > start {
                        assert(text::has_prefix(s.skip(start), open)) by {
                            assert(s.skip(start).take(open.len() as int) =~= s.subrange(
                                start,
                                start + open.len(),
                            ));
                        }
                        assert(s[start] == '<' && s[start + 1] == 'p') by {
                            reveal_strlit("parent");
                            lemma_tag_markup("parent"@, 'x');
                            assert(s.subrange(start, start + open.len())[0] == s[start]);
                            assert(s.subrange(start, start + open.len())[1] == s[start + 1]);
                        }
                        lemma_element_chars(tag, value);
                        assert(start >= a.len() + x.len()) by {
                            if a.len() <= start < a.len() + x.len() {
                                assert(s[start] == x[start - a.len()]);
                                assert(s[start + 1] == x[start + 1 - a.len()]);
                            }
                        }
                        let rest = s.take(start).skip((a.len() + x.len()) as int) + s.skip(
                            end + close.len(),
                        );
                        assert(s.take(start) + s.skip(end + close.len()) =~= a + x + rest);
                        rest
                    } else {
                        b
                    }
                },
                _ => b,
            }
        },
    }
}

/// Each `<` of an element goes on with the tag or a slash.
proof fn lemma_element_chars(tag: Seq<char>, value: Seq<char>)
    requires
        tag.len() > 0,
        forall|k: int| 0 <= k < tag.len() ==> (#[trigger] tag[k]) != '<',
        !value.contains('<'),
    ensures
        ({
            let x = element(tag, value);
            forall|i: int|
                0 <= i < x.len() && (#[trigger] x[i]) == '<' ==> i + 1 < x.len() && (x[i + 1]
                    == tag[0] || x[i + 1] == '/')
        }),
{
    reveal_strlit("<");
    reveal_strlit("</");
    reveal_strlit(">");
    let x = element(tag, value);
    let n = open_tag(tag).len() as int;
    assert forall|i: int| 0 <= i < x.len() && (#[trigger] x[i]) == '<' implies i + 1 < x.len() && (
    x[i + 1] == tag[0] || x[i + 1] == '/') by {
        if n <= i < n + value.len() {
            assert(x[i] == value[i - n]);
        }
    }
}

/// Trimming adds no character.
proof fn lemma_trimmed_chars(s: Seq<char>, c: char)
    requires
        !s.contains(c),
    ensures
        !text::trimmed(s).contains(c),
{
    lemma_trimmed_start_chars(s, c);
    lemma_trimmed_end_chars(text::trimmed_start(s), c);
}

/// Trimming at the start adds no character.
proof fn lemma_trimmed_start_chars(s: Seq<char>, c: char)
    requires
        !s.contains(c),
    ensures
        !text::trimmed_start(s).contains(c),
    decreases s.len(),
{
    if s.len() > 0 && text::white_space(s[0]) {
        assert forall|i: int| 0 <= i < s.skip(1).len() implies s.skip(1)[i] != c by {
            assert(s.skip(1)[i] == s[i + 1]);
        }
        lemma_trimmed_start_chars(s.skip(1), c);
    }
}

/// Trimming at the end adds no character.
proof fn lemma_trimmed_end_chars(s: Seq<char>, c: char)
    requires
        !s.contains(c),
    ensures
        !text::trimmed_end(s).contains(c),
    decreases s.len(),
{
    if s.len() > 0 && text::white_space(s.last()) {
        assert forall|i: int| 0 <= i < s.drop_last().len() implies s.drop_last()[i] != c by {
            assert(s.drop_last()[i] == s[i]);
        }
        lemma_trimmed_end_chars(s.drop_last(), c);
    }
}

/// The first element `tag` of a text is the one whose opening tag comes first.
proof fn lemma_first_element(a: Seq<char>, tag: Seq<char>, value: Seq<char>, b: Seq<char>)
    requires
        tag.len() > 0,
        forall|k: int| 0 <= k < tag.len() ==> (#[trigger] tag[k]) != '<',
        !value.contains('<'),
        tag[0] != 'x',
        text::first_index(a, open_tag(tag)) is None,
        text::trimmed(value).len() > 0,
    ensures
        tag_value(a + element(tag, value) + b, tag) == Some(text::trimmed(value)),
{
    let (open, close) = (open_tag(tag), close_tag(tag));
    let y = element(tag, value) + b;
    let s = a + y;
    assert(a + element(tag, value) + b =~= s);
    lemma_tag_markup(tag, 'x');
    lemma_absent_before(a, y, open, 'x');
    assert(s.skip(a.len() as int).take(open.len() as int) =~= open);
    span::lemma_first_at(s, open, a.len() as int);
    let rest = s.skip((a.len() + open.len()) as int);
    let n = value.len() as int;
    assert(rest =~= value + close + b);
    assert(rest.skip(n).take(close.len() as int) =~= close);
    assert forall|j: int| 0 <= j < n implies !text::has_prefix(#[trigger] rest.skip(j), close) by {
        assert(rest.skip(j)[0] == value[j]);
        if text::has_prefix(rest.skip(j), close) {
            assert(rest.skip(j).take(close.len() as int)[0] == close[0]);
        }
    }
    span::lemma_first_at(rest, close, n);
    assert(rest.take(n) =~= value);
    lemma_trimmed_chars(value, '<');
}

/// A coordinate of the project itself is kept: one that stands outside
/// comments, outside the elements that hold coordinates of other projects and
/// outside `<parent>`, with no other of its kind before it, is the one that is
/// found. Nothing that stands behind it matters.
pub proof fn law_own_coordinates_are_kept(
    head: Seq<char>,
    tag: Seq<char>,
    value: Seq<char>,
    tail: Seq<char>,
)
    requires
        tag == "groupId"@ || tag == "artifactId"@ || tag == "version"@,
        !value.contains('<'),
        text::trimmed(value).len() > 0,
        span::all_closed(head, hidden_spans()),
        span::all_closed(span::without_spans(head, hidden_spans()), foreign_spans()),
        is_closed(project_part(head), "parent"@),
        text::first_index(own_part(head), open_tag(tag)) is None,
    ensures
        ({
            let pom = pom_of(head + element(tag, value) + tail);
            let found = Some(text::trimmed(value));
            &&& tag == "groupId"@ ==> pom.group_id == found
            &&& tag == "artifactId"@ ==> pom.artifact_id == found
            &&& tag == "version"@ ==> pom.version == found
        }),
{
    reveal_strlit("groupId");
    reveal_strlit("artifactId");
    reveal_strlit("version");
    lemma_spans_markup(tag[0]);
    lemma_spans_markup('/');
    let doc = head + element(tag, value) + tail;
    let (head1, tail1) = (
        span::without_spans(head, hidden_spans()),
        span::without_spans(tail, hidden_spans()),
    );
    lemma_element_stays(head, tag, value, tail, hidden_spans());
    lemma_element_stays(head1, tag, value, tail1, foreign_spans());
    let rest = lemma_parent_apart(
        project_part(head),
        tag,
        value,
        span::without_spans(tail1, foreign_spans()),
    );
    lemma_first_element(own_part(head), tag, value, rest);
}

} // verus!
