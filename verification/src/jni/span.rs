//! Spans of a text that are cut out of it.
//!
//! A span goes from an opening mark to the next closing mark behind it. An
//! opening mark that nothing closes is text like any other.

use crate::text;
use vstd::prelude::*;

verus! {

/// A kind of span: its marks, and what is put in its place.
pub struct Span {
    pub open: Vec<char>,
    pub close: Vec<char>,
    pub put: Vec<char>,
}

/// What a [`Span`] holds.
pub struct SpanView {
    pub open: Seq<char>,
    pub close: Seq<char>,
    pub put: Seq<char>,
}

impl View for Span {
    type V = SpanView;

    open spec fn view(&self) -> SpanView {
        SpanView { open: self.open@, close: self.close@, put: self.put@ }
    }
}

/// What each kind of a list holds.
pub open spec fn span_views(v: Seq<Span>) -> Seq<SpanView> {
    v.map_values(|s: Span| s@)
}

/// The first kind of the list whose opening mark `s` begins with.
pub open spec fn span_at(s: Seq<char>, spans: Seq<SpanView>) -> Option<SpanView>
    decreases spans.len(),
{
    if spans.len() == 0 {
        None
    } else if spans[0].open.len() > 0 && text::has_prefix(s, spans[0].open) {
        Some(spans[0])
    } else {
        span_at(s, spans.skip(1))
    }
}

/// How long the span is that `s` begins with the opening mark of.
pub open spec fn span_len(s: Seq<char>, p: SpanView) -> Option<int> {
    match text::first_index(s.skip(p.open.len() as int), p.close) {
        Some(i) => Some(p.open.len() + i + p.close.len()),
        None => None,
    }
}

/// A span is not empty and lies in the text.
pub proof fn lemma_span_len(s: Seq<char>, spans: Seq<SpanView>)
    ensures
        span_at(s, spans) matches Some(p) ==> p.open.len() > 0 && text::has_prefix(s, p.open),
        span_at(s, spans) matches Some(p) ==> (span_len(s, p) matches Some(n) ==> 0 < n
            <= s.len()),
    decreases spans.len(),
{
    if spans.len() > 0 {
        lemma_span_len(s, spans.skip(1));
        text::lemma_first_index(s.skip(spans[0].open.len() as int), spans[0].close);
    }
}

/// `s` with each span replaced by what is put in its place.
pub open spec fn without_spans(s: Seq<char>, spans: Seq<SpanView>) -> Seq<char>
    decreases s.len(),
{
    proof {
        lemma_span_len(s, spans);
    }
    if s.len() == 0 {
        s
    } else {
        match span_at(s, spans) {
            Some(p) => match span_len(s, p) {
                Some(n) => p.put + without_spans(s.skip(n), spans),
                None => seq![s[0]] + without_spans(s.skip(1), spans),
            },
            None => seq![s[0]] + without_spans(s.skip(1), spans),
        }
    }
}

/// The first kind of the list whose opening mark `s` begins with.
fn find_span<'a>(s: &[char], spans: &'a Vec<Span>) -> (r: Option<&'a Span>)
    ensures
        r matches Some(p) ==> span_at(s@, span_views(spans@)) == Some(p@),
        r is None ==> span_at(s@, span_views(spans@)) is None,
{
    let ghost views = span_views(spans@);
    let mut i: usize = 0;
    assert(views.skip(0) =~= views);
    while i < spans.len()
        invariant
            0 <= i <= spans@.len(),
            views == span_views(spans@),
            span_at(s@, views) == span_at(s@, views.skip(i as int)),
        decreases spans.len() - i,
    {
        assert(views.skip(i as int)[0] == spans@[i as int]@);
        if spans[i].open.len() > 0 && text::starts_with_chars(s, &spans[i].open) {
            return Some(&spans[i]);
        }
        assert(views.skip(i as int).skip(1) =~= views.skip(i + 1));
        i += 1;
    }
    None
}

/// `s` with each span replaced by what is put in its place.
pub fn cut_spans(s: &[char], spans: &Vec<Span>) -> (r: Vec<char>)
    ensures
        r@ == without_spans(s@, span_views(spans@)),
{
    let ghost views = span_views(spans@);
    let n: usize = s.len();
    let mut out: Vec<char> = Vec::new();
    let mut i: usize = 0;
    assert(s@.skip(0) =~= s@);
    assert(out@ + without_spans(s@, views) =~= without_spans(s@, views));
    while i < n
        invariant
            0 <= i <= n == s@.len(),
            views == span_views(spans@),
            out@ + without_spans(s@.skip(i as int), views) == without_spans(s@, views),
        decreases n - i,
    {
        let rest = &s[i..n];
        assert(rest@ =~= s@.skip(i as int));
        proof {
            lemma_span_len(rest@, views);
        }
        let ghost before = out@;
        let mut len: usize = 0;
        if let Some(p) = find_span(rest, spans) {
            let inner = &rest[p.open.len()..rest.len()];
            assert(inner@ =~= rest@.skip(p.open@.len() as int));
            if let Some(k) = text::find_chars(inner, &p.close) {
                len = p.open.len() + k + p.close.len();
                out.extend_from_slice(&p.put);
                assert(out@ =~= before + p.put@);
                assert(before + (p.put@ + without_spans(rest@.skip(len as int), views)) =~= out@
                    + without_spans(rest@.skip(len as int), views));
            }
        }
        if len == 0 {
            len = 1;
            out.push(s[i]);
            assert(before + (seq![rest@[0]] + without_spans(rest@.skip(1), views)) =~= out@
                + without_spans(rest@.skip(1), views));
        }
        assert(rest@.skip(len as int) =~= s@.skip(i + len));
        i += len;
    }
    assert(out@ + without_spans(s@.skip(i as int), views) =~= out@);
    out
}

/// Whether every opening mark that counts in `s` is closed in `s`.
pub open spec fn all_closed(s: Seq<char>, spans: Seq<SpanView>) -> bool
    decreases s.len(),
{
    proof {
        lemma_span_len(s, spans);
    }
    if s.len() == 0 {
        true
    } else {
        match span_at(s, spans) {
            Some(p) => match span_len(s, p) {
                Some(n) => all_closed(s.skip(n), spans),
                None => false,
            },
            None => all_closed(s.skip(1), spans),
        }
    }
}

/// Whether a mark is a piece of markup: it starts with `<`, holds no other,
/// and does not go on with `c`.
pub open spec fn is_markup(mark: Seq<char>, c: char) -> bool {
    &&& mark.len() >= 2
    &&& mark[0] == '<'
    &&& mark[1] != c
    &&& forall|k: int| 0 < k < mark.len() ==> (#[trigger] mark[k]) != '<'
}

/// Whether all opening marks are pieces of markup that do not go on with `c`.
pub open spec fn open_with_markup(spans: Seq<SpanView>, c: char) -> bool {
    forall|i: int| 0 <= i < spans.len() ==> is_markup((#[trigger] spans[i]).open, c)
}

/// Markup that begins in `a` does not reach into `y`, which begins with `<`.
pub proof fn lemma_no_overlap(a: Seq<char>, y: Seq<char>, mark: Seq<char>, c: char)
    requires
        a.len() > 0,
        y.len() > 0,
        y[0] == '<',
        is_markup(mark, c),
    ensures
        text::has_prefix(a + y, mark) == text::has_prefix(a, mark),
{
    let s = a + y;
    if mark.len() <= a.len() {
        assert(s.take(mark.len() as int) =~= a.take(mark.len() as int));
    } else if text::has_prefix(s, mark) {
        assert(s.take(mark.len() as int)[a.len() as int] == mark[a.len() as int]);
        assert(s[a.len() as int] == y[0]);
    }
}

/// Which kind of span begins `a` does not depend on what follows `a`.
proof fn lemma_span_at(a: Seq<char>, y: Seq<char>, spans: Seq<SpanView>, c: char)
    requires
        a.len() > 0,
        y.len() > 0,
        y[0] == '<',
        open_with_markup(spans, c),
    ensures
        span_at(a + y, spans) == span_at(a, spans),
    decreases spans.len(),
{
    if spans.len() > 0 {
        lemma_no_overlap(a, y, spans[0].open, c);
        assert forall|i: int| 0 <= i < spans.skip(1).len() implies is_markup(
            (#[trigger] spans.skip(1)[i]).open,
            c,
        ) by {
            assert(spans.skip(1)[i] == spans[i + 1]);
        }
        lemma_span_at(a, y, spans.skip(1), c);
    }
}

/// The first place of `p`, where no earlier one is.
pub proof fn lemma_first_at(s: Seq<char>, p: Seq<char>, n: int)
    requires
        0 <= n <= s.len(),
        text::has_prefix(s.skip(n), p),
        forall|j: int| 0 <= j < n ==> !text::has_prefix(#[trigger] s.skip(j), p),
    ensures
        text::first_index(s, p) == Some(n),
{
    text::lemma_first_index(s, p);
    match text::first_index(s, p) {
        Some(i) => {
            assert(s.skip(i).take(p.len() as int) =~= s.subrange(i, i + p.len()));
            assert(text::has_prefix(s.skip(i), p));
            if n < i {
                assert(text::has_prefix(s.skip(n), p));
            }
        },
        None => {},
    }
}

/// What is found in `a` is found there whatever follows.
pub proof fn lemma_first_stays(a: Seq<char>, y: Seq<char>, p: Seq<char>)
    ensures
        text::first_index(a, p) is Some ==> text::first_index(a + y, p) == text::first_index(a, p),
{
    let s = a + y;
    text::lemma_first_index(a, p);
    if let Some(n) = text::first_index(a, p) {
        assert(s.skip(n).take(p.len() as int) =~= a.subrange(n, n + p.len()));
        assert forall|j: int| 0 <= j < n implies !text::has_prefix(#[trigger] s.skip(j), p) by {
            assert(s.skip(j).take(p.len() as int) =~= a.skip(j).take(p.len() as int));
            assert(!text::has_prefix(a.skip(j), p));
        }
        lemma_first_at(s, p, n);
    }
}

/// Where every span of `a` is closed, the spans behind `a` are cut on their
/// own.
pub proof fn lemma_cut_apart(a: Seq<char>, y: Seq<char>, spans: Seq<SpanView>, c: char)
    requires
        all_closed(a, spans),
        y.len() > 0,
        y[0] == '<',
        open_with_markup(spans, c),
    ensures
        without_spans(a + y, spans) == without_spans(a, spans) + without_spans(y, spans),
    decreases a.len(),
{
    let s = a + y;
    if a.len() == 0 {
        assert(s =~= y);
        assert(without_spans(a, spans) + without_spans(y, spans) =~= without_spans(y, spans));
    } else {
        lemma_span_len(a, spans);
        lemma_span_at(a, y, spans, c);
        match span_at(a, spans) {
            Some(p) => {
                let open = p.open.len() as int;
                let n = span_len(a, p).unwrap();
                assert(s.skip(open) =~= a.skip(open) + y);
                lemma_first_stays(a.skip(open), y, p.close);
                assert(span_len(s, p) == Some(n));
                assert(s.skip(n) =~= a.skip(n) + y);
                lemma_cut_apart(a.skip(n), y, spans, c);
                assert(without_spans(s, spans) =~= without_spans(a, spans) + without_spans(
                    y,
                    spans,
                ));
            },
            None => {
                assert(s.skip(1) =~= a.skip(1) + y);
                lemma_cut_apart(a.skip(1), y, spans, c);
                assert(without_spans(s, spans) =~= without_spans(a, spans) + without_spans(
                    y,
                    spans,
                ));
            },
        }
    }
}

/// No span begins with a character that begins no mark.
proof fn lemma_no_span(s: Seq<char>, spans: Seq<SpanView>, c: char)
    requires
        open_with_markup(spans, c),
        s.len() > 0,
        s[0] != '<' || (s.len() > 1 && s[1] == c),
    ensures
        span_at(s, spans) is None,
    decreases spans.len(),
{
    if spans.len() > 0 {
        let open = spans[0].open;
        assert(is_markup(open, c));
        if text::has_prefix(s, open) {
            assert(s.take(open.len() as int)[0] == s[0]);
            assert(s.take(open.len() as int)[1] == s[1]);
        }
        assert forall|i: int| 0 <= i < spans.skip(1).len() implies is_markup(
            (#[trigger] spans.skip(1)[i]).open,
            c,
        ) by {
            assert(spans.skip(1)[i] == spans[i + 1]);
        }
        lemma_no_span(s, spans.skip(1), c);
    }
}

/// A tag that begins no span, or text behind one, stays.
pub proof fn lemma_plain(x: Seq<char>, y: Seq<char>, spans: Seq<SpanView>, c: char)
    requires
        open_with_markup(spans, c),
        forall|i: int|
            0 <= i < x.len() ==> (#[trigger] x[i]) != '<' || (i + 1 < x.len() && x[i + 1] == c),
    ensures
        without_spans(x + y, spans) == x + without_spans(y, spans),
    decreases x.len(),
{
    let s = x + y;
    if x.len() == 0 {
        assert(s =~= y);
        assert(x + without_spans(y, spans) =~= without_spans(y, spans));
    } else {
        assert(x[0] != '<' || x[1] == c);
        lemma_no_span(s, spans, c);
        assert(s.skip(1) =~= x.skip(1) + y);
        assert forall|i: int| 0 <= i < x.skip(1).len() implies (#[trigger] x.skip(1)[i]) != '<' || (i
            + 1 < x.skip(1).len() && x.skip(1)[i + 1] == c) by {
            assert(x.skip(1)[i] == x[i + 1]);
        }
        lemma_plain(x.skip(1), y, spans, c);
        assert(seq![s[0]] + (x.skip(1) + without_spans(y, spans)) =~= x + without_spans(y, spans));
    }
}

} // verus!
