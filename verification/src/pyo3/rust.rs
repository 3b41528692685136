//! The items of Rust sources.
//!
//! syn parses the text. What the scanner reads of an item comes out as plain
//! values: its name with its place, its attributes, and what is inside it.

use crate::text;
use vstd::prelude::*;

verus! {

/// An attribute.
#[derive(Debug)]
pub struct RustAttr {
    /// The attribute's name, if it is a single identifier.
    pub ident: Option<String>,
    /// The tokens in its parentheses, if it has any.
    pub arguments: Option<String>,
}

/// What a [`RustAttr`] holds.
pub struct RustAttrView {
    pub ident: Option<Seq<char>>,
    pub arguments: Option<Seq<char>>,
}

impl View for RustAttr {
    type V = RustAttrView;

    open spec fn view(&self) -> RustAttrView {
        RustAttrView {
            ident: text::opt_view(self.ident),
            arguments: text::opt_view(self.arguments),
        }
    }
}

/// What each attribute of a list holds.
pub open spec fn attr_views(v: Seq<RustAttr>) -> Seq<RustAttrView> {
    v.map_values(|a: RustAttr| a@)
}

/// An item's name, where it stands, and the item's attributes.
#[derive(Debug)]
pub struct RustNamed {
    pub name: String,
    /// One-based line.
    pub line: usize,
    /// Zero-based column.
    pub column: usize,
    pub attrs: Vec<RustAttr>,
}

/// What a [`RustNamed`] holds.
pub struct RustNamedView {
    pub name: Seq<char>,
    pub line: usize,
    pub column: usize,
    pub attrs: Seq<RustAttrView>,
}

impl View for RustNamed {
    type V = RustNamedView;

    open spec fn view(&self) -> RustNamedView {
        RustNamedView {
            name: self.name@,
            line: self.line,
            column: self.column,
            attrs: attr_views(self.attrs@),
        }
    }
}

/// An `impl` block.
#[derive(Debug)]
pub struct RustImpl {
    pub attrs: Vec<RustAttr>,
    /// The path of the type that it is for, if that is a path.
    pub class: Option<Vec<String>>,
    /// Its items, in order: the functions, and nothing for each other item.
    pub items: Vec<Option<RustNamed>>,
}

/// What a [`RustImpl`] holds.
pub struct RustImplView {
    pub attrs: Seq<RustAttrView>,
    pub class: Option<Seq<Seq<char>>>,
    pub items: Seq<Option<RustNamedView>>,
}

/// What each optional function of a list holds.
pub open spec fn method_views(v: Seq<Option<RustNamed>>) -> Seq<Option<RustNamedView>> {
    v.map_values(
        |m: Option<RustNamed>|
            match m {
                Some(n) => Some(n@),
                None => None,
            },
    )
}

impl View for RustImpl {
    type V = RustImplView;

    open spec fn view(&self) -> RustImplView {
        RustImplView {
            attrs: attr_views(self.attrs@),
            class: match self.class {
                Some(path) => Some(text::strings_view(path@)),
                None => None,
            },
            items: method_views(self.items@),
        }
    }
}

/// An item.
#[derive(Debug)]
pub enum RustItem {
    Fn(RustNamed),
    Struct(RustNamed),
    Enum(RustNamed),
    Impl(RustImpl),
    /// The items of a module that has its contents in the file.
    Mod(Vec<RustItem>),
    /// Any other item.
    Other,
}

/// What a [`RustItem`] holds.
pub enum RustItemView {
    Fn(RustNamedView),
    Struct(RustNamedView),
    Enum(RustNamedView),
    Impl(RustImplView),
    Mod(Seq<RustItemView>),
    Other,
}

/// What an item holds.
pub open spec fn item_view(item: RustItem) -> RustItemView
    decreases item,
{
    match item {
        RustItem::Fn(n) => RustItemView::Fn(n@),
        RustItem::Struct(n) => RustItemView::Struct(n@),
        RustItem::Enum(n) => RustItemView::Enum(n@),
        RustItem::Impl(b) => RustItemView::Impl(b@),
        RustItem::Mod(items) => RustItemView::Mod(item_views(items@)),
        RustItem::Other => RustItemView::Other,
    }
}

/// What each item of a list holds.
pub open spec fn item_views(items: Seq<RustItem>) -> Seq<RustItemView>
    decreases items,
{
    if items.len() == 0 {
        Seq::empty()
    } else {
        item_views(items.drop_last()).push(item_view(items.last()))
    }
}

/// What syn makes of a text: its items, or nothing if it is not valid Rust.
pub uninterp spec fn rust_syntax(text: Seq<char>) -> Option<Seq<RustItemView>>;

/// What syn makes of an attribute's arguments: the key of each, if that is a
/// single identifier, and the string literal that follows a key whose value is
/// read.
pub uninterp spec fn argument_pairs(arguments: Seq<char>) -> Seq<PairView>;

/// syn's error, carried through and never looked into.
#[verifier::external_type_specification]
#[verifier::external_body]
pub struct ExSynError(syn::Error);

/// An item as syn holds it.
#[verifier::external_type_specification]
#[verifier::external_body]
pub struct ExItem(syn::Item);

/// An `impl` block as syn holds it.
#[verifier::external_type_specification]
#[verifier::external_body]
pub struct ExItemImpl(syn::ItemImpl);

/// An attribute as syn holds it.
#[verifier::external_type_specification]
#[verifier::external_body]
pub struct ExAttribute(syn::Attribute);

/// An identifier as syn holds it.
#[verifier::external_type_specification]
#[verifier::external_body]
pub struct ExIdent(proc_macro2::Ident);

/// Attributes of syn as plain values: `Path::get_ident` gives the name,
/// `Meta::require_list` the arguments. What they are is named with the whole
/// source, see [`parse_items`].
#[verifier::external_body]
fn convert_attrs(attrs: &Vec<syn::Attribute>) -> (r: Vec<RustAttr>) {
    attrs.iter().map(|a| RustAttr {
        ident: a.path().get_ident().map(|i| i.to_string()),
        arguments: a.meta.require_list().ok().map(|l| l.tokens.to_string()),
    }).collect()
}

/// An identifier of syn and the attributes of its item as plain values;
/// `proc_macro2::Span::start` gives the place. What they are is named with the
/// whole source, see [`parse_items`].
#[verifier::external_body]
fn convert_named(ident: &proc_macro2::Ident, attrs: &Vec<syn::Attribute>) -> (r: RustNamed) {
    let at = ident.span().start();
    RustNamed {
        name: ident.to_string(),
        line: at.line,
        column: at.column,
        attrs: convert_attrs(attrs),
    }
}

/// An `impl` block of syn as plain values. What they are is named with the
/// whole source, see [`parse_items`].
#[verifier::external_body]
fn convert_impl(i: &syn::ItemImpl) -> (r: RustImpl) {
    RustImpl {
        attrs: convert_attrs(&i.attrs),
        class: match &*i.self_ty {
            syn::Type::Path(p) => Some(
                p.path.segments.iter().map(|s| s.ident.to_string()).collect()),
            _ => None,
        },
        items: i.items.iter().map(|m| match m {
            syn::ImplItem::Fn(f) => Some(convert_named(&f.sig.ident, &f.attrs)),
            _ => None,
        }).collect(),
    }
}

/// An item of syn as plain values. What they are is named with the whole
/// source, see [`parse_items`].
#[verifier::external_body]
fn convert_item(item: &syn::Item) -> (r: RustItem) {
    match item {
        syn::Item::Fn(f) => RustItem::Fn(convert_named(&f.sig.ident, &f.attrs)),
        syn::Item::Struct(s) => RustItem::Struct(convert_named(&s.ident, &s.attrs)),
        syn::Item::Enum(e) => RustItem::Enum(convert_named(&e.ident, &e.attrs)),
        syn::Item::Mod(m) => RustItem::Mod(
            m.content.iter().flat_map(|c| c.1.iter().map(convert_item)).collect()),
        syn::Item::Impl(i) => RustItem::Impl(convert_impl(i)),
        _ => RustItem::Other,
    }
}

/// `syn::parse_file`, with the items of the file as plain values. The result
/// depends on the text alone; [`rust_syntax`] is its name. Places are counted
/// in 32 bits from the last call of
/// `proc_macro2::extra::invalidate_current_thread_spans` on, which comes
/// first; longer texts are left out. Spans that the thread holds from before
/// become invalid, and the call is not for use inside a procedural macro.
#[verifier::external_body]
fn parse_items(text: &str) -> (r: Result<Vec<RustItem>, syn::Error>)
    requires
        text::is_countable(text@),
    ensures
        rust_syntax(text@) == (match r {
            Ok(items) => Some(item_views(items@)),
            Err(_) => None,
        }),
{
    proc_macro2::extra::invalidate_current_thread_spans();
    Ok(syn::parse_file(text)?.items.iter().map(convert_item).collect())
}

/// Whether the value of a key among an attribute's arguments is read: that of
/// `name` is. The values of other keys are left alone.
pub fn is_name_key(key: &Option<String>) -> (r: bool)
    ensures
        r == (text::opt_view(*key) == Some("name"@)),
{
    match key {
        Some(key) => text::str_eq(key.as_str(), "name"),
        None => false,
    }
}

/// A key and a string literal among an attribute's arguments.
pub type PairView = (Option<Seq<char>>, Option<Seq<char>>);

/// What each pair of a list holds.
pub open spec fn pair_views(v: Seq<(Option<String>, Option<String>)>) -> Seq<PairView> {
    v.map_values(|p: (Option<String>, Option<String>)| (text::opt_view(p.0), text::opt_view(p.1)))
}

/// `syn::meta::parser` on an attribute's arguments: the key of each, in order,
/// and for a key that [`is_name_key`] accepts the string literal that is its
/// value. It stops at the first argument that is not a bare key or such a key
/// with a value. The result depends on the arguments alone; [`argument_pairs`]
/// is its name. Texts too long for 32-bit places are left out, as in
/// [`parse_items`].
#[verifier::external_body]
fn parse_arguments(arguments: &str) -> (r: Vec<(Option<String>, Option<String>)>)
    requires
        text::is_countable(arguments@),
    ensures
        pair_views(r@) == argument_pairs(arguments@),
{
    proc_macro2::extra::invalidate_current_thread_spans();
    let mut pairs = Vec::new();
    let parser = syn::meta::parser(|meta| {
        let key = meta.path.get_ident().map(|i| i.to_string());
        let value = if is_name_key(&key) { Some(meta.value()?.parse()?) } else { None };
        pairs.push((key, match value {
            Some(syn::Expr::Lit(syn::ExprLit { lit: syn::Lit::Str(s), .. })) => Some(s.value()),
            _ => None,
        }));
        Ok(())
    });
    let _ = syn::parse::Parser::parse_str(parser, arguments);
    pairs
}

/// The last string literal that stands with `key`.
pub open spec fn last_literal(pairs: Seq<PairView>, key: Seq<char>) -> Option<Seq<char>>
    decreases pairs.len(),
{
    if pairs.len() == 0 {
        None
    } else if pairs.last().0 == Some(key) && pairs.last().1 is Some {
        pairs.last().1
    } else {
        last_literal(pairs.drop_last(), key)
    }
}

/// The name that an attribute's arguments give: the last string literal that
/// stands with the key `name`.
pub fn pick_name(pairs: &Vec<(Option<String>, Option<String>)>) -> (r: Option<String>)
    ensures
        text::opt_view(r) == last_literal(pair_views(pairs@), "name"@),
{
    let ghost all = pair_views(pairs@);
    let mut n: usize = pairs.len();
    assert(all.take(n as int) =~= all);
    while n > 0
        invariant
            0 <= n <= pairs@.len(),
            all == pair_views(pairs@),
            last_literal(all, "name"@) == last_literal(all.take(n as int), "name"@),
        decreases n,
    {
        let pair = &pairs[n - 1];
        assert(all[n - 1] == (text::opt_view(pair.0), text::opt_view(pair.1)));
        assert(all.take(n as int).drop_last() =~= all.take(n - 1));
        if is_name_key(&pair.0) {
            if let Some(literal) = &pair.1 {
                return Some(literal.clone());
            }
        }
        n -= 1;
    }
    None
}

/// The value of the `name` key among an attribute's arguments.
pub open spec fn named_by(arguments: Seq<char>) -> Option<Seq<char>> {
    if text::is_countable(arguments) {
        last_literal(argument_pairs(arguments), "name"@)
    } else {
        None
    }
}

/// The value of the `name` key among an attribute's arguments.
pub fn extract_name_argument(arguments: &str) -> (r: Option<String>)
    ensures
        text::opt_view(r) == named_by(arguments@),
{
    if text::fits_counters(arguments) {
        pick_name(&parse_arguments(arguments))
    } else {
        None
    }
}

/// The items of a Rust source; none if it is not valid Rust or too long.
pub open spec fn items_of(text: Seq<char>) -> Option<Seq<RustItemView>> {
    if text::is_countable(text) {
        rust_syntax(text)
    } else {
        None
    }
}

/// The items of a Rust source; none if it is not valid Rust or too long.
pub fn parse_rust(text: &str) -> (r: Option<Vec<RustItem>>)
    ensures
        r matches Some(items) ==> items_of(text@) == Some(item_views(items@)),
        r is None ==> items_of(text@) is None,
{
    if !text::fits_counters(text) {
        return None;
    }
    match parse_items(text) {
        Ok(items) => Some(items),
        Err(_) => None,
    }
}

} // verus!
