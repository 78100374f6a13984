//! Parsing source text into the item model.
//!
//! The syntax tree itself comes from the `syn` crate and each item's text
//! from `prettyplease`; this module only classifies each top-level item,
//! extracts the identifier it carries, and assembles the crate's own item
//! values. Items `prettyplease` refuses to print — verbatim tokens and
//! macro definitions whose body is not in rule form — are rendered from
//! their raw token text instead, so parsing is total on everything the
//! parser accepts. Grouping and layout then work on the assembled values
//! alone; `parsed_items_of` names the whole outcome, so the contract of
//! `parse_file` pins the parse result of every text.

use proc_macro2::Spacing;
use proc_macro2::TokenTree;
use quote::ToTokens;
use syn::Item;
use vstd::prelude::*;

use crate::error::Error;
use crate::item::{
    views_of, Enum, Function, Implementation, ItemKind, ItemView, MacroRules, SourceItem, Struct,
    Trait, Type, Union, Use,
};

verus! {

#[verifier::external_type_specification]
#[verifier::external_body]
pub struct ExSynItem(syn::Item);

#[verifier::external_type_specification]
#[verifier::external_body]
pub struct ExTokenStream(proc_macro2::TokenStream);

/// What parsing a source text yields in this crate's model: the
/// classified, rendered top-level items in source order, or nothing
/// exactly when the text has a syntax error or holds a top-level item
/// kind this crate does not know. The outcome is a function of the text
/// alone.
pub uninterp spec fn parsed_items_of(s: Seq<char>) -> Option<Seq<ItemView>>;

/// Relies on `syn::Item`: tells the variants this crate can split or pass
/// through apart; every other variant comes back as nothing.
#[verifier::external_body]
fn item_kind_of(item: &syn::Item) -> (r: Option<ItemKind>) {
    match item {
        Item::Struct(_) => Some(ItemKind::Struct),
        Item::Enum(_) => Some(ItemKind::Enum),
        Item::Trait(_) => Some(ItemKind::Trait),
        Item::Type(_) => Some(ItemKind::TypeAlias),
        Item::Union(_) => Some(ItemKind::Union),
        Item::Fn(_) => Some(ItemKind::Function),
        Item::Macro(_) => Some(ItemKind::MacroDef),
        Item::Impl(_) => Some(ItemKind::ImplBlock),
        Item::Use(_) => Some(ItemKind::Import),
        Item::Verbatim(_) => Some(ItemKind::Opaque),
        _ => None,
    }
}

/// Relies on `syn::Item`: whether the item is one of the recognized kinds
/// this crate never splits — a constant, extern crate, foreign block,
/// module or static item, or a trait alias. A variant the parser may grow
/// beyond these stays unrecognized.
#[verifier::external_body]
fn is_recognized_unsplittable(item: &syn::Item) -> (r: bool) {
    match item {
        Item::Const(_) | Item::ExternCrate(_) | Item::ForeignMod(_) => true,
        Item::Mod(_) | Item::Static(_) | Item::TraitAlias(_) => true,
        _ => false,
    }
}

/// Relies on `syn::Item`: the identifier the item declares, rendered as
/// text; nothing for items that declare none.
#[verifier::external_body]
fn item_ident_of(item: &syn::Item) -> (r: Option<String>) {
    match item {
        Item::Struct(s) => Some(s.ident.to_string()),
        Item::Enum(s) => Some(s.ident.to_string()),
        Item::Trait(s) => Some(s.ident.to_string()),
        Item::Type(s) => Some(s.ident.to_string()),
        Item::Union(s) => Some(s.ident.to_string()),
        Item::Fn(f) => Some(f.sig.ident.to_string()),
        Item::Macro(m) => match &m.ident {
            Some(i) => Some(i.to_string()),
            None => None,
        },
        _ => None,
    }
}

/// Relies on `syn::ItemImpl`: the last segment of the self-type path of an
/// implementation block, rendered as text; nothing when the self type is
/// not a plain path.
#[verifier::external_body]
fn impl_target_of(item: &syn::Item) -> (r: Option<String>) {
    match item {
        Item::Impl(imp) => match imp.self_ty.as_ref() {
            syn::Type::Path(p) => match p.path.segments.last() {
                Some(seg) => Some(seg.ident.to_string()),
                None => None,
            },
            _ => None,
        },
        _ => None,
    }
}

/// Relies on `prettyplease::unparse`, built with its `verbatim` feature:
/// it renders one structured item as formatted source text, and the
/// feature's sub-parsers (prettyplease src/item.rs) print the verbatim
/// forms the parser produces inside traits, impls, foreign blocks and
/// modules — a bodyless method, a flexible const or type — instead of
/// refusing them. The two refusals that remain — whole-item verbatim
/// tokens and macro definitions whose body is not in rule form — are
/// routed to their raw token text by the callers and never reach this
/// function.
#[verifier::external_body]
fn render_item(item: &syn::Item) -> (r: String) {
    let file = syn::File { shebang: None, attrs: Vec::new(), items: vec![item.clone()] };
    prettyplease::unparse(&file)
}

/// Relies on `proc_macro2`'s `Display` and `quote::ToTokens`: the raw
/// token text of an item the pretty-printer refuses — the parser's own
/// tokens for a verbatim item, the re-rendered tokens otherwise.
#[verifier::external_body]
fn item_token_text(item: &syn::Item) -> (r: String) {
    match item {
        Item::Verbatim(ts) => ts.to_string(),
        _ => item.to_token_stream().to_string(),
    }
}

/// Relies on `prettyplease`'s macro_rules printer (prettyplease
/// src/mac.rs): it accepts exactly bodies of the shape
/// `(matcher-group => expander-group ;)*` — with a joint `=` and an alone
/// `>` and `;` — and stops the process on anything else. This predicate
/// mirrors that grammar so rendering can route other bodies to their raw
/// token text.
#[verifier::external_body]
fn macro_body_in_rule_form(tokens: &proc_macro2::TokenStream) -> (r: bool) {
    let mut state: u8 = 0;
    for tt in tokens.clone() {
        state = match (state, &tt) {
            (0, TokenTree::Group(_)) => 1,
            (1, TokenTree::Punct(p)) if p.as_char() == '=' && p.spacing() == Spacing::Joint => 2,
            (2, TokenTree::Punct(p)) if p.as_char() == '>' && p.spacing() == Spacing::Alone => 3,
            (3, TokenTree::Group(_)) => 4,
            (4, TokenTree::Punct(p)) if p.as_char() == ';' && p.spacing() == Spacing::Alone => 0,
            _ => return false,
        };
    }
    true
}

/// Relies on `syn::ItemMacro` and the two renderers above: a named
/// macro_rules definition whose body is not in rule form is rendered from
/// its token text, every other macro item through prettyplease.
#[verifier::external_body]
fn render_macro_item(item: &syn::Item) -> (r: String) {
    if let Item::Macro(m) = item {
        if m.ident.is_some() && m.mac.path.is_ident("macro_rules") && !macro_body_in_rule_form(
            &m.mac.tokens,
        ) {
            return item_token_text(item);
        }
    }
    render_item(item)
}

/// Relies on `syn::Item`: assembles the library item for one named
/// declaration — a type definition or function — from its identifier and
/// formatted text.
#[verifier::external_body]
fn build_named_item(item: &syn::Item, kind: ItemKind) -> (r: Option<SourceItem>) {
    let name = match item_ident_of(item) {
        Some(n) => n,
        None => String::new(),
    };
    let text = render_item(item);
    match kind {
        ItemKind::Struct => Some(SourceItem::Struct(Struct { name, text })),
        ItemKind::Enum => Some(SourceItem::Enum(Enum { name, text })),
        ItemKind::Trait => Some(SourceItem::Trait(Trait { name, text })),
        ItemKind::TypeAlias => Some(SourceItem::Type(Type { name, text })),
        ItemKind::Union => Some(SourceItem::Union(Union { name, text })),
        ItemKind::Function => Some(SourceItem::Function(Function { name, text })),
        _ => None,
    }
}

/// Relies on `syn::Item`: the library item for one recognized pass-through
/// declaration, with its formatted text; nothing for a parser variant this
/// crate does not know.
#[verifier::external_body]
fn convert_unsplittable(item: &syn::Item) -> (r: Option<SourceItem>) {
    if is_recognized_unsplittable(item) {
        Some(SourceItem::Unsplittable(render_item(item)))
    } else {
        None
    }
}

/// Relies on `syn::Item` and the helpers above: this crate's value for one
/// parsed item — its kind, the identifier it carries and its rendered
/// text; nothing for a parser variant this crate does not know.
#[verifier::external_body]
fn convert_item(item: &syn::Item) -> (r: Option<SourceItem>) {
    match item_kind_of(item) {
        Some(ItemKind::MacroDef) => Some(SourceItem::MacroRules(MacroRules { name: item_ident_of(item), text: render_macro_item(item) })),
        Some(ItemKind::ImplBlock) => Some(SourceItem::Impl(Implementation { target_type: impl_target_of(item), text: render_item(item) })),
        Some(ItemKind::Import) => Some(SourceItem::Use(Use { text: render_item(item) })),
        Some(ItemKind::Opaque) => Some(SourceItem::Verbatim(item_token_text(item))),
        Some(ItemKind::Unclassified) => convert_unsplittable(item),
        Some(k) => build_named_item(item, k),
        None => convert_unsplittable(item),
    }
}

/// Relies on `syn::parse_file` and the conversion helpers above: the
/// classified, rendered top-level items of the text, in source order; a
/// syntax error comes back as the parser's message, an unknown top-level
/// item kind as this crate's own message. The outcome depends on the text
/// alone, and `parsed_items_of` names it.
#[verifier::external_body]
fn parse_and_convert(src: &str) -> (r: Result<Vec<SourceItem>, String>)
    ensures
        r matches Ok(v) ==> parsed_items_of(src@) == Some(views_of(v@)),
        r matches Err(_) ==> parsed_items_of(src@) is None,
{
    let file = match syn::parse_file(src) {
        Ok(f) => f,
        Err(e) => return Err(e.to_string()),
    };
    let mut items: Vec<SourceItem> = Vec::new();
    for item in &file.items {
        match convert_item(item) {
            Some(it) => items.push(it),
            None => return Err(String::from("unsupported top-level item kind")),
        }
    }
    Ok(items)
}

/// Parses source text into this crate's items. The result is pinned by
/// the named parse outcome: on success the returned items are exactly
/// `parsed_items_of` the text, in source order, and an error — the
/// parser's message for a syntax error, this crate's own for an unknown
/// top-level item kind — comes back exactly when that outcome is nothing.
pub fn parse_file(content: &str) -> (r: Result<Vec<SourceItem>, Error>)
    ensures
        r matches Ok(v) ==> parsed_items_of(content@) == Some(views_of(v@)),
        r matches Err(_) ==> parsed_items_of(content@) is None,
{
    match parse_and_convert(content) {
        Ok(items) => Ok(items),
        Err(msg) => Err(Error::from(msg)),
    }
}

} // verus!
