//! The model of one parsed top-level declaration.
//!
//! Every item carries the formatted source text it was parsed from; the
//! grouping and layout decisions only ever inspect the kind of an item and
//! the identifier it carries, never the text.

use vstd::prelude::*;

verus! {

/// The kind of a top-level declaration.
#[derive(Clone, Copy, PartialEq, Eq, Structural, Debug)]
pub enum ItemKind {
    Struct,
    Enum,
    Trait,
    TypeAlias,
    Union,
    Function,
    MacroDef,
    ImplBlock,
    Import,
    Unclassified,
    Opaque,
}

/// A struct definition together with its rendered text.
#[derive(Debug)]
pub struct Struct {
    pub name: String,
    pub text: String,
}

/// An enum definition together with its rendered text.
#[derive(Debug)]
pub struct Enum {
    pub name: String,
    pub text: String,
}

/// A trait definition together with its rendered text.
#[derive(Debug)]
pub struct Trait {
    pub name: String,
    pub text: String,
}

/// A type alias together with its rendered text.
#[derive(Debug)]
pub struct Type {
    pub name: String,
    pub text: String,
}

/// A union definition together with its rendered text.
#[derive(Debug)]
pub struct Union {
    pub name: String,
    pub text: String,
}

/// A free function together with its rendered text.
#[derive(Debug)]
pub struct Function {
    pub name: String,
    pub text: String,
}

/// A macro definition, possibly anonymous, together with its rendered text.
#[derive(Debug)]
pub struct MacroRules {
    pub name: Option<String>,
    pub text: String,
}

/// An implementation block. `target_type` is the last path segment of the
/// block's self type, when that type is a plain path.
#[derive(Debug)]
pub struct Implementation {
    pub target_type: Option<String>,
    pub text: String,
}

/// A use declaration together with its rendered text.
#[derive(Debug)]
pub struct Use {
    pub text: String,
}

/// One parsed top-level declaration.
#[derive(Debug)]
pub enum SourceItem {
    Enum(Enum),
    Struct(Struct),
    Trait(Trait),
    Type(Type),
    Union(Union),
    Function(Function),
    MacroRules(MacroRules),
    Impl(Implementation),
    Use(Use),
    /// An item whose shape the parser recognizes but that carries no name
    /// this crate can split on: constants, statics, modules and the like.
    Unsplittable(String),
    /// An item the parser could not structure at all; its raw text is kept.
    Verbatim(String),
}

/// The mathematical value of an item: its kind, the identifier it carries,
/// and its rendered text.
pub struct ItemView {
    pub kind: ItemKind,
    pub name: Option<Seq<char>>,
    pub text: Seq<char>,
}

impl View for SourceItem {
    type V = ItemView;

    open spec fn view(&self) -> ItemView {
        match self {
            SourceItem::Struct(s) => ItemView {
                kind: ItemKind::Struct,
                name: Some(s.name@),
                text: s.text@,
            },
            SourceItem::Enum(s) => ItemView {
                kind: ItemKind::Enum,
                name: Some(s.name@),
                text: s.text@,
            },
            SourceItem::Trait(s) => ItemView {
                kind: ItemKind::Trait,
                name: Some(s.name@),
                text: s.text@,
            },
            SourceItem::Type(s) => ItemView {
                kind: ItemKind::TypeAlias,
                name: Some(s.name@),
                text: s.text@,
            },
            SourceItem::Union(s) => ItemView {
                kind: ItemKind::Union,
                name: Some(s.name@),
                text: s.text@,
            },
            SourceItem::Function(s) => ItemView {
                kind: ItemKind::Function,
                name: Some(s.name@),
                text: s.text@,
            },
            SourceItem::MacroRules(s) => ItemView {
                kind: ItemKind::MacroDef,
                name: match s.name {
                    Some(n) => Some(n@),
                    None => None,
                },
                text: s.text@,
            },
            SourceItem::Impl(s) => ItemView {
                kind: ItemKind::ImplBlock,
                name: match s.target_type {
                    Some(n) => Some(n@),
                    None => None,
                },
                text: s.text@,
            },
            SourceItem::Use(s) => ItemView { kind: ItemKind::Import, name: None, text: s.text@ },
            SourceItem::Unsplittable(t) => ItemView {
                kind: ItemKind::Unclassified,
                name: None,
                text: t@,
            },
            SourceItem::Verbatim(t) => ItemView { kind: ItemKind::Opaque, name: None, text: t@ },
        }
    }
}

/// Whether an item defines a type: a struct, enum, trait, type alias or
/// union. Only these open a group of their own.
pub open spec fn is_type_def(v: ItemView) -> bool {
    v.kind == ItemKind::Struct || v.kind == ItemKind::Enum || v.kind == ItemKind::Trait || v.kind
        == ItemKind::TypeAlias || v.kind == ItemKind::Union
}

/// Whether an item is an implementation block.
pub open spec fn is_impl(v: ItemView) -> bool {
    v.kind == ItemKind::ImplBlock
}

/// Whether an item is a use declaration.
pub open spec fn is_import(v: ItemView) -> bool {
    v.kind == ItemKind::Import
}

/// Whether an item is routed to the origin file during grouping: functions,
/// macro definitions and the two pass-through kinds.
pub open spec fn goes_to_origin(v: ItemView) -> bool {
    v.kind == ItemKind::Function || v.kind == ItemKind::MacroDef || v.kind
        == ItemKind::Unclassified || v.kind == ItemKind::Opaque
}

/// The views of a sequence of items.
pub open spec fn views_of(s: Seq<SourceItem>) -> Seq<ItemView> {
    s.map_values(|it: SourceItem| it@)
}

impl SourceItem {
    /// The kind of this item.
    pub fn kind(&self) -> (k: ItemKind)
        ensures
            k == self@.kind,
    {
        match self {
            SourceItem::Struct(_) => ItemKind::Struct,
            SourceItem::Enum(_) => ItemKind::Enum,
            SourceItem::Trait(_) => ItemKind::Trait,
            SourceItem::Type(_) => ItemKind::TypeAlias,
            SourceItem::Union(_) => ItemKind::Union,
            SourceItem::Function(_) => ItemKind::Function,
            SourceItem::MacroRules(_) => ItemKind::MacroDef,
            SourceItem::Impl(_) => ItemKind::ImplBlock,
            SourceItem::Use(_) => ItemKind::Import,
            SourceItem::Unsplittable(_) => ItemKind::Unclassified,
            SourceItem::Verbatim(_) => ItemKind::Opaque,
        }
    }

    /// The identifier the item carries: the name of a type definition,
    /// function or named macro, or the target type of an implementation
    /// block.
    pub fn name(&self) -> (r: Option<&String>)
        ensures
            match r {
                Some(n) => self@.name == Some(n@),
                None => self@.name is None,
            },
    {
        match self {
            SourceItem::Struct(s) => Some(&s.name),
            SourceItem::Enum(s) => Some(&s.name),
            SourceItem::Trait(s) => Some(&s.name),
            SourceItem::Type(s) => Some(&s.name),
            SourceItem::Union(s) => Some(&s.name),
            SourceItem::Function(s) => Some(&s.name),
            SourceItem::MacroRules(s) => match &s.name {
                Some(n) => Some(n),
                None => None,
            },
            SourceItem::Impl(s) => match &s.target_type {
                Some(n) => Some(n),
                None => None,
            },
            SourceItem::Use(_) => None,
            SourceItem::Unsplittable(_) => None,
            SourceItem::Verbatim(_) => None,
        }
    }

    /// The rendered source text of the item.
    pub fn text(&self) -> (r: &String)
        ensures
            r@ == self@.text,
    {
        match self {
            SourceItem::Struct(s) => &s.text,
            SourceItem::Enum(s) => &s.text,
            SourceItem::Trait(s) => &s.text,
            SourceItem::Type(s) => &s.text,
            SourceItem::Union(s) => &s.text,
            SourceItem::Function(s) => &s.text,
            SourceItem::MacroRules(s) => &s.text,
            SourceItem::Impl(s) => &s.text,
            SourceItem::Use(s) => &s.text,
            SourceItem::Unsplittable(t) => t,
            SourceItem::Verbatim(t) => t,
        }
    }

    /// An exact copy of the item.
    pub fn duplicate(&self) -> (r: SourceItem)
        ensures
            r@ == self@,
    {
        match self {
            SourceItem::Struct(s) => SourceItem::Struct(
                Struct { name: s.name.clone(), text: s.text.clone() },
            ),
            SourceItem::Enum(s) => SourceItem::Enum(
                Enum { name: s.name.clone(), text: s.text.clone() },
            ),
            SourceItem::Trait(s) => SourceItem::Trait(
                Trait { name: s.name.clone(), text: s.text.clone() },
            ),
            SourceItem::Type(s) => SourceItem::Type(
                Type { name: s.name.clone(), text: s.text.clone() },
            ),
            SourceItem::Union(s) => SourceItem::Union(
                Union { name: s.name.clone(), text: s.text.clone() },
            ),
            SourceItem::Function(s) => SourceItem::Function(
                Function { name: s.name.clone(), text: s.text.clone() },
            ),
            SourceItem::MacroRules(s) => SourceItem::MacroRules(
                MacroRules {
                    name: match &s.name {
                        Some(n) => Some(n.clone()),
                        None => None,
                    },
                    text: s.text.clone(),
                },
            ),
            SourceItem::Impl(s) => SourceItem::Impl(
                Implementation {
                    target_type: match &s.target_type {
                        Some(n) => Some(n.clone()),
                        None => None,
                    },
                    text: s.text.clone(),
                },
            ),
            SourceItem::Use(s) => SourceItem::Use(Use { text: s.text.clone() }),
            SourceItem::Unsplittable(t) => SourceItem::Unsplittable(t.clone()),
            SourceItem::Verbatim(t) => SourceItem::Verbatim(t.clone()),
        }
    }
}

} // verus!
