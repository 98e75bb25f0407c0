//! Attributes, and what stands in their brackets.

use vstd::prelude::*;

use proc_macro2::Ident;
use syn::parse::Parser;
use syn::punctuated::Punctuated;
use syn::token::Comma;
use syn::{Expr, ExprLit, Lit, Meta};

use crate::introspect::str_eq;
use crate::text;

verus! {

/// An attribute: `#[path]`, `#[path(tokens)]` or `#[path = value]`.
#[derive(Debug)]
pub struct Attribute {
    /// The path, where it is a single identifier.
    pub path: Option<String>,
    /// What stands behind the path.
    pub args: AttributeArgs,
}

/// What stands behind the path of an attribute.
#[derive(Debug)]
pub enum AttributeArgs {
    /// Nothing.
    Absent,
    /// Tokens in brackets.
    List(String),
    /// An equals sign and a value.
    Value,
}

/// The model of an [`Attribute`].
pub struct AttributeView {
    /// The path, where it is a single identifier.
    pub path: Option<Seq<char>>,
    /// What stands behind the path.
    pub args: AttributeArgsView,
}

/// The model of [`AttributeArgs`].
pub enum AttributeArgsView {
    /// Nothing.
    Absent,
    /// Tokens in brackets.
    List(Seq<char>),
    /// An equals sign and a value.
    Value,
}

impl View for Attribute {
    type V = AttributeView;

    open spec fn view(&self) -> AttributeView {
        AttributeView {
            path: text::optional(self.path),
            args: match self.args {
                AttributeArgs::Absent => AttributeArgsView::Absent,
                AttributeArgs::List(tokens) => AttributeArgsView::List(tokens@),
                AttributeArgs::Value => AttributeArgsView::Value,
            },
        }
    }
}

/// What a list of attributes says.
pub open spec fn attributes_view(attrs: Seq<Attribute>) -> Seq<AttributeView> {
    Seq::new(attrs.len(), |i: int| attrs[i]@)
}

impl Attribute {
    /// Whether the path of the attribute is the identifier `name`.
    pub fn is_ident(&self, name: &str) -> (r: bool)
        ensures
            r == (self@.path == Some(name@)),
    {
        is_ident(&self.path, name)
    }
}

/// Whether a path is the identifier `name`.
pub fn is_ident(path: &Option<String>, name: &str) -> (r: bool)
    ensures
        r == (text::optional(*path) == Some(name@)),
{
    match path {
        Some(ident) => str_eq(ident.as_str(), name),
        None => false,
    }
}

/// An item in the brackets of an attribute, written like an attribute itself.
#[derive(Debug)]
pub struct MetaItem {
    /// The path of the item, where it is a single identifier.
    pub path: Option<String>,
    /// What stands behind the path.
    pub form: MetaForm,
}

/// What stands behind the path of an item.
#[derive(Debug)]
pub enum MetaForm {
    /// Nothing.
    Path,
    /// Tokens in brackets.
    List,
    /// An equals sign and a value.
    NameValue(MetaValue),
}

/// The value behind an equals sign.
#[derive(Debug)]
pub enum MetaValue {
    /// A string literal: what it says.
    Text(String),
    /// Anything else.
    Other,
}

/// The model of a [`MetaItem`].
pub struct MetaItemView {
    /// The path of the item.
    pub path: Option<Seq<char>>,
    /// What stands behind the path.
    pub form: MetaFormView,
}

/// The model of a [`MetaForm`].
pub enum MetaFormView {
    /// Nothing.
    Path,
    /// Tokens in brackets.
    List,
    /// An equals sign and a value.
    NameValue(MetaValueView),
}

/// The model of a [`MetaValue`].
pub enum MetaValueView {
    /// A string literal.
    Text(Seq<char>),
    /// Anything else.
    Other,
}

impl View for MetaValue {
    type V = MetaValueView;

    open spec fn view(&self) -> MetaValueView {
        match *self {
            MetaValue::Text(value) => MetaValueView::Text(value@),
            MetaValue::Other => MetaValueView::Other,
        }
    }
}

impl View for MetaForm {
    type V = MetaFormView;

    open spec fn view(&self) -> MetaFormView {
        match *self {
            MetaForm::Path => MetaFormView::Path,
            MetaForm::List => MetaFormView::List,
            MetaForm::NameValue(value) => MetaFormView::NameValue(value@),
        }
    }
}

impl View for MetaItem {
    type V = MetaItemView;

    open spec fn view(&self) -> MetaItemView {
        MetaItemView {
            path: text::optional(self.path),
            form: self.form@,
        }
    }
}

/// What a list of items says.
pub open spec fn items_view(items: Seq<MetaItem>) -> Seq<MetaItemView> {
    Seq::new(items.len(), |i: int| items[i]@)
}

/// The items that syn reads in a list of them, or what is wrong with it.
pub uninterp spec fn items_of(tokens: Seq<char>) -> Result<Seq<MetaItemView>, Seq<char>>;

/// Calls [`syn::punctuated::Punctuated::parse_terminated`] for [`syn::Meta`] items with commas
/// between them, with proc_macro2's own implementation of tokens, which
/// [`proc_macro2::fallback::force`] puts in use: with it the result depends on the text alone.
#[verifier::external_body]
pub(crate) fn parse_items(tokens: &str) -> (r: Result<Vec<MetaItem>, String>)
    ensures
        match r {
            Ok(items) => items_of(tokens@) == Ok::<Seq<MetaItemView>, Seq<char>>(
                items_view(items@),
            ),
            Err(message) => items_of(tokens@) == Err::<Seq<MetaItemView>, Seq<char>>(message@),
        },
{
    proc_macro2::fallback::force();
    let list = Punctuated::<Meta, Comma>::parse_terminated;
    let metas = list.parse_str(tokens).map_err(|e| e.to_string())?;
    Ok(metas.into_iter().map(|m| MetaItem {
        path: m.path().get_ident().map(Ident::to_string),
        form: match m {
            Meta::Path(_) => MetaForm::Path,
            Meta::List(_) => MetaForm::List,
            Meta::NameValue(nv) => MetaForm::NameValue(match nv.value {
                Expr::Lit(ExprLit { lit: Lit::Str(s), .. }) => MetaValue::Text(s.value()),
                _ => MetaValue::Other,
            }),
        },
    }).collect())
}

} // verus!
