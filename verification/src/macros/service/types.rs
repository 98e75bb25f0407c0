//! What the `service` macro knows of parameters and types.

use vstd::prelude::*;

use crate::introspect::str_eq;
use crate::macros::meta;
use crate::macros::meta::{Attribute, AttributeView};
use crate::text;

verus! {

/// A type, as far as the macro looks at it.
#[derive(Debug)]
pub struct Type {
    /// The tokens of the type.
    pub text: String,
    /// Its last segment, where it is a path.
    pub last_segment: Option<Segment>,
    /// Its first element, where it is a pair.
    pub first_of_pair: Option<Box<Type>>,
    /// The types that its bounds name, in order, where it is `impl Bound<Name = ..>`.
    pub bound_types: Vec<BoundType>,
}

/// A type that a bound names: `Bound<Name = ..>`.
#[derive(Debug)]
pub struct BoundType {
    /// The last identifier of the bound.
    pub bound: String,
    /// The name.
    pub name: String,
    /// The type.
    pub ty: Type,
}

/// A segment of a path.
#[derive(Debug)]
pub struct Segment {
    /// The identifier.
    pub ident: String,
    /// The arguments in angle brackets, where there are any.
    pub args: Option<Vec<GenericArg>>,
}

/// An argument in angle brackets.
#[derive(Debug)]
pub enum GenericArg {
    /// A type.
    Type {
        /// The tokens of the type.
        text: String,
        /// Whether it is the tuple without elements.
        unit: bool,
    },
    /// A lifetime, a constant or the like.
    Other,
}

/// The model of a [`Type`].
pub struct TypeView {
    /// The tokens of the type.
    pub text: Seq<char>,
    /// Its last segment.
    pub last_segment: Option<SegmentView>,
    /// Its first element, where it is a pair.
    pub first_of_pair: Option<Box<TypeView>>,
    /// The types that its bounds name.
    pub bound_types: Seq<BoundTypeView>,
}

/// The model of a [`BoundType`].
pub struct BoundTypeView {
    /// The last identifier of the bound.
    pub bound: Seq<char>,
    /// The name.
    pub name: Seq<char>,
    /// The type.
    pub ty: TypeView,
}

/// The model of a [`Segment`].
pub struct SegmentView {
    /// The identifier.
    pub ident: Seq<char>,
    /// The arguments in angle brackets.
    pub args: Option<Seq<GenericArgView>>,
}

/// The model of a [`GenericArg`].
pub enum GenericArgView {
    /// A type.
    Type {
        /// The tokens of the type.
        text: Seq<char>,
        /// Whether it is the tuple without elements.
        unit: bool,
    },
    /// Something else.
    Other,
}

impl View for GenericArg {
    type V = GenericArgView;

    open spec fn view(&self) -> GenericArgView {
        match *self {
            GenericArg::Type { text, unit } => GenericArgView::Type { text: text@, unit },
            GenericArg::Other => GenericArgView::Other,
        }
    }
}

impl View for Segment {
    type V = SegmentView;

    open spec fn view(&self) -> SegmentView {
        SegmentView {
            ident: self.ident@,
            args: match self.args {
                Some(args) => Some(Seq::new(args@.len(), |i: int| args@[i]@)),
                None => None,
            },
        }
    }
}

/// What a type is, as far as the macro looks at it.
pub open spec fn type_view(t: Type) -> TypeView
    decreases t,
{
    TypeView {
        text: t.text@,
        last_segment: match t.last_segment {
            Some(segment) => Some(segment@),
            None => None,
        },
        first_of_pair: match t.first_of_pair {
            Some(first) => Some(Box::new(type_view(*first))),
            None => None,
        },
        bound_types: bound_types_view(t.bound_types@),
    }
}

/// What types that bounds name are.
pub open spec fn bound_types_view(ts: Seq<BoundType>) -> Seq<BoundTypeView>
    decreases ts,
{
    Seq::new(
        ts.len(),
        |i: int| if 0 <= i < ts.len() { bound_type_view(ts[i]) } else { arbitrary() },
    )
}

/// What a type that a bound names is.
pub open spec fn bound_type_view(t: BoundType) -> BoundTypeView
    decreases t,
{
    BoundTypeView { bound: t.bound@, name: t.name@, ty: type_view(t.ty) }
}

/// The first from `i` on of the types that bounds name which is that of the items of a stream:
/// `Stream<Item = ..>`.
pub open spec fn stream_item(ts: Seq<BoundTypeView>, i: int) -> Option<TypeView>
    decreases ts.len() - i,
{
    if 0 <= i < ts.len() {
        if ts[i].bound == "Stream"@ && ts[i].name == "Item"@ {
            Some(ts[i].ty)
        } else {
            stream_item(ts, i + 1)
        }
    } else {
        None
    }
}

impl Type {
    /// The type of the items, where it is some stream.
    pub fn stream_item(&self) -> (r: Option<&Type>)
        ensures
            match r {
                Some(ty) => stream_item(self@.bound_types, 0) == Some(ty@),
                None => stream_item(self@.bound_types, 0) is None,
            },
    {
        let ghost all = self@.bound_types;
        proof {
            reveal_with_fuel(type_view, 2);
            reveal_with_fuel(bound_types_view, 2);
            reveal_with_fuel(bound_type_view, 2);
        }
        let mut i: usize = 0;
        while i < self.bound_types.len()
            invariant
                i <= self.bound_types@.len(),
                all == self@.bound_types,
                all == bound_types_view(self.bound_types@),
                stream_item(all, 0) == stream_item(all, i as int),
            decreases self.bound_types@.len() - i,
        {
            proof {
                reveal_with_fuel(bound_types_view, 2);
                reveal_with_fuel(bound_type_view, 2);
            }
            let t = &self.bound_types[i];
            assert(all[i as int] == bound_type_view(*t));
            if str_eq(t.bound.as_str(), "Stream") && str_eq(t.name.as_str(), "Item") {
                return Some(&t.ty);
            }
            i += 1;
        }
        None
    }
}

impl View for Type {
    type V = TypeView;

    open spec fn view(&self) -> TypeView {
        type_view(*self)
    }
}

/// An argument of a function.
#[derive(Debug)]
pub enum FnArg {
    /// `self` in one of its forms.
    Receiver,
    /// A pattern with a type.
    Typed(TypedArg),
}

/// An argument with a type.
#[derive(Debug)]
pub struct TypedArg {
    /// The identifier, where the pattern is one.
    pub ident: Option<String>,
    /// The tokens of the type.
    pub ty: String,
    /// The attributes.
    pub attrs: Vec<Attribute>,
}

/// The model of a [`FnArg`].
pub enum FnArgView {
    /// `self` in one of its forms.
    Receiver,
    /// A pattern with a type.
    Typed {
        /// The identifier.
        ident: Option<Seq<char>>,
        /// The tokens of the type.
        ty: Seq<char>,
        /// The attributes.
        attrs: Seq<AttributeView>,
    },
}

impl View for FnArg {
    type V = FnArgView;

    open spec fn view(&self) -> FnArgView {
        match *self {
            FnArg::Receiver => FnArgView::Receiver,
            FnArg::Typed(arg) => FnArgView::Typed {
                ident: text::optional(arg.ident),
                ty: arg.ty@,
                attrs: meta::attributes_view(arg.attrs@),
            },
        }
    }
}

/// A parameter of a method.
#[derive(Debug)]
pub struct ParamInfo {
    /// The name of the parameter.
    pub name: String,
    /// The tokens of its type.
    pub ty: String,
    /// The name that `rename` gives it.
    pub serialized_name: Option<String>,
    /// Whether it is marked with `connection`.
    pub is_connection: bool,
    /// Whether it is marked with `fds`.
    pub is_fds: bool,
    /// Whether it is the `more` parameter of a streaming method.
    pub is_more: bool,
}

/// The model of a [`ParamInfo`].
pub struct ParamInfoView {
    /// The name of the parameter.
    pub name: Seq<char>,
    /// The tokens of its type.
    pub ty: Seq<char>,
    /// The name that `rename` gives it.
    pub serialized_name: Option<Seq<char>>,
    /// Whether it is marked with `connection`.
    pub is_connection: bool,
    /// Whether it is marked with `fds`.
    pub is_fds: bool,
    /// Whether it is the `more` parameter of a streaming method.
    pub is_more: bool,
}

impl View for ParamInfo {
    type V = ParamInfoView;

    open spec fn view(&self) -> ParamInfoView {
        ParamInfoView {
            name: self.name@,
            ty: self.ty@,
            serialized_name: text::optional(self.serialized_name),
            is_connection: self.is_connection,
            is_fds: self.is_fds,
            is_more: self.is_more,
        }
    }
}

impl ParamInfoView {
    /// Whether the parameter comes over the wire.
    pub open spec fn comes_over_wire(self) -> bool {
        !self.is_connection && !self.is_fds && !self.is_more
    }

    /// The name that the parameter has on the wire.
    pub open spec fn wire(self) -> Seq<char> {
        match self.serialized_name {
            Some(name) => name,
            None => self.name,
        }
    }
}

/// The parameter that an argument is: an identifier with a type.
pub open spec fn param_of(arg: FnArgView) -> Option<ParamInfoView> {
    match arg {
        FnArgView::Typed { ident: Some(name), ty, .. } => Some(
            ParamInfoView {
                name,
                ty,
                serialized_name: None,
                is_connection: false,
                is_fds: false,
                is_more: false,
            },
        ),
        _ => None,
    }
}

impl ParamInfo {
    /// Whether the parameter comes over the wire.
    pub fn is_serialized(&self) -> (r: bool)
        ensures
            r == self@.comes_over_wire(),
    {
        !self.is_connection && !self.is_fds && !self.is_more
    }

    /// The name that the parameter has on the wire: the one that `rename` gives it, or else its own.
    pub fn wire_name(&self) -> (r: &str)
        ensures
            r@ == self@.wire(),
    {
        match &self.serialized_name {
            Some(name) => name.as_str(),
            None => self.name.as_str(),
        }
    }

    /// The parameter that an argument is.
    pub fn from_fn_arg(arg: &FnArg) -> (r: Option<ParamInfo>)
        ensures
            match r {
                Some(p) => param_of(arg@) == Some(p@),
                None => param_of(arg@) is None,
            },
    {
        match arg {
            FnArg::Receiver => None,
            FnArg::Typed(typed) => match &typed.ident {
                None => None,
                Some(name) => Some(
                    ParamInfo {
                        name: name.clone(),
                        ty: typed.ty.clone(),
                        serialized_name: None,
                        is_connection: false,
                        is_fds: false,
                        is_more: false,
                    },
                ),
            },
        }
    }
}

} // verus!
