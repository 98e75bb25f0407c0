//! The Varlink interface definition language: its types and their mathematical models.

pub mod boundaries;
pub mod grammar;
pub mod laws;
pub mod parse;
pub mod print;
pub mod shape;

use vstd::prelude::*;

verus! {

/// A comment that precedes a definition.
#[derive(Debug)]
pub struct Comment<'a> {
    /// The text behind the `#`, without the blanks in front of it.
    pub content: &'a str,
}

/// A Varlink type.
#[derive(Debug)]
pub enum Type<'a> {
    /// `bool`
    Bool,
    /// `int`
    Int,
    /// `float`
    Float,
    /// `string`
    String,
    /// `object`
    ForeignObject,
    /// `any`
    Any,
    /// A custom type, by its name.
    Custom(&'a str),
    /// `?type`
    Optional(TypeRef<'a>),
    /// `[]type`
    Array(TypeRef<'a>),
    /// `[string]type`
    Mapping(TypeRef<'a>),
    /// An inline enum: `(one, two)`
    Enum(List<EnumVariant<'a>>),
    /// An inline struct: `(one: int, two: bool)`
    Object(List<Field<'a>>),
}

/// A reference to a type.
#[derive(Debug)]
pub enum TypeRef<'a> {
    /// A type that lives elsewhere.
    Borrowed(&'a Type<'a>),
    /// A type of its own.
    Owned(Box<Type<'a>>),
}

/// A list of items.
#[derive(Debug)]
pub struct List<T> {
    /// The items, in order.
    pub items: Vec<T>,
}

/// A variant of an enum.
#[derive(Debug)]
pub struct EnumVariant<'a> {
    /// The name of the variant.
    pub name: &'a str,
    /// The comments in front of it.
    pub comments: List<Comment<'a>>,
}

/// A field of a struct.
#[derive(Debug)]
pub struct Field<'a> {
    /// The name of the field.
    pub name: &'a str,
    /// The type of the field.
    pub ty: TypeRef<'a>,
    /// The comments in front of it.
    pub comments: List<Comment<'a>>,
}

/// A parameter of a method or of an error.
pub type Parameter<'a> = Field<'a>;

/// A method of an interface.
#[derive(Debug)]
pub struct Method<'a> {
    /// The name of the method.
    pub name: &'a str,
    /// What it takes.
    pub inputs: List<Parameter<'a>>,
    /// What it gives back.
    pub outputs: List<Parameter<'a>>,
    /// The comments in front of it.
    pub comments: List<Comment<'a>>,
}

/// An error of an interface.
#[derive(Debug)]
pub struct Error<'a> {
    /// The name of the error.
    pub name: &'a str,
    /// What it carries.
    pub fields: List<Field<'a>>,
    /// The comments in front of it.
    pub comments: List<Comment<'a>>,
}

/// A custom type with typed members.
#[derive(Debug)]
pub struct CustomObject<'a> {
    /// The name of the type.
    pub name: &'a str,
    /// Its fields.
    pub fields: List<Field<'a>>,
    /// The comments in front of it.
    pub comments: List<Comment<'a>>,
}

/// A custom type with untyped members.
#[derive(Debug)]
pub struct CustomEnum<'a> {
    /// The name of the type.
    pub name: &'a str,
    /// Its variants.
    pub variants: List<EnumVariant<'a>>,
    /// The comments in front of it.
    pub comments: List<Comment<'a>>,
}

/// A custom type of an interface.
#[derive(Debug)]
pub enum CustomType<'a> {
    /// With typed members.
    Object(CustomObject<'a>),
    /// With untyped members.
    Enum(CustomEnum<'a>),
}

/// An interface.
#[derive(Debug)]
pub struct Interface<'a> {
    /// The name of the interface, in reverse domain notation.
    pub name: &'a str,
    /// Its methods, in order.
    pub methods: List<Method<'a>>,
    /// Its custom types, in order.
    pub custom_types: List<CustomType<'a>>,
    /// Its errors, in order.
    pub errors: List<Error<'a>>,
    /// The comments in front of it.
    pub comments: List<Comment<'a>>,
}

/// The model of a [`Type`].
pub enum TypeView {
    /// `bool`
    Bool,
    /// `int`
    Int,
    /// `float`
    Float,
    /// `string`
    String,
    /// `object`
    ForeignObject,
    /// `any`
    Any,
    /// A custom type.
    Custom(Seq<char>),
    /// `?type`
    Optional(Box<TypeView>),
    /// `[]type`
    Array(Box<TypeView>),
    /// `[string]type`
    Mapping(Box<TypeView>),
    /// An inline enum.
    Enum(Seq<EnumVariantView>),
    /// An inline struct.
    Object(Seq<FieldView>),
}

/// The model of an [`EnumVariant`].
pub struct EnumVariantView {
    /// The name of the variant.
    pub name: Seq<char>,
    /// The comments in front of it.
    pub comments: Seq<Seq<char>>,
}

/// The model of a [`Field`].
pub struct FieldView {
    /// The name of the field.
    pub name: Seq<char>,
    /// The type of the field.
    pub ty: TypeView,
    /// The comments in front of it.
    pub comments: Seq<Seq<char>>,
}

/// The model of a [`Method`].
pub struct MethodView {
    /// The name of the method.
    pub name: Seq<char>,
    /// What it takes.
    pub inputs: Seq<FieldView>,
    /// What it gives back.
    pub outputs: Seq<FieldView>,
    /// The comments in front of it.
    pub comments: Seq<Seq<char>>,
}

/// The model of an [`Error`].
pub struct ErrorView {
    /// The name of the error.
    pub name: Seq<char>,
    /// What it carries.
    pub fields: Seq<FieldView>,
    /// The comments in front of it.
    pub comments: Seq<Seq<char>>,
}

/// The members of a custom type.
pub enum MembersView {
    /// Typed members.
    Object(Seq<FieldView>),
    /// Untyped members.
    Enum(Seq<EnumVariantView>),
}

/// The model of a [`CustomType`].
pub struct CustomTypeView {
    /// The name of the type.
    pub name: Seq<char>,
    /// Its members.
    pub members: MembersView,
    /// The comments in front of it.
    pub comments: Seq<Seq<char>>,
}

/// The model of an [`Interface`].
pub struct InterfaceView {
    /// The name of the interface.
    pub name: Seq<char>,
    /// Its methods, in order.
    pub methods: Seq<MethodView>,
    /// Its custom types, in order.
    pub custom_types: Seq<CustomTypeView>,
    /// Its errors, in order.
    pub errors: Seq<ErrorView>,
    /// The comments in front of it.
    pub comments: Seq<Seq<char>>,
}

/// What a list of comments says.
pub open spec fn comments_view(cs: Seq<Comment<'_>>) -> Seq<Seq<char>> {
    Seq::new(cs.len(), |i: int| cs[i].content@)
}

/// What a list of variants says.
pub open spec fn variants_view(vs: Seq<EnumVariant<'_>>) -> Seq<EnumVariantView> {
    Seq::new(vs.len(), |i: int| vs[i]@)
}

/// What a list of fields says.
pub open spec fn fields_view(fs: Seq<Field<'_>>) -> Seq<FieldView>
    decreases fs,
{
    Seq::new(fs.len(), |i: int| if 0 <= i < fs.len() { field_view(fs[i]) } else { arbitrary() })
}

/// What a field says.
pub open spec fn field_view(f: Field<'_>) -> FieldView
    decreases f,
{
    FieldView { name: f.name@, ty: ref_view(f.ty), comments: comments_view(f.comments.items@) }
}

/// What a type is.
pub open spec fn type_view(t: Type<'_>) -> TypeView
    decreases t,
{
    match t {
        Type::Bool => TypeView::Bool,
        Type::Int => TypeView::Int,
        Type::Float => TypeView::Float,
        Type::String => TypeView::String,
        Type::ForeignObject => TypeView::ForeignObject,
        Type::Any => TypeView::Any,
        Type::Custom(name) => TypeView::Custom(name@),
        Type::Optional(r) => TypeView::Optional(Box::new(ref_view(r))),
        Type::Array(r) => TypeView::Array(Box::new(ref_view(r))),
        Type::Mapping(r) => TypeView::Mapping(Box::new(ref_view(r))),
        Type::Enum(vs) => TypeView::Enum(variants_view(vs.items@)),
        Type::Object(fs) => TypeView::Object(fields_view(fs.items@)),
    }
}

/// What a referenced type is.
pub open spec fn ref_view(r: TypeRef<'_>) -> TypeView
    decreases r,
{
    match r {
        TypeRef::Borrowed(t) => type_view(*t),
        TypeRef::Owned(t) => type_view(*t),
    }
}

/// What a list of methods says.
pub open spec fn methods_view(ms: Seq<Method<'_>>) -> Seq<MethodView> {
    Seq::new(ms.len(), |i: int| ms[i]@)
}

/// What a list of errors says.
pub open spec fn errors_view(es: Seq<Error<'_>>) -> Seq<ErrorView> {
    Seq::new(es.len(), |i: int| es[i]@)
}

/// What a list of custom types says.
pub open spec fn custom_types_view(ts: Seq<CustomType<'_>>) -> Seq<CustomTypeView> {
    Seq::new(ts.len(), |i: int| ts[i]@)
}

/// A list with one more field says one more thing.
pub proof fn lemma_fields_view_push(fs: Seq<Field<'_>>, f: Field<'_>)
    ensures
        fields_view(fs.push(f)) == fields_view(fs).push(f@),
{
    assert(fields_view(fs.push(f)) =~= fields_view(fs).push(field_view(f)));
}

impl View for Type<'_> {
    type V = TypeView;

    open spec fn view(&self) -> TypeView {
        type_view(*self)
    }
}

impl View for TypeRef<'_> {
    type V = TypeView;

    open spec fn view(&self) -> TypeView {
        ref_view(*self)
    }
}

impl View for EnumVariant<'_> {
    type V = EnumVariantView;

    open spec fn view(&self) -> EnumVariantView {
        EnumVariantView { name: self.name@, comments: comments_view(self.comments.items@) }
    }
}

impl View for Field<'_> {
    type V = FieldView;

    open spec fn view(&self) -> FieldView {
        field_view(*self)
    }
}

impl View for Method<'_> {
    type V = MethodView;

    open spec fn view(&self) -> MethodView {
        MethodView {
            name: self.name@,
            inputs: fields_view(self.inputs.items@),
            outputs: fields_view(self.outputs.items@),
            comments: comments_view(self.comments.items@),
        }
    }
}

impl View for Error<'_> {
    type V = ErrorView;

    open spec fn view(&self) -> ErrorView {
        ErrorView {
            name: self.name@,
            fields: fields_view(self.fields.items@),
            comments: comments_view(self.comments.items@),
        }
    }
}

impl View for CustomType<'_> {
    type V = CustomTypeView;

    open spec fn view(&self) -> CustomTypeView {
        match *self {
            CustomType::Object(o) => CustomTypeView {
                name: o.name@,
                members: MembersView::Object(fields_view(o.fields.items@)),
                comments: comments_view(o.comments.items@),
            },
            CustomType::Enum(e) => CustomTypeView {
                name: e.name@,
                members: MembersView::Enum(variants_view(e.variants.items@)),
                comments: comments_view(e.comments.items@),
            },
        }
    }
}

impl View for Interface<'_> {
    type V = InterfaceView;

    open spec fn view(&self) -> InterfaceView {
        InterfaceView {
            name: self.name@,
            methods: methods_view(self.methods.items@),
            custom_types: custom_types_view(self.custom_types.items@),
            errors: errors_view(self.errors.items@),
            comments: comments_view(self.comments.items@),
        }
    }
}

impl<'a> TypeRef<'a> {
    /// A reference to a type that lives elsewhere.
    pub fn new(ty: &'a Type<'a>) -> (r: TypeRef<'a>)
        ensures
            r@ == ty@,
    {
        TypeRef::Borrowed(ty)
    }

    /// A reference to a type of its own.
    pub fn new_owned(ty: Type<'a>) -> (r: TypeRef<'a>)
        ensures
            r@ == ty@,
    {
        TypeRef::Owned(Box::new(ty))
    }

    /// The type.
    pub fn inner(&self) -> (r: &Type<'a>)
        ensures
            r@ == self@,
    {
        match self {
            TypeRef::Borrowed(t) => *t,
            TypeRef::Owned(t) => &**t,
        }
    }
}

impl<T> List<T> {
    /// A list of these items.
    pub fn new(items: Vec<T>) -> (r: List<T>)
        ensures
            r.items@ == items@,
    {
        List { items }
    }
}

} // verus!
