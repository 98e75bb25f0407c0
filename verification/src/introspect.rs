//! Whether the custom types that a method uses are declared.

use vstd::prelude::*;
use vstd::utf8::*;

use crate::idl;
use crate::idl::{Field, FieldView, Parameter, Type, TypeRef, TypeView};

verus! {

/// The custom type that a type refers to, directly or as what it makes optional, lists or maps.
pub open spec fn custom_name(ty: TypeView) -> Option<Seq<char>>
    decreases ty,
{
    match ty {
        TypeView::Custom(name) => Some(name),
        TypeView::Optional(inner) => custom_name(*inner),
        TypeView::Array(inner) => custom_name(*inner),
        TypeView::Mapping(inner) => custom_name(*inner),
        _ => None,
    }
}

/// What a list of names says.
pub open spec fn names_view(names: Seq<&str>) -> Seq<Seq<char>> {
    Seq::new(names.len(), |i: int| names[i]@)
}

/// Whether every custom type that a type is or contains is declared.
pub open spec fn is_declared(ty: TypeView, declared: Seq<Seq<char>>) -> bool
    decreases ty,
{
    match ty {
        TypeView::Custom(name) => declared.contains(name),
        TypeView::Optional(inner) => is_declared(*inner, declared),
        TypeView::Array(inner) => is_declared(*inner, declared),
        TypeView::Mapping(inner) => is_declared(*inner, declared),
        TypeView::Object(fields) => are_declared(fields, declared),
        _ => true,
    }
}

/// Whether every custom type that the types of fields are or contain is declared.
pub open spec fn are_declared(fields: Seq<FieldView>, declared: Seq<Seq<char>>) -> bool
    decreases fields,
{
    forall|i: int|
        #![trigger fields[i]]
        0 <= i < fields.len() ==> is_declared(fields[i].ty, declared)
}

/// Does nothing where the custom types of all parameters are declared; nothing else may be handed
/// to it. Code that is not verified is stopped there by a panic.
pub fn assert_params_declared(params: &[&Parameter<'_>], declared: &[&str])
    requires
        forall|i: int|
            0 <= i < params@.len() ==> is_declared(
                (#[trigger] params@[i])@.ty,
                names_view(declared@),
            ),
{
    let mut i: usize = 0;
    while i < params.len()
        invariant
            i <= params@.len(),
            forall|i: int|
                0 <= i < params@.len() ==> is_declared(
                    (#[trigger] params@[i])@.ty,
                    names_view(declared@),
                ),
        decreases params@.len() - i,
    {
        assert(is_declared(params@[i as int]@.ty, names_view(declared@)));
        assert_type_declared(params[i].ty.inner(), declared);
        i += 1;
    }
}

/// Does nothing where every custom type that a type is or contains is declared; nothing else may be
/// handed to it. Code that is not verified is stopped there by a panic.
pub fn assert_type_declared(ty: &Type<'_>, declared: &[&str])
    requires
        is_declared(ty@, names_view(declared@)),
{
    let found: Option<()> = if type_declared(ty, declared) {
        Some(())
    } else {
        None
    };
    found.expect(
        "custom type used in method signature is not declared in `types = [...]`; add it to the `types` list on the `#[zlink(interface = \"...\", types = [...])]` attribute",
    );
}

/// Whether the custom types of all parameters are declared.
pub fn params_declared(params: &[&Parameter<'_>], declared: &[&str]) -> (r: bool)
    ensures
        r == forall|i: int|
            0 <= i < params@.len() ==> is_declared(
                (#[trigger] params@[i])@.ty,
                names_view(declared@),
            ),
{
    let mut i: usize = 0;
    while i < params.len()
        invariant
            i <= params@.len(),
            forall|k: int|
                0 <= k < i ==> is_declared((#[trigger] params@[k])@.ty, names_view(declared@)),
        decreases params@.len() - i,
    {
        if !type_declared(params[i].ty.inner(), declared) {
            assert(!is_declared(params@[i as int]@.ty, names_view(declared@)));
            return false;
        }
        i += 1;
    }
    true
}

/// Whether every custom type that a type is or contains is declared.
pub fn type_declared(ty: &Type<'_>, declared: &[&str]) -> (r: bool)
    ensures
        r == is_declared(ty@, names_view(declared@)),
    decreases ty,
{
    match ty {
        Type::Custom(name) => name_in_list(*name, declared),
        Type::Optional(inner) => ref_declared(inner, declared),
        Type::Array(inner) => ref_declared(inner, declared),
        Type::Mapping(inner) => ref_declared(inner, declared),
        Type::Object(fields) => fields_declared(&fields.items, declared),
        _ => true,
    }
}

/// Whether every custom type that a referenced type is or contains is declared.
fn ref_declared(ty: &TypeRef<'_>, declared: &[&str]) -> (r: bool)
    ensures
        r == is_declared(ty@, names_view(declared@)),
    decreases ty,
{
    match ty {
        TypeRef::Borrowed(t) => type_declared(*t, declared),
        TypeRef::Owned(t) => type_declared(&**t, declared),
    }
}

/// Whether every custom type that the types of fields are or contain is declared.
fn fields_declared(fields: &Vec<Field<'_>>, declared: &[&str]) -> (r: bool)
    ensures
        r == are_declared(idl::fields_view(fields@), names_view(declared@)),
    decreases fields,
{
    let ghost all = idl::fields_view(fields@);
    let ghost names = names_view(declared@);
    proof {
        reveal_with_fuel(are_declared, 2);
    }
    let mut i: usize = 0;
    while i < fields.len()
        invariant
            i <= fields@.len(),
            all == idl::fields_view(fields@),
            names == names_view(declared@),
            forall|k: int| 0 <= k < i ==> is_declared((#[trigger] all[k]).ty, names),
        decreases fields@.len() - i,
    {
        assert(all[i as int].ty == fields@[i as int].ty@);
        assert(decreases_to!(fields => fields@));
        assert(decreases_to!(fields@ => fields@[i as int]));
        if !ref_declared(&fields[i].ty, declared) {
            assert(!is_declared(all[i as int].ty, names));
            return false;
        }
        i += 1;
    }
    true
}

/// The custom type that a type refers to.
pub fn custom_type_name<'a>(ty: &'a Type<'a>) -> (r: Option<&'a str>)
    ensures
        match r {
            Some(name) => custom_name(ty@) == Some(name@),
            None => custom_name(ty@) is None,
        },
    decreases ty,
{
    match ty {
        Type::Custom(name) => Some(*name),
        Type::Optional(inner) => match inner {
            idl::TypeRef::Borrowed(t) => custom_type_name(*t),
            idl::TypeRef::Owned(t) => custom_type_name(&**t),
        },
        Type::Array(inner) => match inner {
            idl::TypeRef::Borrowed(t) => custom_type_name(*t),
            idl::TypeRef::Owned(t) => custom_type_name(&**t),
        },
        Type::Mapping(inner) => match inner {
            idl::TypeRef::Borrowed(t) => custom_type_name(*t),
            idl::TypeRef::Owned(t) => custom_type_name(&**t),
        },
        _ => None,
    }
}

/// Whether two byte strings are equal.
pub fn bytes_eq(a: &[u8], b: &[u8]) -> (r: bool)
    ensures
        r == (a@ == b@),
{
    if a.len() != b.len() {
        return false;
    }
    let mut i: usize = 0;
    while i < a.len()
        invariant
            i <= a@.len() == b@.len(),
            forall|k: int| 0 <= k < i ==> a@[k] == b@[k],
        decreases a@.len() - i,
    {
        if a[i] != b[i] {
            return false;
        }
        i += 1;
    }
    assert(a@ =~= b@);
    true
}

/// Whether two texts are equal.
pub fn str_eq(a: &str, b: &str) -> (r: bool)
    ensures
        r == (a@ == b@),
{
    proof {
        encode_utf8_decode_utf8(a@);
        encode_utf8_decode_utf8(b@);
    }
    bytes_eq(a.as_bytes(), b.as_bytes())
}

/// Whether a name is in a list.
pub fn name_in_list(name: &str, declared: &[&str]) -> (r: bool)
    ensures
        r == names_view(declared@).contains(name@),
{
    let mut i: usize = 0;
    while i < declared.len()
        invariant
            i <= declared@.len(),
            forall|k: int| 0 <= k < i ==> (#[trigger] declared@[k])@ != name@,
        decreases declared@.len() - i,
    {
        if str_eq(name, declared[i]) {
            assert(names_view(declared@)[i as int] == name@);
            return true;
        }
        i += 1;
    }
    proof {
        if names_view(declared@).contains(name@) {
            let k = choose|k: int|
                0 <= k < names_view(declared@).len() && names_view(declared@)[k] == name@;
            assert(declared@[k]@ == name@);
        }
    }
    false
}

/// Making a type optional, a list of it or a map of it changes nothing about what must be declared.
pub proof fn law_wrapping_keeps_the_custom_type(ty: TypeView, declared: Seq<Seq<char>>)
    ensures
        is_declared(TypeView::Optional(Box::new(ty)), declared) == is_declared(ty, declared),
        is_declared(TypeView::Array(Box::new(ty)), declared) == is_declared(ty, declared),
        is_declared(TypeView::Mapping(Box::new(ty)), declared) == is_declared(ty, declared),
{
}

/// Declaring more types rejects nothing.
pub proof fn law_more_declarations_reject_nothing(
    ty: TypeView,
    declared: Seq<Seq<char>>,
    more: Seq<Seq<char>>,
)
    requires
        is_declared(ty, declared),
    ensures
        is_declared(ty, declared + more),
        is_declared(ty, more + declared),
    decreases ty,
{
    reveal_with_fuel(is_declared, 2);
    reveal_with_fuel(are_declared, 2);
    match ty {
        TypeView::Custom(name) => {
            assert(declared.contains(name));
            let k = choose|k: int| 0 <= k < declared.len() && declared[k] == name;
            assert((declared + more)[k] == name);
            assert((more + declared)[more.len() + k] == name);
        },
        TypeView::Optional(inner) => {
            law_more_declarations_reject_nothing(*inner, declared, more);
        },
        TypeView::Array(inner) => {
            law_more_declarations_reject_nothing(*inner, declared, more);
        },
        TypeView::Mapping(inner) => {
            law_more_declarations_reject_nothing(*inner, declared, more);
        },
        TypeView::Object(fields) => {
            assert forall|i: int|
                #![trigger fields[i]]
                0 <= i < fields.len() implies is_declared(fields[i].ty, declared + more)
                && is_declared(fields[i].ty, more + declared) by {
                assert(decreases_to!(ty => fields));
                assert(decreases_to!(fields => fields[i]));
                law_more_declarations_reject_nothing(fields[i].ty, declared, more);
            }
        },
        _ => {},
    }
}

/// A type that contains a custom type which is not declared is not declared: neither is one that
/// refers to it, nor an object with a field of it.
pub proof fn law_undeclared_types_are_found(
    ty: TypeView,
    fields: Seq<FieldView>,
    i: int,
    declared: Seq<Seq<char>>,
)
    ensures
        custom_name(ty) matches Some(name) && !declared.contains(name) ==> !is_declared(
            ty,
            declared,
        ),
        0 <= i < fields.len() && !is_declared(fields[i].ty, declared) ==> !is_declared(
            TypeView::Object(fields),
            declared,
        ),
    decreases ty,
{
    reveal_with_fuel(is_declared, 2);
    reveal_with_fuel(are_declared, 2);
    match ty {
        TypeView::Optional(inner) => {
            law_undeclared_types_are_found(*inner, fields, i, declared);
        },
        TypeView::Array(inner) => {
            law_undeclared_types_are_found(*inner, fields, i, declared);
        },
        TypeView::Mapping(inner) => {
            law_undeclared_types_are_found(*inner, fields, i, declared);
        },
        _ => {},
    }
    if 0 <= i < fields.len() && !is_declared(fields[i].ty, declared) {
        assert(!are_declared(fields, declared));
    }
}

/// Whether a custom type of some name occurs in a type, at any depth.
pub open spec fn occurs(name: Seq<char>, ty: TypeView) -> bool
    decreases ty,
{
    match ty {
        TypeView::Custom(custom) => custom == name,
        TypeView::Optional(inner) => occurs(name, *inner),
        TypeView::Array(inner) => occurs(name, *inner),
        TypeView::Mapping(inner) => occurs(name, *inner),
        TypeView::Object(fields) => occurs_in(name, fields),
        TypeView::Enum(_) => false,
        TypeView::Bool => false,
        TypeView::Int => false,
        TypeView::Float => false,
        TypeView::String => false,
        TypeView::ForeignObject => false,
        TypeView::Any => false,
    }
}

/// Whether a custom type of some name occurs in the type of a field.
pub open spec fn occurs_in(name: Seq<char>, fields: Seq<FieldView>) -> bool
    decreases fields,
{
    exists|i: int|
        #![trigger fields[i]]
        0 <= i < fields.len() && occurs(name, fields[i].ty)
}

/// A type is accepted exactly where every custom type that occurs in it, at any depth, is declared.
/// So one in which none occurs, a primitive type or an inline enum say, is accepted with any list, and
/// with an empty list no other is.
pub proof fn law_accepted_types_have_all_their_names_declared(
    ty: TypeView,
    declared: Seq<Seq<char>>,
)
    ensures
        is_declared(ty, declared) <==> forall|name: Seq<char>| #[trigger]
            occurs(name, ty) ==> declared.contains(name),
        (forall|name: Seq<char>| !#[trigger] occurs(name, ty)) ==> is_declared(ty, declared),
        declared.len() == 0 && is_declared(ty, declared) ==> forall|name: Seq<char>|
            !#[trigger] occurs(name, ty),
    decreases ty,
{
    reveal_with_fuel(is_declared, 2);
    reveal_with_fuel(are_declared, 2);
    reveal_with_fuel(occurs, 2);
    reveal_with_fuel(occurs_in, 2);
    match ty {
        TypeView::Custom(custom) => {
            assert(occurs(custom, ty));
        },
        TypeView::Optional(inner) => {
            law_accepted_types_have_all_their_names_declared(*inner, declared);
            assert(forall|name: Seq<char>| #[trigger] occurs(name, ty) == occurs(name, *inner));
            assert(forall|name: Seq<char>| occurs(name, ty) == #[trigger] occurs(name, *inner));
        },
        TypeView::Array(inner) => {
            law_accepted_types_have_all_their_names_declared(*inner, declared);
            assert(forall|name: Seq<char>| #[trigger] occurs(name, ty) == occurs(name, *inner));
            assert(forall|name: Seq<char>| occurs(name, ty) == #[trigger] occurs(name, *inner));
        },
        TypeView::Mapping(inner) => {
            law_accepted_types_have_all_their_names_declared(*inner, declared);
            assert(forall|name: Seq<char>| #[trigger] occurs(name, ty) == occurs(name, *inner));
            assert(forall|name: Seq<char>| occurs(name, ty) == #[trigger] occurs(name, *inner));
        },
        TypeView::Object(fields) => {
            assert forall|i: int| #![trigger fields[i]] 0 <= i < fields.len() implies is_declared(
                fields[i].ty,
                declared,
            ) == (forall|name: Seq<char>| #[trigger]
                occurs(name, fields[i].ty) ==> declared.contains(name)) by {
                assert(decreases_to!(ty => fields));
                assert(decreases_to!(fields => fields[i]));
                law_accepted_types_have_all_their_names_declared(fields[i].ty, declared);
            }
            if is_declared(ty, declared) {
                assert forall|name: Seq<char>| #[trigger] occurs(name, ty) implies declared.contains(
                    name,
                ) by {
                    let i = choose|i: int|
                        #![trigger fields[i]]
                        0 <= i < fields.len() && occurs(name, fields[i].ty);
                    assert(is_declared(fields[i].ty, declared));
                }
            }
            if forall|name: Seq<char>| #[trigger] occurs(name, ty) ==> declared.contains(name) {
                assert forall|i: int| #![trigger fields[i]] 0 <= i < fields.len() implies is_declared(
                    fields[i].ty,
                    declared,
                ) by {
                    assert forall|name: Seq<char>| #[trigger] occurs(
                        name,
                        fields[i].ty,
                    ) implies declared.contains(name) by {
                        assert(occurs(name, ty));
                    }
                }
            }
        },
        _ => {},
    }
    if declared.len() == 0 && is_declared(ty, declared) {
        assert forall|name: Seq<char>| !#[trigger] occurs(name, ty) by {
            assert(!declared.contains(name));
        }
    }
}

/// One way to make a type of another.
pub enum Wrapping {
    /// Optional.
    Optional,
    /// A list.
    Array,
    /// A map.
    Mapping,
}

/// A type that is wrapped some times, the last wrapping being the outermost.
pub open spec fn wrapped(ty: TypeView, wrappings: Seq<Wrapping>) -> TypeView
    decreases wrappings.len(),
{
    if wrappings.len() == 0 {
        ty
    } else {
        let inner = Box::new(wrapped(ty, wrappings.drop_last()));
        match wrappings.last() {
            Wrapping::Optional => TypeView::Optional(inner),
            Wrapping::Array => TypeView::Array(inner),
            Wrapping::Mapping => TypeView::Mapping(inner),
        }
    }
}

/// The custom type that a type refers to is the one that it wraps, however often; and what wraps
/// neither a custom type nor anything that does refers to none.
pub proof fn law_wrapped_custom_types_are_found(ty: TypeView, wrappings: Seq<Wrapping>)
    ensures
        ty matches TypeView::Custom(name) ==> custom_name(wrapped(ty, wrappings)) == Some(name),
        !(ty is Custom) && !(ty is Optional) && !(ty is Array) && !(ty is Mapping) ==> custom_name(
            wrapped(ty, wrappings),
        ) is None,
    decreases wrappings.len(),
{
    if wrappings.len() > 0 {
        law_wrapped_custom_types_are_found(ty, wrappings.drop_last());
    }
}

} // verus!
