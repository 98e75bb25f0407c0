//! The types that replies and errors are sent as.

use vstd::prelude::*;

use super::{
    build_error_type_variant_map, build_return_type_variant_map, build_stream_type_variant_map, Part,
};
use crate::macros::service::method;
use crate::macros::service::method::{MethodInfo, MethodInfoView};
use crate::text;
use crate::text::{concat, decimal_text, terminate};

verus! {

/// The name of the variant with the number `index`.
pub open spec fn variant_name(name: Seq<char>, index: nat) -> Seq<char> {
    "__"@
        + name
        + "Variant"@
        + text::decimal(index)
}

/// The name of the variant with the number `index`.
pub(crate) fn variant_name_text(name: &str, index: usize) -> (r: String)
    ensures
        r@ == variant_name(name@, index as nat),
{
    let mut out = "__".to_string();
    out.append(name);
    out.append("Variant");
    out.append(decimal_text(index).as_str());
    out
}

/// The variant with the number `index`, which holds a type.
pub open spec fn variant(name: Seq<char>, index: nat, ty: Seq<char>) -> Seq<char> {
    variant_name(name, index)
        + "("@
        + ty
        + ")"@
}

/// The variant with the number `index`, which holds a type.
fn variant_text(name: &str, index: usize, ty: &str) -> (r: String)
    ensures
        r@ == variant(name@, index as nat, ty@),
{
    let mut out = variant_name_text(name, index).as_str().to_string();
    out.append("(");
    out.append(ty);
    out.append(")");
    out
}

/// The variants that hold types, each with the number at which its type is listed.
pub open spec fn variants(name: Seq<char>, types: Seq<Seq<char>>) -> Seq<Seq<char>> {
    Seq::new(types.len(), |k: int| variant(name, k as nat, types[k]))
}

/// The variants that hold types.
fn variant_texts(name: &str, types: &Vec<String>) -> (r: Vec<String>)
    ensures
        text::texts(r@) == variants(name@, text::texts(types@)),
{
    let ghost all = text::texts(types@);
    let mut out: Vec<String> = Vec::new();
    let mut i: usize = 0;
    assert(text::texts(out@) =~= variants(name@, all).take(0));
    while i < types.len()
        invariant
            i <= types@.len(),
            all == text::texts(types@),
            text::texts(out@) == variants(name@, all).take(i as int),
        decreases types@.len() - i,
    {
        let t = variant_text(name, i, types[i].as_str());
        proof {
            text::lemma_texts_push(out@, t);
            assert(variants(name@, all).take(i + 1) =~= variants(name@, all).take(i as int).push(
                t@,
            ));
        }
        out.push(t);
        i += 1;
    }
    assert(variants(name@, all).take(all.len() as int) =~= variants(name@, all));
    out
}

/// The type that replies are sent as: those of the Varlink service, and one variant for each type
/// that a method of the service replies with.
pub open spec fn reply_params_enum(
    ms: Seq<MethodInfoView>,
    method_call: Seq<char>,
    name: Seq<char>,
    crate_path: Seq<char>,
) -> Seq<char> {
    "#[allow(private_interfaces)] #[derive(::core::fmt::Debug, ::serde::Serialize)] "@
        + "#[serde(untagged)] pub enum "@
        + name
        + "<'__ser> { __"@
        + name
        + "VarlinkService("@
        + crate_path
        + "::varlink_service::Reply<'__ser>), "@
        + text::terminated(variants(method_call, super::distinct(ms, Part::ReturnType)))
        + "__"@
        + name
        + "Unused(::core::marker::PhantomData<&'__ser ()>), } "@
}

/// The type that replies are sent as: those of the Varlink service, and one variant for each type
/// that a method of the service replies with.
pub fn generate_reply_params_enum(
    methods_info: &[MethodInfo],
    method_call_name: &str,
    enum_name: &str,
    crate_path: &str,
) -> (r: String)
    ensures
        r@ == reply_params_enum(
            method::methods_view(methods_info@),
            method_call_name@,
            enum_name@,
            crate_path@,
        ),
{
    let types = build_return_type_variant_map(methods_info);
    let variants = variant_texts(method_call_name, &types);
    let mut out = "#[allow(private_interfaces)] #[derive(::core::fmt::Debug, ::serde::Serialize)] ".to_string();
    out.append("#[serde(untagged)] pub enum ");
    out.append(enum_name);
    out.append("<'__ser> { __");
    out.append(enum_name);
    out.append("VarlinkService(");
    out.append(crate_path);
    out.append("::varlink_service::Reply<'__ser>), ");
    out.append(terminate(&variants).as_str());
    out.append("__");
    out.append(enum_name);
    out.append("Unused(::core::marker::PhantomData<&'__ser ()>), } ");
    out
}

/// The conversion of an error into the variant that holds its type.
pub open spec fn from_impl(name: Seq<char>, index: nat, ty: Seq<char>) -> Seq<char> {
    "impl<'__ser> ::core::convert::From<"@
        + ty
        + "> for "@
        + name
        + "<'__ser> { fn from(e: "@
        + ty
        + ") -> Self { "@
        + name
        + "::"@
        + variant_name(name, index)
        + "(e) } } "@
}

/// The conversion of an error into the variant that holds its type.
fn from_impl_text(name: &str, index: usize, ty: &str) -> (r: String)
    ensures
        r@ == from_impl(name@, index as nat, ty@),
{
    let mut out = "impl<'__ser> ::core::convert::From<".to_string();
    out.append(ty);
    out.append("> for ");
    out.append(name);
    out.append("<'__ser> { fn from(e: ");
    out.append(ty);
    out.append(") -> Self { ");
    out.append(name);
    out.append("::");
    out.append(variant_name_text(name, index).as_str());
    out.append("(e) } } ");
    out
}

/// The conversions of errors into the variants that hold their types.
pub open spec fn from_impls(name: Seq<char>, types: Seq<Seq<char>>) -> Seq<Seq<char>> {
    Seq::new(types.len(), |k: int| from_impl(name, k as nat, types[k]))
}

/// The conversions of errors into the variants that hold their types.
fn from_impl_texts(name: &str, types: &Vec<String>) -> (r: Vec<String>)
    ensures
        text::texts(r@) == from_impls(name@, text::texts(types@)),
{
    let ghost all = text::texts(types@);
    let mut out: Vec<String> = Vec::new();
    let mut i: usize = 0;
    assert(text::texts(out@) =~= from_impls(name@, all).take(0));
    while i < types.len()
        invariant
            i <= types@.len(),
            all == text::texts(types@),
            text::texts(out@) == from_impls(name@, all).take(i as int),
        decreases types@.len() - i,
    {
        let t = from_impl_text(name, i, types[i].as_str());
        proof {
            text::lemma_texts_push(out@, t);
            assert(from_impls(name@, all).take(i + 1) =~= from_impls(name@, all).take(
                i as int,
            ).push(t@));
        }
        out.push(t);
        i += 1;
    }
    assert(from_impls(name@, all).take(all.len() as int) =~= from_impls(name@, all));
    out
}

/// The type that errors are sent as, with conversions into it: those of the Varlink service, and one
/// variant for each type of errors that a method of the service has.
pub open spec fn reply_error_enum(
    ms: Seq<MethodInfoView>,
    name: Seq<char>,
    crate_path: Seq<char>,
) -> Seq<char> {
    "#[allow(private_interfaces)] #[derive(::core::fmt::Debug, ::serde::Serialize)] "@
        + "#[serde(untagged)] pub enum "@
        + name
        + "<'__ser> { __"@
        + name
        + "VarlinkService("@
        + crate_path
        + "::varlink_service::Error<'__ser>), "@
        + text::terminated(variants(name, super::distinct(ms, Part::ErrorType)))
        + "} impl<'__ser> ::core::convert::From<"@
        + crate_path
        + "::varlink_service::Error<'__ser>> for "@
        + name
        + "<'__ser> { fn from(e: "@
        + crate_path
        + "::varlink_service::Error<'__ser>) -> Self { "@
        + name
        + "::__"@
        + name
        + "VarlinkService(e) } } "@
        + text::concatenated(from_impls(name, super::distinct(ms, Part::ErrorType)))
}

/// The type that errors are sent as, with conversions into it: those of the Varlink service, and one
/// variant for each type of errors that a method of the service has.
///
/// With it come the types of errors, each at the number of its variant.
pub fn generate_reply_error_enum(
    methods_info: &[MethodInfo],
    enum_name: &str,
    crate_path: &str,
) -> (r: (String, Vec<String>))
    ensures
        r.0@ == reply_error_enum(method::methods_view(methods_info@), enum_name@, crate_path@),
        text::texts(r.1@) == super::distinct(method::methods_view(methods_info@), Part::ErrorType),
{
    let types = build_error_type_variant_map(methods_info);
    let variants = variant_texts(enum_name, &types);
    let from_impls = from_impl_texts(enum_name, &types);
    let mut out = "#[allow(private_interfaces)] #[derive(::core::fmt::Debug, ::serde::Serialize)] ".to_string();
    out.append("#[serde(untagged)] pub enum ");
    out.append(enum_name);
    out.append("<'__ser> { __");
    out.append(enum_name);
    out.append("VarlinkService(");
    out.append(crate_path);
    out.append("::varlink_service::Error<'__ser>), ");
    out.append(terminate(&variants).as_str());
    out.append("} impl<'__ser> ::core::convert::From<");
    out.append(crate_path);
    out.append("::varlink_service::Error<'__ser>> for ");
    out.append(enum_name);
    out.append("<'__ser> { fn from(e: ");
    out.append(crate_path);
    out.append("::varlink_service::Error<'__ser>) -> Self { ");
    out.append(enum_name);
    out.append("::__");
    out.append(enum_name);
    out.append("VarlinkService(e) } } ");
    out.append(concat(&from_impls).as_str());
    (out, types)
}

/// The type that the items of streams are sent as: one variant for each type that a method of the
/// service replies with in a stream. Without such a method there is none.
pub open spec fn stream_params_enum(ms: Seq<MethodInfoView>, name: Seq<char>) -> Seq<char> {
    if super::distinct(ms, Part::StreamType).len() == 0 {
        ""@
    } else {
        "#[allow(private_interfaces)] #[derive(::core::fmt::Debug, ::serde::Serialize)] "@
            + "#[serde(untagged)] pub enum "@ + name + " { "@ + text::terminated(
            variants(name, super::distinct(ms, Part::StreamType)),
        ) + "} "@
    }
}

/// The type that the items of streams are sent as.
///
/// With it come the types of items, each at the number of its variant.
pub fn generate_stream_params_enum(methods_info: &[MethodInfo], enum_name: &str) -> (r: (
    String,
    Vec<String>,
))
    ensures
        r.0@ == stream_params_enum(method::methods_view(methods_info@), enum_name@),
        text::texts(r.1@) == super::distinct(
            method::methods_view(methods_info@),
            Part::StreamType,
        ),
{
    let types = build_stream_type_variant_map(methods_info);
    assert(text::texts(types@).len() == types@.len());
    if types.len() == 0 {
        return ("".to_string(), types);
    }
    let variants = variant_texts(enum_name, &types);
    let mut out = "#[allow(private_interfaces)] #[derive(::core::fmt::Debug, ::serde::Serialize)] ".to_string();
    out.append("#[serde(untagged)] pub enum ");
    out.append(enum_name);
    out.append(" { ");
    out.append(terminate(&variants).as_str());
    out.append("} ");
    (out, types)
}

/// The variant in which a reply of a method is sent stands in the type of replies, with the type of
/// that reply in it; and so with its errors.
pub proof fn law_every_reply_has_its_variant(
    ms: Seq<MethodInfoView>,
    k: int,
    name: Seq<char>,
    part: Part,
    t: Seq<char>,
)
    requires
        0 <= k < ms.len(),
        super::part_of(ms[k], part) == Some(t),
    ensures
        ({
            let types = super::distinct(ms, part);
            variants(name, types).contains(
                variant_name(name, super::variant_index(types, t)) + "("@ + t + ")"@,
            )
        }),
{
    super::law_every_type_has_its_variant(ms, part, k, t);
    let types = super::distinct(ms, part);
    let i = super::variant_index(types, t);
    assert(variants(name, types)[i as int] == variant(name, i, t));
}

} // verus!
