//! The types that incoming calls are read into.

use vstd::prelude::*;

use super::lifetimes;
use super::lifetimes::put_lifetime;
use super::string_literal;
use crate::macros::service::method;
use crate::macros::service::method::{MethodInfo, MethodInfoView};
use crate::macros::service::types::{ParamInfo, ParamInfoView};
use crate::text;
use crate::text::{list, terminate};

verus! {

/// The start of a field or a variant with another name on the wire.
pub open spec fn renamed(name: Seq<char>) -> Seq<char> {
    "#[serde(rename = "@
        + super::literal_of(name)
        + ")] "@
}

/// The start of a field or a variant with another name on the wire.
fn rename(name: &str) -> (r: String)
    ensures
        r@ == renamed(name@),
{
    let mut out = "#[serde(rename = ".to_string();
    out.append(string_literal(name).as_str());
    out.append(")] ");
    out
}

/// A field with the name and the type of a parameter, with the lifetime of the type that it is part
/// of.
pub open spec fn plain_field(p: ParamInfoView) -> Seq<char> {
    p.name
        + ": "@
        + lifetimes::with_lifetime(p.ty, "'__de"@)
}

/// A field with the name and the type of a parameter, with the lifetime of the type that it is part
/// of.
fn plain_field_text(p: &ParamInfo) -> (r: String)
    ensures
        r@ == plain_field(p@),
{
    let mut out = p.name.as_str().to_string();
    out.append(": ");
    out.append(put_lifetime(p.ty.as_str(), "'__de").as_str());
    out
}

/// The field that a parameter is read into.
pub open spec fn field(p: ParamInfoView) -> Seq<char> {
    match p.serialized_name {
        Some(name) => renamed(name) + plain_field(p),
        None => plain_field(p),
    }
}

/// The field that a parameter is read into.
fn field_text(p: &ParamInfo) -> (r: String)
    ensures
        r@ == field(p@),
{
    match &p.serialized_name {
        Some(name) => {
            let mut out = rename(name.as_str());
            out.append(plain_field_text(p).as_str());
            out
        },
        None => plain_field_text(p),
    }
}

/// The fields that the parameters of a method are read into.
pub open spec fn fields(m: MethodInfoView) -> Seq<Seq<char>> {
    method::wire_params(m.params).map_values(|p: ParamInfoView| field(p))
}

/// The fields that the parameters of a method are read into.
fn field_texts(params: &Vec<&ParamInfo>) -> (r: Vec<String>)
    ensures
        text::texts(r@) == method::refs_view(params@).map_values(|p: ParamInfoView| field(p)),
{
    let ghost f = |p: ParamInfoView| field(p);
    let ghost all = method::refs_view(params@);
    let mut out: Vec<String> = Vec::new();
    let mut i: usize = 0;
    assert(text::texts(out@) =~= all.take(0).map_values(f));
    while i < params.len()
        invariant
            i <= params@.len(),
            all == method::refs_view(params@),
            f == (|p: ParamInfoView| field(p)),
            text::texts(out@) == all.take(i as int).map_values(f),
        decreases params@.len() - i,
    {
        let t = field_text(params[i]);
        proof {
            text::lemma_texts_push(out@, t);
            assert(all.take(i + 1).map_values(f) =~= all.take(i as int).map_values(f).push(
                f(params@[i as int]@),
            ));
        }
        out.push(t);
        i += 1;
    }
    assert(all.take(all.len() as int) =~= all);
    out
}

/// The variant that a method with the full name `path` is read into.
pub open spec fn variant(m: MethodInfoView, path: Seq<char>) -> Seq<char> {
    let head = renamed(path) + m.varlink_name;
    if fields(m).len() == 0 {
        head
    } else {
        head + " { "@ + text::listed(fields(m)) + " }"@
    }
}

/// The variant that a method with the full name `path` is read into.
fn variant_text(m: &MethodInfo, path: &str) -> (r: String)
    ensures
        r@ == variant(m@, path@),
{
    let params = m.serialized_params();
    let fields = field_texts(&params);
    let mut out = rename(path);
    out.append(m.varlink_name.as_str());
    assert(text::texts(fields@) == self::fields(m@));
    assert(text::texts(fields@).len() == fields@.len());
    if fields.len() > 0 {
        out.append(" { ");
        out.append(list(&fields).as_str());
        out.append(" }");
    }
    out
}

/// The variants of the methods that belong to an interface.
pub open spec fn variants(ms: Seq<MethodInfoView>) -> Seq<Seq<char>>
    decreases ms.len(),
{
    if ms.len() == 0 {
        seq![]
    } else {
        match ms.last().full_path() {
            Some(path) => variants(ms.drop_last()).push(variant(ms.last(), path)),
            None => variants(ms.drop_last()),
        }
    }
}

/// The variants of the methods that belong to an interface.
fn variant_texts(methods_info: &[MethodInfo]) -> (r: Vec<String>)
    ensures
        text::texts(r@) == variants(method::methods_view(methods_info@)),
{
    let ghost ms = method::methods_view(methods_info@);
    let mut out: Vec<String> = Vec::new();
    let mut i: usize = 0;
    assert(text::texts(out@) =~= variants(ms.take(0)));
    while i < methods_info.len()
        invariant
            i <= methods_info@.len(),
            ms == method::methods_view(methods_info@),
            text::texts(out@) == variants(ms.take(i as int)),
        decreases methods_info@.len() - i,
    {
        proof {
            assert(ms.take(i + 1).drop_last() =~= ms.take(i as int));
            assert(ms.take(i + 1).last() == methods_info@[i as int]@);
        }
        if let Some(path) = methods_info[i].full_method_path() {
            let t = variant_text(&methods_info[i], path.as_str());
            proof {
                text::lemma_texts_push(out@, t);
            }
            out.push(t);
        }
        i += 1;
    }
    assert(ms.take(ms.len() as int) =~= ms);
    out
}

/// The start of the type of the service's own methods, with a variant that none of them has.
pub open spec fn user_methods_start(name: Seq<char>) -> Seq<char> {
    "#[allow(private_interfaces)] #[derive(::core::fmt::Debug, ::serde::Deserialize)] "@
        + "#[serde(tag = \"method\", content = \"parameters\")] pub enum "@
        + name
        + "<'__de> { __"@
        + name
        + "Unused(::core::marker::PhantomData<&'__de ()>), "@
}

/// The start of the type of the service's own methods, with a variant that none of them has.
fn user_methods_start_text(name: &str) -> (r: String)
    ensures
        r@ == user_methods_start(name@),
{
    let mut out = "#[allow(private_interfaces)] #[derive(::core::fmt::Debug, ::serde::Deserialize)] ".to_string();
    out.append("#[serde(tag = \"method\", content = \"parameters\")] pub enum ");
    out.append(name);
    out.append("<'__de> { __");
    out.append(name);
    out.append("Unused(::core::marker::PhantomData<&'__de ()>), ");
    out
}

/// The type of the service's own methods. Where it has any, a last variant takes every other method.
pub open spec fn user_methods_enum(ms: Seq<MethodInfoView>, name: Seq<char>) -> Seq<char> {
    if variants(ms).len() == 0 {
        user_methods_start(name) + "} "@
    } else {
        user_methods_start(name) + text::terminated(variants(ms)) + "#[serde(other)] __"@ + name
            + "Unknown, } "@
    }
}

/// The type of the service's own methods.
fn user_methods_text(methods_info: &[MethodInfo], name: &str) -> (r: String)
    ensures
        r@ == user_methods_enum(method::methods_view(methods_info@), name@),
{
    let variants = variant_texts(methods_info);
    assert(text::texts(variants@).len() == variants@.len());
    let mut out = user_methods_start_text(name);
    if variants.len() == 0 {
        out.append("} ");
    } else {
        out.append(terminate(&variants).as_str());
        out.append("#[serde(other)] __");
        out.append(name);
        out.append("Unknown, } ");
    }
    out
}

/// The type of all methods: those of the Varlink service are tried first, then the service's own.
pub open spec fn outer_enum(enum_name: Seq<char>, user_methods: Seq<char>, crate_path: Seq<char>) -> Seq<char> {
    "#[allow(private_interfaces)] #[derive(::core::fmt::Debug, ::serde::Deserialize)] "@
        + "#[serde(untagged)] pub enum "@
        + enum_name
        + "<'__de> { #[serde(borrow)] __VarlinkService("@
        + crate_path
        + "::varlink_service::Method<'__de>), __UserMethods("@
        + user_methods
        + "<'__de>), } "@
}

/// The type of all methods: those of the Varlink service are tried first, then the service's own.
fn outer_enum_text(enum_name: &str, user_methods: &str, crate_path: &str) -> (r: String)
    ensures
        r@ == outer_enum(enum_name@, user_methods@, crate_path@),
{
    let mut out = "#[allow(private_interfaces)] #[derive(::core::fmt::Debug, ::serde::Deserialize)] ".to_string();
    out.append("#[serde(untagged)] pub enum ");
    out.append(enum_name);
    out.append("<'__de> { #[serde(borrow)] __VarlinkService(");
    out.append(crate_path);
    out.append("::varlink_service::Method<'__de>), __UserMethods(");
    out.append(user_methods);
    out.append("<'__de>), } ");
    out
}

/// The types that incoming calls are read into.
pub open spec fn method_call_enum(
    ms: Seq<MethodInfoView>,
    enum_name: Seq<char>,
    user_methods: Seq<char>,
    crate_path: Seq<char>,
) -> Seq<char> {
    user_methods_enum(ms, user_methods) + outer_enum(enum_name, user_methods, crate_path)
}

/// The types that incoming calls are read into.
pub fn generate_method_call_enum(
    methods_info: &[MethodInfo],
    enum_name: &str,
    user_methods_name: &str,
    crate_path: &str,
) -> (r: String)
    ensures
        r@ == method_call_enum(
            method::methods_view(methods_info@),
            enum_name@,
            user_methods_name@,
            crate_path@,
        ),
{
    let mut out = user_methods_text(methods_info, user_methods_name);
    out.append(outer_enum_text(enum_name, user_methods_name, crate_path).as_str());
    out
}

} // verus!
