//! The descriptions of the interfaces that a service has.

use vstd::prelude::*;
use vstd::utf8::*;

use super::lifetimes;
use super::lifetimes::put_lifetime;
use super::{string_literal, Part};
use crate::introspect::str_eq;
use crate::macros::service::attrs::ServiceAttrs;
use crate::macros::service::method;
use crate::macros::service::method::{MethodInfo, MethodInfoView};
use crate::macros::service::types::{ParamInfo, ParamInfoView};
use crate::text;
use crate::text::{concat, decimal_text, list, replace};

verus! {

/// A text in upper case: an ASCII text as such, any other as Unicode says.
pub open spec fn text_upper(s: Seq<char>) -> Seq<char> {
    if is_ascii_chars(s) {
        text::uppered(s)
    } else {
        unicode_upper(s)
    }
}

/// What Unicode says a text is in upper case.
pub uninterp spec fn unicode_upper(s: Seq<char>) -> Seq<char>;

/// Calls [`str::to_uppercase`]: the Unicode mapping, which of an ASCII text changes the letters `a`
/// to `z` alone.
#[verifier::external_body]
fn str_to_uppercase(s: &str) -> (r: String)
    ensures
        is_ascii_chars(s@) ==> r@ == text::uppered(s@),
        !is_ascii_chars(s@) ==> r@ == unicode_upper(s@),
{
    s.to_uppercase()
}

/// The name of the constant that describes an interface.
pub open spec fn const_name(service: Seq<char>, interface: Seq<char>) -> Seq<char> {
    "__"@
        + text_upper(service)
        + "_INTERFACE_"@
        + text_upper(text::replaced(interface, '.', '_'))
}

/// The name of the constant that describes an interface.
pub(crate) fn const_name_text(service: &str, interface: &str) -> (r: String)
    ensures
        r@ == const_name(service@, interface@),
{
    let mut out = "__".to_string();
    out.append(str_to_uppercase(service).as_str());
    out.append("_INTERFACE_");
    out.append(str_to_uppercase(replace(interface, '.', '_').as_str()).as_str());
    out
}

/// A name without the underscores in front of it.
pub open spec fn without_underscores(name: Seq<char>) -> Seq<char>
    decreases name.len(),
{
    if name.len() > 0 && name[0] == '_' {
        without_underscores(name.drop_first())
    } else {
        name
    }
}

/// A name without the underscores in front of it.
fn strip_underscores(name: &str) -> (r: String)
    ensures
        r@ == without_underscores(name@),
{
    let mut out = String::new();
    let mut leading = true;
    assert(name@.skip(0) =~= name@);
    for c in it: name.chars()
        invariant
            it.seq() == name@,
            leading ==> out@.len() == 0 && without_underscores(name@) == without_underscores(
                name@.skip(it.index() as int),
            ),
            !leading ==> out@ + name@.skip(it.index() as int) == without_underscores(name@),
    {
        let ghost i = it.index() as int;
        proof {
            assert(name@.skip(i).drop_first() =~= name@.skip(i + 1));
            assert(name@.skip(i)[0] == c);
        }
        if c != '_' {
            leading = false;
        }
        if !leading {
            let ghost before = out@;
            out.push(c);
            assert(before + name@.skip(i) =~= out@ + name@.skip(i + 1));
            assert(before.len() == 0 ==> before + name@.skip(i) =~= name@.skip(i));
        }
    }
    assert(name@.skip(name@.len() as int) =~= seq![]);
    assert(out@ + name@.skip(name@.len() as int) =~= out@);
    assert(leading ==> out@ =~= seq![]);
    out
}

/// The name that a parameter has in the description: the one that `rename` gives it, or else its own
/// without the underscores that mark it as unused.
pub open spec fn described_name(p: ParamInfoView) -> Seq<char> {
    match p.serialized_name {
        Some(name) => name,
        None => without_underscores(p.name),
    }
}

/// The name that a parameter has in the description.
fn described_name_text(p: &ParamInfo) -> (r: String)
    ensures
        r@ == described_name(p@),
{
    match &p.serialized_name {
        Some(name) => name.clone(),
        None => strip_underscores(p.name.as_str()),
    }
}

/// The description of a parameter.
pub open spec fn in_param(p: ParamInfoView, crate_path: Seq<char>) -> Seq<char> {
    "&"@
        + crate_path
        + "::idl::Parameter::new("@
        + super::literal_of(described_name(p))
        + ", <"@
        + lifetimes::with_lifetime(p.ty, "'static"@)
        + " as "@
        + crate_path
        + "::introspect::Type>::TYPE, &[], )"@
}

/// The description of a parameter.
fn in_param_text(p: &ParamInfo, crate_path: &str) -> (r: String)
    ensures
        r@ == in_param(p@, crate_path@),
{
    let mut out = "&".to_string();
    out.append(crate_path);
    out.append("::idl::Parameter::new(");
    out.append(string_literal(described_name_text(p).as_str()).as_str());
    out.append(", <");
    out.append(put_lifetime(p.ty.as_str(), "'static").as_str());
    out.append(" as ");
    out.append(crate_path);
    out.append("::introspect::Type>::TYPE, &[], )");
    out
}

/// The descriptions of the parameters of a method.
pub open spec fn in_params(m: MethodInfoView, crate_path: Seq<char>) -> Seq<Seq<char>> {
    method::wire_params(m.params).map_values(|p: ParamInfoView| in_param(p, crate_path))
}

/// The descriptions of the parameters of a method.
fn in_param_texts(m: &MethodInfo, crate_path: &str) -> (r: Vec<String>)
    ensures
        text::texts(r@) == in_params(m@, crate_path@),
{
    let params = m.serialized_params();
    let ghost f = |p: ParamInfoView| in_param(p, crate_path@);
    let ghost all = method::refs_view(params@);
    let mut out: Vec<String> = Vec::new();
    let mut i: usize = 0;
    assert(text::texts(out@) =~= all.take(0).map_values(f));
    while i < params.len()
        invariant
            i <= params@.len(),
            all == method::refs_view(params@),
            f == (|p: ParamInfoView| in_param(p, crate_path@)),
            text::texts(out@) == all.take(i as int).map_values(f),
        decreases params@.len() - i,
    {
        let t = in_param_text(params[i], crate_path);
        proof {
            text::lemma_texts_push(out@, t);
            assert(all.take(i + 1).map_values(f) =~= all.take(i as int).map_values(f).push(
                f(params@[i as int]@),
            ));
        }
        out.push(t);
        i += 1;
    }
    assert(all.take(all.len() as int) =~= all);
    out
}

/// The name of the constant that describes the method with the number `index`.
pub open spec fn method_const_name(index: nat) -> Seq<char> {
    "__METHOD_"@
        + text::decimal(index)
}

/// The name of the constant that describes the method with the number `index`.
fn method_const_name_text(index: usize) -> (r: String)
    ensures
        r@ == method_const_name(index as nat),
{
    let mut out = "__METHOD_".to_string();
    out.append(decimal_text(index).as_str());
    out
}

/// The check, when the code is compiled, that the custom types of a parameter are declared.
pub open spec fn in_check(p: ParamInfoView, crate_path: Seq<char>) -> Seq<char> {
    crate_path
        + "::introspect::assert_type_declared(<"@
        + lifetimes::with_lifetime(p.ty, "'static"@)
        + " as "@
        + crate_path
        + "::introspect::Type>::TYPE, __DECLARED); "@
}

/// The check that the custom types of a parameter are declared.
fn in_check_text(p: &ParamInfo, crate_path: &str) -> (r: String)
    ensures
        r@ == in_check(p@, crate_path@),
{
    let mut out = crate_path.to_string();
    out.append("::introspect::assert_type_declared(<");
    out.append(put_lifetime(p.ty.as_str(), "'static").as_str());
    out.append(" as ");
    out.append(crate_path);
    out.append("::introspect::Type>::TYPE, __DECLARED); ");
    out
}

/// The checks that the custom types of the parameters of a method are declared.
pub open spec fn in_checks(m: MethodInfoView, crate_path: Seq<char>) -> Seq<Seq<char>> {
    method::wire_params(m.params).map_values(|p: ParamInfoView| in_check(p, crate_path))
}

/// The checks that the custom types of the parameters of a method are declared.
fn in_check_texts(m: &MethodInfo, crate_path: &str) -> (r: Vec<String>)
    ensures
        text::texts(r@) == in_checks(m@, crate_path@),
{
    let params = m.serialized_params();
    let ghost f = |p: ParamInfoView| in_check(p, crate_path@);
    let ghost all = method::refs_view(params@);
    let mut out: Vec<String> = Vec::new();
    let mut i: usize = 0;
    assert(text::texts(out@) =~= all.take(0).map_values(f));
    while i < params.len()
        invariant
            i <= params@.len(),
            all == method::refs_view(params@),
            f == (|p: ParamInfoView| in_check(p, crate_path@)),
            text::texts(out@) == all.take(i as int).map_values(f),
        decreases params@.len() - i,
    {
        let t = in_check_text(params[i], crate_path);
        proof {
            text::lemma_texts_push(out@, t);
            assert(all.take(i + 1).map_values(f) =~= all.take(i as int).map_values(f).push(
                f(params@[i as int]@),
            ));
        }
        out.push(t);
        i += 1;
    }
    assert(all.take(all.len() as int) =~= all);
    out
}

/// The constant that describes a method, with the checks that the custom types in its signature are
/// declared.
pub open spec fn method_const(m: MethodInfoView, index: nat, crate_path: Seq<char>) -> Seq<char> {
    "const "@
        + method_const_name(index)
        + ": &"@
        + crate_path
        + "::idl::Method<'static> = &{ const __IN_PARAMS: &[&"@
        + crate_path
        + "::idl::Parameter<'static>] = &["@
        + text::listed(in_params(m, crate_path))
        + "]; const __OUT_PARAMS: &[&"@
        + crate_path
        + "::idl::Parameter<'static>] = &[]; "@
        + text::concatenated(in_checks(m, crate_path))
        + crate_path
        + "::introspect::assert_params_declared(__OUT_PARAMS, __DECLARED); "@
        + crate_path
        + "::idl::Method::new("@
        + super::literal_of(m.varlink_name)
        + ", __IN_PARAMS, __OUT_PARAMS, &[], ) }; "@
}

/// The constant that describes a method.
fn method_const_text(m: &MethodInfo, index: usize, crate_path: &str) -> (r: String)
    ensures
        r@ == method_const(m@, index as nat, crate_path@),
{
    let mut out = "const ".to_string();
    out.append(method_const_name_text(index).as_str());
    out.append(": &");
    out.append(crate_path);
    out.append("::idl::Method<'static> = &{ const __IN_PARAMS: &[&");
    out.append(crate_path);
    out.append("::idl::Parameter<'static>] = &[");
    out.append(list(&in_param_texts(m, crate_path)).as_str());
    out.append("]; const __OUT_PARAMS: &[&");
    out.append(crate_path);
    out.append("::idl::Parameter<'static>] = &[]; ");
    out.append(concat(&in_check_texts(m, crate_path)).as_str());
    out.append(crate_path);
    out.append("::introspect::assert_params_declared(__OUT_PARAMS, __DECLARED); ");
    out.append(crate_path);
    out.append("::idl::Method::new(");
    out.append(string_literal(m.varlink_name.as_str()).as_str());
    out.append(", __IN_PARAMS, __OUT_PARAMS, &[], ) }; ");
    out
}

/// The methods of an interface.
pub open spec fn methods_of(ms: Seq<MethodInfoView>, interface: Seq<char>) -> Seq<MethodInfoView>
    decreases ms.len(),
{
    if ms.len() == 0 {
        seq![]
    } else if ms.last().interface == Some(interface) {
        methods_of(ms.drop_last(), interface).push(ms.last())
    } else {
        methods_of(ms.drop_last(), interface)
    }
}

/// The constants that describe methods.
pub open spec fn method_consts(ms: Seq<MethodInfoView>, crate_path: Seq<char>) -> Seq<Seq<char>> {
    Seq::new(ms.len(), |k: int| method_const(ms[k], k as nat, crate_path))
}

/// The names of the first `n` of those constants.
pub open spec fn method_refs(n: nat) -> Seq<Seq<char>> {
    Seq::new(n, |k: int| method_const_name(k as nat))
}

/// Whether a method belongs to an interface.
fn belongs_to(m: &MethodInfo, interface: &str) -> (r: bool)
    ensures
        r == (m@.interface == Some(interface@)),
{
    match &m.interface {
        Some(name) => str_eq(name.as_str(), interface),
        None => false,
    }
}

/// The constants that describe the methods of an interface, their names, and the types of errors
/// that those methods have.
fn interface_texts(methods_info: &[MethodInfo], interface: &str, crate_path: &str) -> (r: (
    Vec<String>,
    Vec<String>,
    Vec<String>,
))
    ensures
        ({
            let ms = methods_of(method::methods_view(methods_info@), interface@);
            &&& text::texts(r.0@) == method_consts(ms, crate_path@)
            &&& text::texts(r.1@) == method_refs(ms.len())
            &&& text::texts(r.2@) == super::distinct(ms, Part::ErrorType)
        }),
{
    let ghost ms = method::methods_view(methods_info@);
    let mut consts: Vec<String> = Vec::new();
    let mut refs: Vec<String> = Vec::new();
    let mut errors: Vec<String> = Vec::new();
    let mut i: usize = 0;
    proof {
        let none = methods_of(ms.take(0), interface@);
        assert(text::texts(consts@) =~= method_consts(none, crate_path@));
        assert(text::texts(refs@) =~= method_refs(none.len()));
        assert(text::texts(errors@) =~= super::distinct(none, Part::ErrorType));
    }
    while i < methods_info.len()
        invariant
            i <= methods_info@.len(),
            ms == method::methods_view(methods_info@),
            ({
                let some = methods_of(ms.take(i as int), interface@);
                &&& some.len() == consts@.len() <= i
                &&& text::texts(consts@) == method_consts(some, crate_path@)
                &&& text::texts(refs@) == method_refs(some.len())
                &&& text::texts(errors@) == super::distinct(some, Part::ErrorType)
            }),
        decreases methods_info@.len() - i,
    {
        let ghost some = methods_of(ms.take(i as int), interface@);
        let ghost m = methods_info@[i as int]@;
        proof {
            assert(ms.take(i + 1).drop_last() =~= ms.take(i as int));
            assert(ms.take(i + 1).last() == m);
        }
        if belongs_to(&methods_info[i], interface) {
            let index: usize = consts.len();
            let c = method_const_text(&methods_info[i], index, crate_path);
            let n = method_const_name_text(index);
            proof {
                text::lemma_texts_push(consts@, c);
                text::lemma_texts_push(refs@, n);
                assert(method_consts(some.push(m), crate_path@) =~= method_consts(
                    some,
                    crate_path@,
                ).push(c@));
                assert(method_refs(some.push(m).len()) =~= method_refs(some.len()).push(n@));
                assert(some.push(m).drop_last() =~= some);
            }
            consts.push(c);
            refs.push(n);
            if let Some(e) = super::part_text(&methods_info[i], Part::ErrorType) {
                if super::find_text(&errors, e.as_str()).is_none() {
                    proof {
                        text::lemma_texts_push(errors@, e);
                    }
                    errors.push(e);
                }
            }
        }
        i += 1;
    }
    assert(ms.take(ms.len() as int) =~= ms);
    (consts, refs, errors)
}

/// The description of a custom type.
pub open spec fn custom_type(ty: Seq<char>, crate_path: Seq<char>) -> Seq<char> {
    "<"@
        + ty
        + " as "@
        + crate_path
        + "::introspect::CustomType>::CUSTOM_TYPE"@
}

/// The description of a custom type.
fn custom_type_text(ty: &str, crate_path: &str) -> (r: String)
    ensures
        r@ == custom_type(ty@, crate_path@),
{
    let mut out = "<".to_string();
    out.append(ty);
    out.append(" as ");
    out.append(crate_path);
    out.append("::introspect::CustomType>::CUSTOM_TYPE");
    out
}

/// The descriptions of custom types.
pub open spec fn custom_types(types: Seq<Seq<char>>, crate_path: Seq<char>) -> Seq<Seq<char>> {
    types.map_values(|ty: Seq<char>| custom_type(ty, crate_path))
}

/// The descriptions of custom types.
fn custom_type_texts(types: &Vec<String>, crate_path: &str) -> (r: Vec<String>)
    ensures
        text::texts(r@) == custom_types(text::texts(types@), crate_path@),
{
    let ghost all = text::texts(types@);
    let mut out: Vec<String> = Vec::new();
    let mut i: usize = 0;
    assert(text::texts(out@) =~= custom_types(all.take(0), crate_path@));
    while i < types.len()
        invariant
            i <= types@.len(),
            all == text::texts(types@),
            text::texts(out@) == custom_types(all.take(i as int), crate_path@),
        decreases types@.len() - i,
    {
        let t = custom_type_text(types[i].as_str(), crate_path);
        proof {
            text::lemma_texts_push(out@, t);
            assert(custom_types(all.take(i + 1), crate_path@) =~= custom_types(
                all.take(i as int),
                crate_path@,
            ).push(t@));
        }
        out.push(t);
        i += 1;
    }
    assert(all.take(all.len() as int) =~= all);
    out
}

/// The name of a custom type.
pub open spec fn declared_name(ty: Seq<char>, crate_path: Seq<char>) -> Seq<char> {
    custom_type(ty, crate_path)
        + ".name()"@
}

/// The names of custom types.
pub open spec fn declared_names(types: Seq<Seq<char>>, crate_path: Seq<char>) -> Seq<Seq<char>> {
    types.map_values(|ty: Seq<char>| declared_name(ty, crate_path))
}

/// The names of custom types.
fn declared_name_texts(types: &Vec<String>, crate_path: &str) -> (r: Vec<String>)
    ensures
        text::texts(r@) == declared_names(text::texts(types@), crate_path@),
{
    let ghost all = text::texts(types@);
    let mut out: Vec<String> = Vec::new();
    let mut i: usize = 0;
    assert(text::texts(out@) =~= declared_names(all.take(0), crate_path@));
    while i < types.len()
        invariant
            i <= types@.len(),
            all == text::texts(types@),
            text::texts(out@) == declared_names(all.take(i as int), crate_path@),
        decreases types@.len() - i,
    {
        let mut t = custom_type_text(types[i].as_str(), crate_path);
        t.append(".name()");
        proof {
            text::lemma_texts_push(out@, t);
            assert(declared_names(all.take(i + 1), crate_path@) =~= declared_names(
                all.take(i as int),
                crate_path@,
            ).push(t@));
        }
        out.push(t);
        i += 1;
    }
    assert(all.take(all.len() as int) =~= all);
    out
}

/// The errors of an interface: those of the first type of errors that its methods have.
pub open spec fn errors(types: Seq<Seq<char>>, crate_path: Seq<char>) -> Seq<char> {
    if types.len() == 0 {
        "&[]"@
    } else {
        "<"@ + lifetimes::with_lifetime(types[0], "'static"@) + " as "@ + crate_path + "::introspect::ReplyError>::VARIANTS"@
    }
}

/// The errors of an interface.
fn errors_text(types: &Vec<String>, crate_path: &str) -> (r: String)
    ensures
        r@ == errors(text::texts(types@), crate_path@),
{
    assert(text::texts(types@).len() == types@.len());
    if types.len() == 0 {
        "&[]".to_string()
    } else {
        let mut out = "<".to_string();
        out.append(put_lifetime(types[0].as_str(), "'static").as_str());
        out.append(" as ");
        out.append(crate_path);
        out.append("::introspect::ReplyError>::VARIANTS");
        out
    }
}

/// The constant that describes an interface, `ms` being its methods.
pub open spec fn description(
    ms: Seq<MethodInfoView>,
    types: Seq<Seq<char>>,
    interface: Seq<char>,
    crate_path: Seq<char>,
    service: Seq<char>,
) -> Seq<char> {
    "#[doc(hidden)] const "@
        + const_name(service, interface)
        + ": &"@
        + crate_path
        + "::idl::Interface<'static> = &{ const __DECLARED: &[&str] = &["@
        + text::listed(declared_names(types, crate_path))
        + "]; "@
        + text::concatenated(method_consts(ms, crate_path))
        + crate_path
        + "::idl::Interface::new("@
        + super::literal_of(interface)
        + ", &["@
        + text::listed(method_refs(ms.len()))
        + "], &["@
        + text::listed(custom_types(types, crate_path))
        + "], "@
        + errors(super::distinct(ms, Part::ErrorType), crate_path)
        + ", &[], ) }; "@
}

/// The constant that describes an interface.
fn description_text(
    methods_info: &[MethodInfo],
    custom_types: &Vec<String>,
    interface: &str,
    crate_path: &str,
    service: &str,
) -> (r: String)
    ensures
        r@ == description(
            methods_of(method::methods_view(methods_info@), interface@),
            text::texts(custom_types@),
            interface@,
            crate_path@,
            service@,
        ),
{
    let (consts, refs, error_types) = interface_texts(methods_info, interface, crate_path);
    let types = custom_type_texts(custom_types, crate_path);
    let mut out = "#[doc(hidden)] const ".to_string();
    out.append(const_name_text(service, interface).as_str());
    out.append(": &");
    out.append(crate_path);
    out.append("::idl::Interface<'static> = &{ const __DECLARED: &[&str] = &[");
    out.append(list(&declared_name_texts(custom_types, crate_path)).as_str());
    out.append("]; ");
    out.append(concat(&consts).as_str());
    out.append(crate_path);
    out.append("::idl::Interface::new(");
    out.append(string_literal(interface).as_str());
    out.append(", &[");
    out.append(list(&refs).as_str());
    out.append("], &[");
    out.append(list(&types).as_str());
    out.append("], ");
    out.append(errors_text(&error_types, crate_path).as_str());
    out.append(", &[], ) }; ");
    out
}

/// The constants that describe interfaces.
pub open spec fn descriptions(
    ms: Seq<MethodInfoView>,
    types: Seq<Seq<char>>,
    interfaces: Seq<Seq<char>>,
    crate_path: Seq<char>,
    service: Seq<char>,
) -> Seq<Seq<char>> {
    interfaces.map_values(
        |i: Seq<char>| description(methods_of(ms, i), types, i, crate_path, service),
    )
}

/// The constants that describe the interfaces of a service.
pub fn generate_interface_descriptions(
    methods_info: &[MethodInfo],
    service_attrs: &ServiceAttrs,
    interfaces: &Vec<String>,
    crate_path: &str,
    service: &str,
) -> (r: String)
    ensures
        r@ == text::concatenated(
            descriptions(
                method::methods_view(methods_info@),
                service_attrs@.custom_types,
                text::texts(interfaces@),
                crate_path@,
                service@,
            ),
        ),
{
    let ghost ms = method::methods_view(methods_info@);
    let ghost types = service_attrs@.custom_types;
    let ghost all = text::texts(interfaces@);
    let mut out: Vec<String> = Vec::new();
    let mut i: usize = 0;
    assert(text::texts(out@) =~= descriptions(
        ms,
        types,
        all.take(0),
        crate_path@,
        service@,
    ));
    while i < interfaces.len()
        invariant
            i <= interfaces@.len(),
            ms == method::methods_view(methods_info@),
            types == service_attrs@.custom_types,
            all == text::texts(interfaces@),
            text::texts(out@) == descriptions(
                ms,
                types,
                all.take(i as int),
                crate_path@,
                service@,
            ),
        decreases interfaces@.len() - i,
    {
        let t = description_text(
            methods_info,
            &service_attrs.custom_types,
            interfaces[i].as_str(),
            crate_path,
            service,
        );
        proof {
            text::lemma_texts_push(out@, t);
            assert(descriptions(ms, types, all.take(i + 1), crate_path@, service@)
                =~= descriptions(ms, types, all.take(i as int), crate_path@, service@).push(t@));
        }
        out.push(t);
        i += 1;
    }
    assert(all.take(all.len() as int) =~= all);
    concat(&out)
}

/// Every method that belongs to an interface is described there, and no other is.
pub proof fn law_interfaces_describe_their_methods(
    ms: Seq<MethodInfoView>,
    interface: Seq<char>,
    m: MethodInfoView,
)
    ensures
        methods_of(ms, interface).contains(m) <==> ms.contains(m) && m.interface == Some(interface),
    decreases ms.len(),
{
    if ms.len() > 0 {
        let before = ms.drop_last();
        law_interfaces_describe_their_methods(before, interface, m);
        let all = methods_of(ms, interface);
        let some = methods_of(before, interface);
        if ms.contains(m) {
            let k = choose|k: int| 0 <= k < ms.len() && ms[k] == m;
            if k < before.len() {
                assert(before[k] == m);
            }
        }
        if before.contains(m) {
            let k = choose|k: int| 0 <= k < before.len() && before[k] == m;
            assert(ms[k] == m);
        }
        if some.contains(m) {
            let k = choose|k: int| 0 <= k < some.len() && some[k] == m;
            assert(all[k] == m);
        }
        if all.contains(m) {
            let k = choose|k: int| 0 <= k < all.len() && all[k] == m;
            if k < some.len() {
                assert(some[k] == m);
            }
        }
        if ms.last().interface == Some(interface) {
            assert(all[all.len() - 1] == ms.last());
        }
        assert(ms[ms.len() - 1] == ms.last());
    }
}

} // verus!
