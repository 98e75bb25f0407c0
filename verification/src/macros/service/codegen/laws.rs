//! What holds of the generated code.

use vstd::prelude::*;

use super::handle::{ContextView, Writing};
use super::{calls, descriptions, handle, replies, GenericParam, ItemImpl, Part, SocketGenericsView};
use crate::macros::service::attrs::ServiceAttrsView;
use crate::macros::service::method;
use crate::macros::service::method::MethodInfoView;
use crate::macros::service::types::{ParamInfoView, TypeView};
use crate::text;
use crate::varlink_service;

verus! {

/// What is written for parameters is written in their order, for those that it is written for and for
/// no others: the names of those that come over the wire, the bindings of the connection and of
/// everything else, and what every parameter is given.
pub proof fn law_parameters_are_written_in_order(ps: Seq<ParamInfoView>)
    ensures
        handle::written_all(ps, Writing::Name) == ps.filter(
            |p: ParamInfoView| !p.is_connection && !p.is_fds && !p.is_more,
        ).map_values(|p: ParamInfoView| p.name),
        handle::written_all(ps, Writing::ConnectionBinding) == ps.filter(
            |p: ParamInfoView| p.is_connection,
        ).map_values(|p: ParamInfoView| "let "@ + p.name + " = __zlink_conn; "@),
        handle::written_all(ps, Writing::ParamBinding) == ps.filter(
            |p: ParamInfoView| !p.is_connection,
        ).map_values(|p: ParamInfoView| "let "@ + p.name + " = "@ + given_to(p) + "; "@),
        handle::written_all(ps, Writing::Value) == Seq::new(ps.len(), |k: int| given_to(ps[k])),
    decreases ps.len(),
{
    reveal(Seq::filter);
    if ps.len() > 0 {
        law_parameters_are_written_in_order(ps.drop_last());
    }
    assert(handle::written_all(ps, Writing::Name) =~= ps.filter(
        |p: ParamInfoView| !p.is_connection && !p.is_fds && !p.is_more,
    ).map_values(|p: ParamInfoView| p.name));
    assert(handle::written_all(ps, Writing::ConnectionBinding) =~= ps.filter(
        |p: ParamInfoView| p.is_connection,
    ).map_values(|p: ParamInfoView| "let "@ + p.name + " = __zlink_conn; "@));
    assert(handle::written_all(ps, Writing::ParamBinding) =~= ps.filter(
        |p: ParamInfoView| !p.is_connection,
    ).map_values(|p: ParamInfoView| "let "@ + p.name + " = "@ + given_to(p) + "; "@));
    assert(handle::written_all(ps, Writing::Value) =~= Seq::new(
        ps.len(),
        |k: int| given_to(ps[k]),
    ));
}

/// What a parameter receives: the file descriptors of the call, whether its caller wants more, or its
/// own part of the call.
pub open spec fn given_to(p: ParamInfoView) -> Seq<char> {
    if p.is_fds {
        "::core::mem::take(&mut __zlink_fds)"@
    } else if p.is_more {
        "__zlink_call.more()"@
    } else {
        "::core::clone::Clone::clone("@ + p.name + ")"@
    }
}

/// A method that is not inlined is called with exactly one argument for each of its parameters, the
/// argument at each place being what the parameter at that place receives.
pub proof fn law_arguments_follow_the_parameters(m: MethodInfoView) -> (args: Seq<Seq<char>>)
    requires
        !m.is_streaming,
        forall|k: int| 0 <= k < m.params.len() ==> !(#[trigger] m.params[k]).is_connection,
    ensures
        handle::call(m) == "self."@ + m.name + "("@ + text::listed(args) + ").await"@,
        args.len() == m.params.len(),
        forall|k: int| 0 <= k < args.len() && m.params[k].is_fds ==> #[trigger] args[k]
            == "::core::mem::take(&mut __zlink_fds)"@,
        forall|k: int|
            0 <= k < args.len() && !m.params[k].is_fds && m.params[k].is_more ==> #[trigger] args[k]
                == "__zlink_call.more()"@,
        forall|k: int|
            0 <= k < args.len() && !m.params[k].is_fds && !m.params[k].is_more
                ==> #[trigger] args[k] == "::core::clone::Clone::clone("@ + m.params[k].name + ")"@,
{
    law_parameters_are_written_in_order(m.params);
    handle::written_all(m.params, Writing::Value)
}

/// In place of the call of a method that receives the connection or replies with a stream stands its
/// body, behind the bindings of its parameters: each parameter that receives the connection is bound
/// to it, every other to what it receives.
pub proof fn law_inlined_bodies_have_their_parameters(m: MethodInfoView, k: int)
    requires
        m.is_streaming || exists|j: int|
            0 <= j < m.params.len() && (#[trigger] m.params[j]).is_connection,
        0 <= k < m.params.len(),
    ensures
        text::closes(handle::call(m), "async move "@ + m.body + " }.await"@),
        m.params[k].is_connection ==> text::has_part(
            handle::call(m),
            "let "@ + m.params[k].name + " = __zlink_conn; "@,
        ),
        !m.params[k].is_connection ==> text::has_part(
            handle::call(m),
            "let "@ + m.params[k].name + " = "@ + given_to(m.params[k]) + "; "@,
        ),
{
    broadcast use text::group_parts;

    let p = m.params[k];
    law_parameters_are_written_in_order(m.params);
    let connections = handle::written_all(m.params, Writing::ConnectionBinding);
    let others = handle::written_all(m.params, Writing::ParamBinding);
    assert(handle::call(m) == "{ "@ + text::concatenated(connections) + text::concatenated(others)
        + "async move "@ + m.body + " }.await"@);
    if p.is_connection {
        let at = lemma_kept(m.params, |p: ParamInfoView| p.is_connection, k);
        let t = "let "@ + p.name + " = __zlink_conn; "@;
        assert(connections[at] == t);
        text::lemma_item_is_part(connections, at);
        assert(text::has_part(handle::call(m), t));
    } else {
        let at = lemma_kept(m.params, |p: ParamInfoView| !p.is_connection, k);
        let t = "let "@ + p.name + " = "@ + given_to(p) + "; "@;
        assert(others[at] == t);
        text::lemma_item_is_part(others, at);
        assert(text::has_part(handle::call(m), t));
    }
}

/// An item that passes a filter is at some place behind it.
proof fn lemma_kept<A>(s: Seq<A>, keeps: spec_fn(A) -> bool, k: int) -> (at: int)
    requires
        0 <= k < s.len(),
        keeps(s[k]),
    ensures
        0 <= at < s.filter(keeps).len(),
        s.filter(keeps)[at] == s[k],
    decreases s.len(),
{
    reveal(Seq::filter);
    if k == s.len() - 1 {
        s.filter(keeps).len() - 1
    } else {
        lemma_kept(s.drop_last(), keeps, k)
    }
}

/// The answer to a call of `GetInfo` is made by [`varlink_service::Info::new`], which reads its
/// arguments by their places: at those of the vendor, the product, the version and the URL stand the
/// attributes of these names, or the empty text for one that the service does not give.
pub proof fn law_info_has_the_attributes(a: ServiceAttrsView, c: ContextView) -> (args: Seq<Seq<char>>)
    ensures
        args.len() == 4,
        text::has_part(
            handle::varlink_service_match(a, c),
            c.crate_path + "::varlink_service::Method::GetInfo => { let info = "@ + c.crate_path
                + "::varlink_service::Info::new("@ + super::literal_of(args[0]) + ", "@
                + super::literal_of(args[1]) + ", "@ + super::literal_of(args[2]) + ", "@
                + super::literal_of(args[3]) + ", ::std::vec!["@,
        ),
        forall|interfaces: Seq<Seq<char>>|
            {
                let info = #[trigger] varlink_service::info_of(args, interfaces);
                &&& info.vendor == match a.vendor {
                    Some(vendor) => vendor,
                    None => ""@,
                }
                &&& info.product == match a.product {
                    Some(product) => product,
                    None => ""@,
                }
                &&& info.version == match a.version {
                    Some(version) => version,
                    None => ""@,
                }
                &&& info.url == match a.url {
                    Some(url) => url,
                    None => ""@,
                }
            },
{
    broadcast use text::group_parts;

    seq![
        handle::or_empty(a.vendor),
        handle::or_empty(a.product),
        handle::or_empty(a.version),
        handle::or_empty(a.url),
    ]
}

/// The interfaces that `GetInfo` answers with are those of the service, in their order, and then the
/// interface that all services have.
pub proof fn law_info_has_the_interfaces(a: ServiceAttrsView, c: ContextView)
    ensures
        text::has_part(
            handle::varlink_service_match(a, c),
            ", ::std::vec!["@ + text::terminated(
                Seq::new(c.interfaces.len(), |k: int| super::literal_of(c.interfaces[k])),
            ) + c.crate_path + "::varlink_service::INTERFACE_NAME, ], ); "@ + c.crate_path
                + "::service::MethodReply::Single(Some("@ + c.reply_params + "::__"@
                + c.reply_params + "VarlinkService("@ + c.crate_path
                + "::varlink_service::Reply::Info(info)))) } "@,
        ),
{
    broadcast use text::group_parts;

    assert(handle::interface_names(c) =~= Seq::new(
        c.interfaces.len(),
        |k: int| super::literal_of(c.interfaces[k]),
    ));
}

/// A call of `GetInterfaceDescription` that names an interface of the service is answered with the
/// constant that describes that interface.
pub proof fn law_interfaces_are_described(a: ServiceAttrsView, c: ContextView, k: int)
    requires
        0 <= k < c.interfaces.len(),
    ensures
        text::has_part(
            handle::varlink_service_match(a, c),
            super::literal_of(c.interfaces[k]) + " => { let desc = "@ + c.crate_path
                + "::varlink_service::InterfaceDescription::from("@ + descriptions::const_name(
                c.service,
                c.interfaces[k],
            ) + "); "@ + c.crate_path + "::service::MethodReply::Single(Some("@ + c.reply_params
                + "::__"@ + c.reply_params + "VarlinkService("@ + c.crate_path
                + "::varlink_service::Reply::InterfaceDescription(desc)))) } "@,
        ),
{
    broadcast use text::group_parts;

    text::lemma_item_is_part(handle::interface_arms(c), k);
    assert(handle::interface_arms(c)[k] == handle::interface_arm(c.interfaces[k], c));
}

/// A call of `GetInterfaceDescription` that names the interface that all services have is answered
/// with its description, one that names an unknown interface with an error, and so is a call of a
/// method that the service does not have.
pub proof fn law_the_unknown_is_refused(ms: Seq<MethodInfoView>, a: ServiceAttrsView, c: ContextView)
    ensures
        text::has_part(
            handle::handle_body(ms, a, c),
            c.crate_path + "::varlink_service::INTERFACE_NAME => { let desc = "@ + c.crate_path
                + "::varlink_service::InterfaceDescription::from("@ + c.crate_path
                + "::varlink_service::DESCRIPTION); "@,
        ),
        text::has_part(
            handle::handle_body(ms, a, c),
            "::varlink_service::Reply::InterfaceDescription(desc)))) } _ => { "@ + c.crate_path
                + "::service::MethodReply::Error("@ + c.reply_error + "::__"@ + c.reply_error
                + "VarlinkService("@ + c.crate_path
                + "::varlink_service::Error::InterfaceNotFound { interface: ::std::borrow::Cow::Borrowed(interface), })) } } } } } "@,
        ),
        text::has_part(
            handle::handle_body(ms, a, c),
            c.user_methods + "::__"@ + c.user_methods + "Unknown => { "@ + c.crate_path
                + "::service::MethodReply::Error("@ + c.reply_error + "::__"@ + c.reply_error
                + "VarlinkService("@ + c.crate_path
                + "::varlink_service::Error::MethodNotFound { method: ::std::borrow::Cow::Borrowed(\"unknown\"), })) } } } "@,
        ),
{
    broadcast use text::group_parts;

    lemma_body_has_both(ms, a, c);
    let known = c.crate_path + "::varlink_service::INTERFACE_NAME => { let desc = "@ + c.crate_path
        + "::varlink_service::InterfaceDescription::from("@ + c.crate_path
        + "::varlink_service::DESCRIPTION); "@;
    assert(text::has_part(handle::varlink_service_match(a, c), known));
    text::lemma_part_of_part(
        handle::handle_body(ms, a, c),
        handle::varlink_service_match(a, c),
        known,
    );
    let unknown = "::varlink_service::Reply::InterfaceDescription(desc)))) } _ => { "@ + c.crate_path
        + "::service::MethodReply::Error("@ + c.reply_error + "::__"@ + c.reply_error
        + "VarlinkService("@ + c.crate_path
        + "::varlink_service::Error::InterfaceNotFound { interface: ::std::borrow::Cow::Borrowed(interface), })) } } } } } "@;
    assert(text::has_part(handle::varlink_service_match(a, c), unknown));
    text::lemma_part_of_part(
        handle::handle_body(ms, a, c),
        handle::varlink_service_match(a, c),
        unknown,
    );
    let missing = c.user_methods + "::__"@ + c.user_methods + "Unknown => { "@ + c.crate_path
        + "::service::MethodReply::Error("@ + c.reply_error + "::__"@ + c.reply_error
        + "VarlinkService("@ + c.crate_path
        + "::varlink_service::Error::MethodNotFound { method: ::std::borrow::Cow::Borrowed(\"unknown\"), })) } } } "@;
    assert(text::has_part(handle::user_methods_match(ms, c), missing));
    text::lemma_part_of_part(
        handle::handle_body(ms, a, c),
        handle::user_methods_match(ms, c),
        missing,
    );
}

/// What answers calls holds what answers those of the Varlink service and those of the service's own
/// methods.
proof fn lemma_body_has_both(ms: Seq<MethodInfoView>, a: ServiceAttrsView, c: ContextView)
    ensures
        text::has_part(handle::handle_body(ms, a, c), handle::varlink_service_match(a, c)),
        text::has_part(handle::handle_body(ms, a, c), handle::user_methods_match(ms, c)),
{
    broadcast use text::group_parts;

    text::lemma_part_of_itself(handle::varlink_service_match(a, c));
    text::lemma_part_of_itself(handle::user_methods_match(ms, c));
    assert(text::has_part(handle::reply_body(ms, a, c), handle::varlink_service_match(a, c)));
    assert(text::has_part(handle::reply_body(ms, a, c), handle::user_methods_match(ms, c)));
    text::lemma_part_of_itself(handle::reply_body(ms, a, c));
    assert(text::has_part(handle::handle_body(ms, a, c), handle::reply_body(ms, a, c)));
    text::lemma_part_of_part(
        handle::handle_body(ms, a, c),
        handle::reply_body(ms, a, c),
        handle::varlink_service_match(a, c),
    );
    text::lemma_part_of_part(
        handle::handle_body(ms, a, c),
        handle::reply_body(ms, a, c),
        handle::user_methods_match(ms, c),
    );
}

/// Every method that belongs to an interface is answered, under its name on the wire, with what came
/// in for its parameters bound to their names; and no other method is.
pub proof fn law_methods_are_answered_by_name(
    ms: Seq<MethodInfoView>,
    a: ServiceAttrsView,
    c: ContextView,
    k: int,
)
    requires
        0 <= k < ms.len(),
        ms[k].interface is Some,
    ensures
        text::has_part(
            handle::handle_body(ms, a, c),
            matched(ms[k], c.user_methods) + " => { "@ + handle::return_expr(
                ms[k],
                super::distinct(ms, Part::ReturnType),
                c,
            ) + " } "@,
        ),
{
    let types = super::distinct(ms, Part::ReturnType);
    let m = ms[k];
    law_parameters_are_written_in_order(m.params);
    lemma_arms(ms, types, c);
    let at = lemma_kept(ms, |m: MethodInfoView| m.interface is Some, k);
    let all = handle::arms(ms, types, c);
    assert(all[at] == handle::arm(m, types, c));
    text::lemma_item_is_part(all, at);
    assert(text::has_part(handle::user_methods_match(ms, c), all[at])) by {
        broadcast use text::group_parts;

    }
    lemma_body_has_both(ms, a, c);
    text::lemma_part_of_part(
        handle::handle_body(ms, a, c),
        handle::user_methods_match(ms, c),
        all[at],
    );
}

/// What a call of a method looks like: the name of the method on the wire and, where some parameters
/// come over the wire, their names.
pub open spec fn matched(m: MethodInfoView, user_methods: Seq<char>) -> Seq<char> {
    let names = m.params.filter(
        |p: ParamInfoView| !p.is_connection && !p.is_fds && !p.is_more,
    ).map_values(|p: ParamInfoView| p.name);
    if names.len() == 0 {
        user_methods + "::"@ + m.varlink_name
    } else {
        user_methods + "::"@ + m.varlink_name + " { "@ + text::listed(names) + " }"@
    }
}

proof fn lemma_arms(ms: Seq<MethodInfoView>, types: Seq<Seq<char>>, c: ContextView)
    ensures
        handle::arms(ms, types, c) == ms.filter(
            |m: MethodInfoView| m.interface is Some,
        ).map_values(|m: MethodInfoView| handle::arm(m, types, c)),
    decreases ms.len(),
{
    reveal(Seq::filter);
    if ms.len() > 0 {
        lemma_arms(ms.drop_last(), types, c);
    }
    assert(handle::arms(ms, types, c) =~= ms.filter(
        |m: MethodInfoView| m.interface is Some,
    ).map_values(|m: MethodInfoView| handle::arm(m, types, c)));
}

/// The file descriptors that a method returns are put aside, to be sent with the reply; where it
/// returns none, what it gives is the reply alone.
pub proof fn law_returned_descriptors_go_out(m: MethodInfoView)
    ensures
        m.return_fds ==> handle::given(m) == "{ let (__value, __returned) = "@ + handle::call(m)
            + "; __zlink_out = __returned; __value }"@,
        !m.return_fds ==> handle::given(m) == handle::call(m),
{
}

/// A reply is sent as a variant that holds its type, and the type of replies has that variant.
pub proof fn law_replies_are_sent_as_their_types(
    ms: Seq<MethodInfoView>,
    a: ServiceAttrsView,
    s: Seq<char>,
    k: int,
) -> (n: nat)
    requires
        0 <= k < ms.len(),
        !ms[k].is_streaming,
        ms[k].return_type is Some,
    ensures
        ({
            let m = ms[k];
            let t = super::lifetimes::with_lifetime(m.return_type->0, "'__ser"@);
            let variant = "__"@ + ("__"@ + s + "MethodCall"@) + "Variant"@ + text::decimal(n);
            let sent = "__"@ + s + "ReplyParams"@ + "::"@ + variant;
            let expr = handle::return_expr(
                m,
                super::distinct(ms, Part::ReturnType),
                super::context(ms, a, s),
            );
            &&& text::has_part(
                replies::reply_params_enum(
                    ms,
                    super::method_call_name(s),
                    super::reply_params_name(s),
                    a.crate_path,
                ),
                variant + "("@ + t + ")"@,
            )
            &&& m.returns_result ==> text::has_part(
                expr,
                "match "@ + handle::given(m) + " { ::core::result::Result::Ok(__ok) => { "@
                    + a.crate_path + "::service::MethodReply::Single(Some("@ + sent
                    + "(__ok))) } ::core::result::Result::Err(__err) => { "@ + a.crate_path
                    + "::service::MethodReply::Error("@,
            )
            &&& !m.returns_result ==> expr == "let __result = "@ + handle::given(m) + "; "@
                + a.crate_path + "::service::MethodReply::Single(Some("@ + sent
                + "(__result)))"@
        }),
{
    let m = ms[k];
    let types = super::distinct(ms, Part::ReturnType);
    let t = super::lifetimes::with_lifetime(m.return_type->0, "'__ser"@);
    super::law_every_type_has_its_variant(ms, Part::ReturnType, k, t);
    let n = super::variant_index(types, t);
    let all = replies::variants(super::method_call_name(s), types);
    text::lemma_item_is_part(all, n as int);
    text::lemma_part_of_itself(all[n as int]);
    broadcast use text::group_parts;

    assert(text::has_part(all[n as int] + ", "@, all[n as int]));
    text::lemma_part_of_part(text::terminated(all), all[n as int] + ", "@, all[n as int]);
    let variant = "__"@ + ("__"@ + s + "MethodCall"@) + "Variant"@ + text::decimal(n);
    assert(all[n as int] == variant + "("@ + t + ")"@);
    assert(text::has_part(
        replies::reply_params_enum(
            ms,
            super::method_call_name(s),
            super::reply_params_name(s),
            a.crate_path,
        ),
        all[n as int],
    ));
    text::lemma_part_of_itself(
        "match "@ + handle::given(m) + " { ::core::result::Result::Ok(__ok) => { "@ + a.crate_path
            + "::service::MethodReply::Single(Some("@ + ("__"@ + s + "ReplyParams"@ + "::"@
            + variant) + "(__ok))) } ::core::result::Result::Err(__err) => { "@ + a.crate_path
            + "::service::MethodReply::Error("@,
    );
    n
}

/// A method that gives nothing is answered without parameters.
pub proof fn law_nothing_is_sent_without_parameters(
    m: MethodInfoView,
    types: Seq<Seq<char>>,
    c: ContextView,
)
    requires
        m.return_type is None,
    ensures
        m.returns_result ==> text::has_part(
            handle::return_expr(m, types, c),
            "match "@ + handle::given(m) + " { ::core::result::Result::Ok(()) => { "@ + c.crate_path
                + "::service::MethodReply::Single(None) } ::core::result::Result::Err(__err) => { "@
                + c.crate_path + "::service::MethodReply::Error("@,
        ),
        !m.returns_result ==> handle::return_expr(m, types, c) == "let _ = "@ + handle::given(m)
            + "; "@ + c.crate_path + "::service::MethodReply::Single(None)"@,
{
    broadcast use text::group_parts;

    text::lemma_part_of_itself(
        "match "@ + handle::given(m) + " { ::core::result::Result::Ok(()) => { "@ + c.crate_path
            + "::service::MethodReply::Single(None) } ::core::result::Result::Err(__err) => { "@
            + c.crate_path + "::service::MethodReply::Error("@,
    );
}

/// An error is sent as a variant that holds its type, and the type of errors has that variant and is
/// made of such an error by it.
pub proof fn law_errors_are_sent_as_their_types(
    ms: Seq<MethodInfoView>,
    a: ServiceAttrsView,
    s: Seq<char>,
    k: int,
) -> (n: nat)
    requires
        0 <= k < ms.len(),
        ms[k].error_type is Some,
    ensures
        ({
            let m = ms[k];
            let t = super::lifetimes::with_lifetime(m.error_type->0, "'__ser"@);
            let name = "__"@ + s + "ReplyError"@;
            let variant = "__"@ + name + "Variant"@ + text::decimal(n);
            let declared = replies::reply_error_enum(ms, super::reply_error_name(s), a.crate_path);
            &&& text::has_part(declared, variant + "("@ + t + ")"@)
            &&& text::has_part(
                declared,
                "impl<'__ser> ::core::convert::From<"@ + t + "> for "@ + name
                    + "<'__ser> { fn from(e: "@ + t + ") -> Self { "@ + name + "::"@ + variant
                    + "(e) } } "@,
            )
            &&& m.returns_result && !(m.is_streaming && m.return_type is Some) ==> text::has_part(
                handle::return_expr(
                    m,
                    super::distinct(ms, Part::ReturnType),
                    super::context(ms, a, s),
                ),
                a.crate_path + "::service::MethodReply::Error("@ + (name + "::"@ + variant
                    + "(__err)"@) + ") } }"@,
            )
        }),
{
    let m = ms[k];
    let types = super::distinct(ms, Part::ErrorType);
    let t = super::lifetimes::with_lifetime(m.error_type->0, "'__ser"@);
    let name = "__"@ + s + "ReplyError"@;
    super::law_every_type_has_its_variant(ms, Part::ErrorType, k, t);
    let n = super::variant_index(types, t);
    let all = replies::variants(name, types);
    let impls = replies::from_impls(name, types);
    text::lemma_item_is_part(all, n as int);
    text::lemma_item_is_part(impls, n as int);
    text::lemma_part_of_itself(all[n as int]);
    broadcast use text::group_parts;

    assert(text::has_part(all[n as int] + ", "@, all[n as int]));
    text::lemma_part_of_part(text::terminated(all), all[n as int] + ", "@, all[n as int]);
    let variant = "__"@ + name + "Variant"@ + text::decimal(n);
    assert(all[n as int] == variant + "("@ + t + ")"@);
    let declared = replies::reply_error_enum(ms, super::reply_error_name(s), a.crate_path);
    assert(text::has_part(declared, all[n as int]));
    assert(text::has_part(declared, impls[n as int]));
    n
}

/// The items of a stream are sent as a variant that holds their type, and the type of items has that
/// variant; each goes on where the item says so, with the file descriptors that stand beside it.
pub proof fn law_items_are_sent_as_their_types(
    ms: Seq<MethodInfoView>,
    a: ServiceAttrsView,
    s: Seq<char>,
    k: int,
) -> (n: nat)
    requires
        0 <= k < ms.len(),
        ms[k].is_streaming,
        ms[k].return_type is Some,
    ensures
        ({
            let m = ms[k];
            let t = super::lifetimes::with_lifetime(m.return_type->0, "'static"@);
            let name = "__"@ + s + "ReplyStreamParams"@;
            let variant = "__"@ + name + "Variant"@ + text::decimal(n);
            let expr = handle::return_expr(
                m,
                super::distinct(ms, Part::ReturnType),
                super::context(ms, a, s),
            );
            let head = a.crate_path
                + "::service::MethodReply::Multi(::std::boxed::Box::pin(::futures_util::StreamExt::map("@
                + handle::call(m);
            &&& text::has_part(
                replies::stream_params_enum(ms, super::stream_params_name(s)),
                variant + "("@ + t + ")"@,
            )
            &&& m.return_fds ==> expr == head
                + ", |(__reply, __returned)| { let __continues = __reply.continues(); ("@
                + a.crate_path + "::Reply::new(__reply.into_parameters().map("@ + name + "::"@
                + variant + ")).set_continues(__continues), __returned) })))"@
            &&& !m.return_fds ==> expr == head
                + ", |__reply| { let __continues = __reply.continues(); ("@ + a.crate_path
                + "::Reply::new(__reply.into_parameters().map("@ + name + "::"@ + variant
                + ")).set_continues(__continues), ::std::vec::Vec::new()) })))"@
        }),
{
    let m = ms[k];
    let types = super::distinct(ms, Part::StreamType);
    let t = super::lifetimes::with_lifetime(m.return_type->0, "'static"@);
    let name = "__"@ + s + "ReplyStreamParams"@;
    super::law_every_type_has_its_variant(ms, Part::StreamType, k, t);
    let n = super::variant_index(types, t);
    let all = replies::variants(name, types);
    text::lemma_item_is_part(all, n as int);
    text::lemma_part_of_itself(all[n as int]);
    broadcast use text::group_parts;

    assert(text::has_part(all[n as int] + ", "@, all[n as int]));
    text::lemma_part_of_part(text::terminated(all), all[n as int] + ", "@, all[n as int]);
    let variant = "__"@ + name + "Variant"@ + text::decimal(n);
    assert(all[n as int] == variant + "("@ + t + ")"@);
    assert(text::has_part(
        replies::stream_params_enum(ms, super::stream_params_name(s)),
        all[n as int],
    ));
    n
}

/// The parameters that come over the wire, in their order.
pub proof fn law_wire_parameters_keep_their_order(ps: Seq<ParamInfoView>)
    ensures
        method::wire_params(ps) == ps.filter(
            |p: ParamInfoView| !p.is_connection && !p.is_fds && !p.is_more,
        ),
    decreases ps.len(),
{
    reveal(Seq::filter);
    if ps.len() > 0 {
        law_wire_parameters_keep_their_order(ps.drop_last());
    }
}

/// What a parameter is read from: the part of the call that has its name on the wire, as its type.
pub open spec fn read_from(p: ParamInfoView) -> Seq<char> {
    let plain = p.name + ": "@ + super::lifetimes::with_lifetime(p.ty, "'__de"@);
    match p.serialized_name {
        Some(name) => "#[serde(rename = "@ + super::literal_of(name) + ")] "@ + plain,
        None => plain,
    }
}

/// The calls of a method are those of its name on the wire within its interface, with the parameters
/// that come over the wire, in their order.
pub proof fn law_calls_are_read_by_path(
    ms: Seq<MethodInfoView>,
    user_methods: Seq<char>,
    enum_name: Seq<char>,
    crate_path: Seq<char>,
    k: int,
)
    requires
        0 <= k < ms.len(),
        ms[k].interface is Some,
    ensures
        ({
            let m = ms[k];
            let head = "#[serde(rename = "@ + super::literal_of(
                m.interface->0 + "."@ + m.varlink_name,
            ) + ")] "@ + m.varlink_name;
            let fields = m.params.filter(
                |p: ParamInfoView| !p.is_connection && !p.is_fds && !p.is_more,
            ).map_values(|p: ParamInfoView| read_from(p));
            let declared = calls::method_call_enum(ms, enum_name, user_methods, crate_path);
            &&& fields.len() == 0 ==> text::has_part(declared, head + ", "@)
            &&& fields.len() > 0 ==> text::has_part(
                declared,
                head + " { "@ + text::listed(fields) + " }"@ + ", "@,
            )
            &&& text::has_part(
                declared,
                "#[serde(other)] __"@ + user_methods + "Unknown, } "@,
            )
        }),
{
    let m = ms[k];
    law_wire_parameters_keep_their_order(m.params);
    lemma_variants(ms);
    let at = lemma_kept(ms, |m: MethodInfoView| m.interface is Some, k);
    let all = calls::variants(ms);
    assert(all[at] == calls::variant(m, m.interface->0 + "."@ + m.varlink_name));
    text::lemma_item_is_part(all, at);
    assert(calls::fields(m) =~= m.params.filter(
        |p: ParamInfoView| !p.is_connection && !p.is_fds && !p.is_more,
    ).map_values(|p: ParamInfoView| read_from(p)));
    assert(text::has_part(calls::user_methods_enum(ms, user_methods), all[at] + ", "@)) by {
        broadcast use text::group_parts;

    }
    assert(text::has_part(
        calls::user_methods_enum(ms, user_methods),
        "#[serde(other)] __"@ + user_methods + "Unknown, } "@,
    )) by {
        broadcast use text::group_parts;

    }
    broadcast use text::group_parts;

}

proof fn lemma_variants(ms: Seq<MethodInfoView>)
    ensures
        calls::variants(ms) == ms.filter(|m: MethodInfoView| m.interface is Some).map_values(
            |m: MethodInfoView| calls::variant(m, m.interface->0 + "."@ + m.varlink_name),
        ),
    decreases ms.len(),
{
    reveal(Seq::filter);
    if ms.len() > 0 {
        lemma_variants(ms.drop_last());
    }
    assert(calls::variants(ms) =~= ms.filter(
        |m: MethodInfoView| m.interface is Some,
    ).map_values(|m: MethodInfoView| calls::variant(m, m.interface->0 + "."@ + m.varlink_name)));
}

/// All calls are those of the Varlink service or, failing that, those of the service's own methods.
pub proof fn law_calls_are_of_either_kind(
    ms: Seq<MethodInfoView>,
    user_methods: Seq<char>,
    enum_name: Seq<char>,
    crate_path: Seq<char>,
)
    ensures
        text::closes(
            calls::method_call_enum(ms, enum_name, user_methods, crate_path),
            "#[allow(private_interfaces)] #[derive(::core::fmt::Debug, ::serde::Deserialize)] "@
                + "#[serde(untagged)] pub enum "@ + enum_name
                + "<'__de> { #[serde(borrow)] __VarlinkService("@ + crate_path
                + "::varlink_service::Method<'__de>), __UserMethods("@ + user_methods
                + "<'__de>), } "@,
        ),
        text::has_part(
            calls::method_call_enum(ms, enum_name, user_methods, crate_path),
            "#[serde(tag = \"method\", content = \"parameters\")] pub enum "@ + user_methods
                + "<'__de> { __"@ + user_methods
                + "Unused(::core::marker::PhantomData<&'__de ()>), "@,
        ),
{
    broadcast use text::group_parts;

    let start = "#[serde(tag = \"method\", content = \"parameters\")] pub enum "@ + user_methods
        + "<'__de> { __"@ + user_methods + "Unused(::core::marker::PhantomData<&'__de ()>), "@;
    assert(text::has_part(calls::user_methods_start(user_methods), start));
    assert(text::has_part(calls::user_methods_enum(ms, user_methods), start));
}

/// The replies and the errors of the Varlink service can be sent too.
pub proof fn law_replies_of_the_varlink_service_are_sent(
    ms: Seq<MethodInfoView>,
    method_call: Seq<char>,
    name: Seq<char>,
    crate_path: Seq<char>,
)
    ensures
        text::has_part(
            replies::reply_params_enum(ms, method_call, name, crate_path),
            "#[serde(untagged)] pub enum "@ + name + "<'__ser> { __"@ + name + "VarlinkService("@
                + crate_path + "::varlink_service::Reply<'__ser>), "@,
        ),
        text::has_part(
            replies::reply_error_enum(ms, name, crate_path),
            "#[serde(untagged)] pub enum "@ + name + "<'__ser> { __"@ + name + "VarlinkService("@
                + crate_path + "::varlink_service::Error<'__ser>), "@,
        ),
        text::has_part(
            replies::reply_error_enum(ms, name, crate_path),
            "} impl<'__ser> ::core::convert::From<"@ + crate_path
                + "::varlink_service::Error<'__ser>> for "@ + name + "<'__ser> { fn from(e: "@
                + crate_path + "::varlink_service::Error<'__ser>) -> Self { "@ + name + "::__"@
                + name + "VarlinkService(e) } } "@,
        ),
{
    broadcast use text::group_parts;

}

/// What a description says of a parameter: its name on the wire, without leading underscores where
/// that is its own name, and its type.
pub open spec fn described(p: ParamInfoView, crate_path: Seq<char>, name: Seq<char>) -> Seq<char> {
    "&"@ + crate_path + "::idl::Parameter::new("@ + super::literal_of(name) + ", <"@
        + super::lifetimes::with_lifetime(p.ty, "'static"@) + " as "@ + crate_path
        + "::introspect::Type>::TYPE, &[], )"@
}

/// Whether a name is what is left of another when its leading underscores are taken away.
pub open spec fn is_without_underscores(name: Seq<char>, of: Seq<char>) -> bool {
    &&& name.len() <= of.len()
    &&& name == of.skip(of.len() - name.len())
    &&& forall|k: int| 0 <= k < of.len() - name.len() ==> of[k] == '_'
    &&& name.len() > 0 ==> name[0] != '_'
}

proof fn lemma_without_underscores(of: Seq<char>)
    ensures
        is_without_underscores(descriptions::without_underscores(of), of),
    decreases of.len(),
{
    if of.len() > 0 && of[0] == '_' {
        let rest = of.drop_first();
        lemma_without_underscores(rest);
        let name = descriptions::without_underscores(rest);
        assert(of.skip(of.len() - name.len()) =~= rest.skip(rest.len() - name.len()));
        assert forall|k: int| 0 <= k < of.len() - name.len() implies of[k] == '_' by {
            if k > 0 {
                assert(of[k] == rest[k - 1]);
            }
        }
    } else {
        assert(of.skip(0) =~= of);
    }
}

/// The description of a method has its parameters that come over the wire, in their order, each
/// described by its name and its type, and a check that this type is declared.
pub proof fn law_methods_are_described(m: MethodInfoView, index: nat, crate_path: Seq<char>) -> (r: (
    Seq<ParamInfoView>,
    Seq<Seq<char>>,
))
    ensures
        r.0 == m.params.filter(|p: ParamInfoView| !p.is_connection && !p.is_fds && !p.is_more),
        r.1.len() == r.0.len(),
        forall|k: int|
            #![trigger r.1[k]]
            0 <= k < r.0.len() ==> match r.0[k].serialized_name {
                Some(name) => r.1[k] == name,
                None => is_without_underscores(r.1[k], r.0[k].name),
            },
        text::has_part(
            descriptions::method_const(m, index, crate_path),
            "const "@ + ("__METHOD_"@ + text::decimal(index)) + ": &"@ + crate_path
                + "::idl::Method<'static> = &{ const __IN_PARAMS: &[&"@ + crate_path
                + "::idl::Parameter<'static>] = &["@ + text::listed(
                Seq::new(r.0.len(), |k: int| described(r.0[k], crate_path, r.1[k])),
            ) + "]; const __OUT_PARAMS: &[&"@ + crate_path
                + "::idl::Parameter<'static>] = &[]; "@,
        ),
        text::closes(
            descriptions::method_const(m, index, crate_path),
            text::concatenated(
                Seq::new(
                    r.0.len(),
                    |k: int|
                        crate_path + "::introspect::assert_type_declared(<"@
                            + super::lifetimes::with_lifetime(r.0[k].ty, "'static"@) + " as "@
                            + crate_path + "::introspect::Type>::TYPE, __DECLARED); "@,
                ),
            ) + crate_path + "::introspect::assert_params_declared(__OUT_PARAMS, __DECLARED); "@
                + crate_path + "::idl::Method::new("@ + super::literal_of(m.varlink_name)
                + ", __IN_PARAMS, __OUT_PARAMS, &[], ) }; "@,
        ),
{
    law_wire_parameters_keep_their_order(m.params);
    let ps = method::wire_params(m.params);
    let names = Seq::new(ps.len(), |k: int| descriptions::described_name(ps[k]));
    assert forall|k: int| #![trigger names[k]] 0 <= k < ps.len() implies match ps[k].serialized_name {
        Some(name) => names[k] == name,
        None => is_without_underscores(names[k], ps[k].name),
    } by {
        lemma_without_underscores(ps[k].name);
    }
    let ins = Seq::new(ps.len(), |k: int| described(ps[k], crate_path, names[k]));
    assert(descriptions::in_params(m, crate_path) =~= ins);
    let checks = Seq::new(
        ps.len(),
        |k: int|
            crate_path + "::introspect::assert_type_declared(<"@ + super::lifetimes::with_lifetime(
                ps[k].ty,
                "'static"@,
            ) + " as "@ + crate_path + "::introspect::Type>::TYPE, __DECLARED); "@,
    );
    assert(descriptions::in_checks(m, crate_path) =~= checks);
    let front = "const "@ + ("__METHOD_"@ + text::decimal(index)) + ": &"@ + crate_path
        + "::idl::Method<'static> = &{ const __IN_PARAMS: &[&"@ + crate_path
        + "::idl::Parameter<'static>] = &["@ + text::listed(ins)
        + "]; const __OUT_PARAMS: &[&"@ + crate_path + "::idl::Parameter<'static>] = &[]; "@;
    text::lemma_part_of_itself(front);
    broadcast use text::group_parts;

    assert(text::has_part(descriptions::method_const(m, index, crate_path), front));
    (ps, names)
}

/// The description of an interface has the methods of that interface and no others, in their order,
/// and every custom type that the service declares; and it is found under the constant of the
/// interface.
pub proof fn law_interfaces_have_their_members(
    ms: Seq<MethodInfoView>,
    types: Seq<Seq<char>>,
    interfaces: Seq<Seq<char>>,
    crate_path: Seq<char>,
    service: Seq<char>,
    i: int,
)
    requires
        0 <= i < interfaces.len(),
    ensures
        ({
            let own = ms.filter(|m: MethodInfoView| m.interface == Some(interfaces[i]));
            let customs = Seq::new(
                types.len(),
                |k: int|
                    "<"@ + types[k] + " as "@ + crate_path
                        + "::introspect::CustomType>::CUSTOM_TYPE"@,
            );
            let all = descriptions::descriptions(ms, types, interfaces, crate_path, service);
            &&& text::has_part(
                text::concatenated(all),
                "#[doc(hidden)] const "@ + descriptions::const_name(service, interfaces[i]) + ": &"@
                    + crate_path + "::idl::Interface<'static> = &{ const __DECLARED: &[&str] = &["@
                    + text::listed(
                    Seq::new(types.len(), |k: int| customs[k] + ".name()"@),
                ) + "]; "@ + text::concatenated(
                    Seq::new(
                        own.len(),
                        |k: int| descriptions::method_const(own[k], k as nat, crate_path),
                    ),
                ) + crate_path + "::idl::Interface::new("@ + super::literal_of(interfaces[i])
                    + ", &["@ + text::listed(
                    Seq::new(own.len(), |k: int| "__METHOD_"@ + text::decimal(k as nat)),
                ) + "], &["@ + text::listed(customs) + "], "@,
            )
        }),
{
    let own = ms.filter(|m: MethodInfoView| m.interface == Some(interfaces[i]));
    lemma_methods_of(ms, interfaces[i]);
    let customs = Seq::new(
        types.len(),
        |k: int| "<"@ + types[k] + " as "@ + crate_path + "::introspect::CustomType>::CUSTOM_TYPE"@,
    );
    assert(descriptions::custom_types(types, crate_path) =~= customs);
    let names = Seq::new(types.len(), |k: int| customs[k] + ".name()"@);
    assert(descriptions::declared_names(types, crate_path) =~= names);
    let consts = Seq::new(
        own.len(),
        |k: int| descriptions::method_const(own[k], k as nat, crate_path),
    );
    assert(descriptions::method_consts(own, crate_path) =~= consts);
    let refs = Seq::new(own.len(), |k: int| "__METHOD_"@ + text::decimal(k as nat));
    assert(descriptions::method_refs(own.len()) =~= refs);
    let part = "#[doc(hidden)] const "@ + descriptions::const_name(service, interfaces[i]) + ": &"@
        + crate_path + "::idl::Interface<'static> = &{ const __DECLARED: &[&str] = &["@
        + text::listed(names) + "]; "@ + text::concatenated(consts) + crate_path
        + "::idl::Interface::new("@ + super::literal_of(interfaces[i]) + ", &["@ + text::listed(refs)
        + "], &["@ + text::listed(customs) + "], "@;
    text::lemma_part_of_itself(part);
    let whole = descriptions::description(own, types, interfaces[i], crate_path, service);
    assert(text::has_part(whole, part)) by {
        broadcast use text::group_parts;

    }
    let all = descriptions::descriptions(ms, types, interfaces, crate_path, service);
    assert(all[i] == whole);
    text::lemma_item_is_part(all, i);
    text::lemma_part_of_part(text::concatenated(all), whole, part);
}

proof fn lemma_methods_of(ms: Seq<MethodInfoView>, interface: Seq<char>)
    ensures
        descriptions::methods_of(ms, interface) == ms.filter(
            |m: MethodInfoView| m.interface == Some(interface),
        ),
    decreases ms.len(),
{
    reveal(Seq::filter);
    if ms.len() > 0 {
        lemma_methods_of(ms.drop_last(), interface);
    }
}

/// The errors that the description of an interface has are those of the first type of errors that a
/// method of the interface has; where none has one, there are none.
pub proof fn law_errors_are_described(
    ms: Seq<MethodInfoView>,
    types: Seq<Seq<char>>,
    interface: Seq<char>,
    crate_path: Seq<char>,
    service: Seq<char>,
    k: int,
)
    requires
        0 <= k <= ms.len(),
        forall|j: int| 0 <= j < k ==> (#[trigger] ms[j]).error_type is None,
        k < ms.len() ==> ms[k].error_type is Some,
    ensures
        k == ms.len() ==> text::closes(
            descriptions::description(ms, types, interface, crate_path, service),
            "], "@ + "&[]"@ + ", &[], ) }; "@,
        ),
        k < ms.len() ==> text::closes(
            descriptions::description(ms, types, interface, crate_path, service),
            "], "@ + ("<"@ + super::lifetimes::with_lifetime(
                super::lifetimes::with_lifetime(ms[k].error_type->0, "'__ser"@),
                "'static"@,
            ) + " as "@ + crate_path + "::introspect::ReplyError>::VARIANTS"@)
                + ", &[], ) }; "@,
        ),
{
    lemma_first_error(ms, k);
    broadcast use text::group_parts;

}

proof fn lemma_first_error(ms: Seq<MethodInfoView>, k: int)
    requires
        0 <= k <= ms.len(),
        forall|j: int| 0 <= j < k ==> (#[trigger] ms[j]).error_type is None,
        k < ms.len() ==> ms[k].error_type is Some,
    ensures
        k == ms.len() ==> super::distinct(ms, Part::ErrorType).len() == 0,
        k < ms.len() ==> super::distinct(ms, Part::ErrorType).len() > 0 && super::distinct(
            ms,
            Part::ErrorType,
        )[0] == super::lifetimes::with_lifetime(ms[k].error_type->0, "'__ser"@),
    decreases ms.len(),
{
    if ms.len() > 0 {
        let init = ms.drop_last();
        if k == ms.len() {
            assert(ms[k - 1].error_type is None);
            lemma_first_error(init, k - 1);
        } else {
            lemma_first_error(init, k);
        }
    }
}

/// The names of the generated types are those of the service, each with an end of its own.
pub proof fn law_generated_types_are_named_after_the_service(
    ms: Seq<MethodInfoView>,
    a: ServiceAttrsView,
    s: Seq<char>,
)
    ensures
        ({
            let c = super::context(ms, a, s);
            &&& c.method_call == "__"@ + s + "MethodCall"@
            &&& c.user_methods == "__"@ + s + "UserMethods"@
            &&& c.reply_params == "__"@ + s + "ReplyParams"@
            &&& c.reply_error == "__"@ + s + "ReplyError"@
            &&& c.stream_params == "__"@ + s + "ReplyStreamParams"@
            &&& c.service == s
            &&& c.crate_path == a.crate_path
            &&& forall|i: Seq<char>| #[trigger]
                c.interfaces.contains(i) <==> exists|k: int|
                    0 <= k < ms.len() && (#[trigger] ms[k]).interface == Some(i)
            &&& c.interfaces.no_duplicates()
        }),
{
    super::law_parts_are_listed_once(ms, Part::Interface);
    let c = super::context(ms, a, s);
    assert forall|i: Seq<char>| #[trigger] c.interfaces.contains(i) <==> exists|k: int|
        0 <= k < ms.len() && (#[trigger] ms[k]).interface == Some(i) by {
        if c.interfaces.contains(i) {
            let k = choose|k: int|
                0 <= k < ms.len() && #[trigger] super::part_of(ms[k], Part::Interface) == Some(i);
            assert(ms[k].interface == Some(i));
        }
        if exists|k: int| 0 <= k < ms.len() && (#[trigger] ms[k]).interface == Some(i) {
            let k = choose|k: int| 0 <= k < ms.len() && (#[trigger] ms[k]).interface == Some(i);
            assert(super::part_of(ms[k], Part::Interface) == Some(i));
        }
    }
}

/// What is generated for a service has the descriptions of its interfaces, the types of its calls,
/// replies, errors and items, and the implementation of the trait, and in that the body that answers
/// calls, all under the name of the service's type.
pub proof fn law_a_service_has_all_its_parts(
    self_ty: TypeView,
    g: SocketGenericsView,
    ms: Seq<MethodInfoView>,
    a: ServiceAttrsView,
)
    requires
        self_ty.last_segment is Some,
    ensures
        ({
            let s = self_ty.last_segment->0.ident;
            let c = super::context(ms, a, s);
            let all = super::service_impl(self_ty, g, ms, a);
            &&& text::has_part(
                all,
                text::concatenated(
                    descriptions::descriptions(ms, a.custom_types, c.interfaces, a.crate_path, s),
                ),
            )
            &&& text::has_part(
                all,
                calls::method_call_enum(ms, c.method_call, c.user_methods, a.crate_path),
            )
            &&& text::has_part(
                all,
                replies::reply_params_enum(ms, c.method_call, c.reply_params, a.crate_path),
            )
            &&& text::has_part(all, replies::reply_error_enum(ms, c.reply_error, a.crate_path))
            &&& text::has_part(all, replies::stream_params_enum(ms, c.stream_params))
            &&& text::closes(all, super::trait_impl(self_ty, g, ms, a, s))
            &&& text::closes(
                super::trait_impl(self_ty, g, ms, a, s),
                handle::handle_body(ms, a, c) + " } }"@,
            )
        }),
{
    broadcast use text::group_parts;

    let s = self_ty.last_segment->0.ident;
    let c = super::context(ms, a, s);
    text::lemma_part_of_itself(
        text::concatenated(
            descriptions::descriptions(ms, a.custom_types, c.interfaces, a.crate_path, s),
        ),
    );
    text::lemma_part_of_itself(
        calls::method_call_enum(ms, c.method_call, c.user_methods, a.crate_path),
    );
    text::lemma_part_of_itself(
        replies::reply_params_enum(ms, c.method_call, c.reply_params, a.crate_path),
    );
    text::lemma_part_of_itself(replies::reply_error_enum(ms, c.reply_error, a.crate_path));
    text::lemma_part_of_itself(replies::stream_params_enum(ms, c.stream_params));
}

/// The trait is implemented for the type of the service, over the type of sockets, with the generated
/// types in their roles.
pub proof fn law_generated_types_have_their_roles(
    self_ty: TypeView,
    g: SocketGenericsView,
    ms: Seq<MethodInfoView>,
    a: ServiceAttrsView,
    s: Seq<char>,
)
    ensures
        ({
            let all = super::trait_impl(self_ty, g, ms, a, s);
            &&& text::has_part(
                all,
                "impl "@ + g.generics + " "@ + a.crate_path + "::Service<"@ + g.socket + "> for "@
                    + self_ty.text + " where "@ + g.socket + ": "@ + a.crate_path
                    + "::connection::Socket, "@ + g.predicates + " { type MethodCall<'de> = "@ + (
                "__"@ + s + "MethodCall"@) + "<'de>; type ReplyParams<'ser> = "@ + ("__"@ + s
                    + "ReplyParams"@) + "<'ser> where Self: 'ser; type ReplyStream = "@,
            )
            &&& text::has_part(
                all,
                " type ReplyError<'ser> = "@ + ("__"@ + s + "ReplyError"@)
                    + "<'ser> where Self: 'ser; "@,
            )
            &&& text::has_part(
                all,
                "async fn handle<'__zlink_ser>( &'__zlink_ser mut self, __zlink_call: &'__zlink_ser "@
                    + a.crate_path + "::Call<Self::MethodCall<'_>>, __zlink_conn: &mut "@
                    + a.crate_path + "::Connection<"@ + g.socket + ">, "@,
            )
        }),
{
    let front = "impl "@ + g.generics + " "@ + a.crate_path + "::Service<"@ + g.socket + "> for "@
        + self_ty.text + " where "@ + g.socket + ": "@ + a.crate_path + "::connection::Socket, "@
        + g.predicates + " { type MethodCall<'de> = "@ + ("__"@ + s + "MethodCall"@)
        + "<'de>; type ReplyParams<'ser> = "@ + ("__"@ + s + "ReplyParams"@)
        + "<'ser> where Self: 'ser; type ReplyStream = "@;
    text::lemma_part_of_itself(front);
    broadcast use text::group_parts;

}

/// Whether a method returns file descriptors, receives some, or replies with a stream.
pub open spec fn moves_descriptors(m: MethodInfoView) -> bool {
    ||| m.is_streaming
    ||| m.return_fds
    ||| exists|j: int| 0 <= j < m.params.len() && (#[trigger] m.params[j]).is_fds
}

/// Where a method of the service moves file descriptors, the function that answers calls takes those
/// of the call and gives those of the reply beside the reply; where none does, it gives the reply
/// alone.
pub proof fn law_descriptors_stand_beside_the_reply(
    self_ty: TypeView,
    g: SocketGenericsView,
    ms: Seq<MethodInfoView>,
    a: ServiceAttrsView,
    s: Seq<char>,
)
    ensures
        ({
            let all = super::trait_impl(self_ty, g, ms, a, s);
            let c = super::context(ms, a, s);
            let moves = exists|k: int| 0 <= k < ms.len() && #[trigger] moves_descriptors(ms[k]);
            &&& moves ==> {
                &&& text::has_part(
                    all,
                    "mut __zlink_fds: ::std::vec::Vec<::std::os::fd::OwnedFd>, ) -> ("@
                        + a.crate_path
                        + "::service::MethodReply< Self::ReplyParams<'__zlink_ser>, Self::ReplyStream, Self::ReplyError<'__zlink_ser>, >"@
                        + ", ::std::vec::Vec<::std::os::fd::OwnedFd>) { "@,
                )
                &&& handle::handle_body(ms, a, c)
                    == "let _ = &mut __zlink_fds; let mut __zlink_out: ::std::vec::Vec<::std::os::fd::OwnedFd> = ::std::vec::Vec::new(); let __zlink_reply = { "@
                    + handle::reply_body(ms, a, c) + " }; (__zlink_reply, __zlink_out)"@
            }
            &&& !moves ==> {
                &&& text::has_part(
                    all,
                    ") -> "@ + a.crate_path
                        + "::service::MethodReply< Self::ReplyParams<'__zlink_ser>, Self::ReplyStream, Self::ReplyError<'__zlink_ser>, >"@
                        + " { "@,
                )
                &&& handle::handle_body(ms, a, c) == handle::reply_body(ms, a, c)
            }
        }),
{
    broadcast use text::group_parts;

    let moves = exists|k: int| 0 <= k < ms.len() && #[trigger] moves_descriptors(ms[k]);
    if handle::any_carries_fds(ms) {
        let k = choose|k: int| 0 <= k < ms.len() && #[trigger] handle::carries_fds(ms[k]);
        assert(moves_descriptors(ms[k]));
    }
    if moves {
        let k = choose|k: int| 0 <= k < ms.len() && #[trigger] moves_descriptors(ms[k]);
        assert(handle::carries_fds(ms[k]));
    }
}

/// The body that answers calls looks at the method of the call first, and says that it does not use
/// the connection where no method receives it.
pub proof fn law_the_method_decides(ms: Seq<MethodInfoView>, a: ServiceAttrsView, c: ContextView)
    ensures
        (exists|k: int, j: int|
            0 <= k < ms.len() && 0 <= j < ms[k].params.len() && (
            #[trigger] ms[k].params[j]).is_connection) ==> handle::reply_body(ms, a, c)
            == "match __zlink_call.method() { "@ + handle::varlink_service_match(a, c)
            + handle::user_methods_match(ms, c) + "}"@,
        !(exists|k: int, j: int|
            0 <= k < ms.len() && 0 <= j < ms[k].params.len() && (
            #[trigger] ms[k].params[j]).is_connection) ==> handle::reply_body(ms, a, c)
            == "let _ = __zlink_conn; match __zlink_call.method() { "@
            + handle::varlink_service_match(a, c) + handle::user_methods_match(ms, c) + "}"@,
        text::has_part(
            handle::varlink_service_match(a, c),
            c.method_call + "::__VarlinkService(__varlink_method) => { match __varlink_method { "@
                + c.crate_path + "::varlink_service::Method::GetInfo => { let info = "@,
        ),
        text::has_part(
            handle::varlink_service_match(a, c),
            c.crate_path
                + "::varlink_service::Method::GetInterfaceDescription { interface } => { match *interface { "@,
        ),
        text::has_part(
            handle::user_methods_match(ms, c),
            c.method_call + "::__UserMethods(__user_method) => { match __user_method { "@
                + c.user_methods + "::__"@ + c.user_methods
                + "Unused(_) => { unreachable!(\"unused variant should never be matched\") } "@,
        ),
{
    let start = c.method_call
        + "::__VarlinkService(__varlink_method) => { match __varlink_method { "@ + c.crate_path
        + "::varlink_service::Method::GetInfo => { let info = "@;
    text::lemma_part_of_itself(start);
    let own = c.method_call + "::__UserMethods(__user_method) => { match __user_method { "@
        + c.user_methods + "::__"@ + c.user_methods
        + "Unused(_) => { unreachable!(\"unused variant should never be matched\") } "@;
    text::lemma_part_of_itself(own);
    if handle::any_uses_connection(ms) {
        let k = choose|k: int| 0 <= k < ms.len() && #[trigger] ms[k].uses_connection();
        let j = choose|j: int|
            0 <= j < ms[k].params.len() && (#[trigger] ms[k].params[j]).is_connection;
        assert(ms[k].params[j].is_connection);
    }
    if exists|k: int, j: int|
        0 <= k < ms.len() && 0 <= j < ms[k].params.len() && (
        #[trigger] ms[k].params[j]).is_connection {
        let (k, j) = choose|k: int, j: int|
            0 <= k < ms.len() && 0 <= j < ms[k].params.len() && (
            #[trigger] ms[k].params[j]).is_connection;
        assert(ms[k].uses_connection());
    }
    broadcast use text::group_parts;

}

/// The streams that a service replies with hold items of the type that is generated for them, each
/// beside its file descriptors. Where it replies with none, they are empty.
pub proof fn law_streams_hold_the_items(
    self_ty: TypeView,
    g: SocketGenericsView,
    ms: Seq<MethodInfoView>,
    a: ServiceAttrsView,
    s: Seq<char>,
)
    ensures
        ({
            let streams = exists|k: int|
                0 <= k < ms.len() && (#[trigger] ms[k]).is_streaming && ms[k].return_type is Some;
            let name = "__"@ + s + "ReplyStreamParams"@;
            let all = super::trait_impl(self_ty, g, ms, a, s);
            &&& streams ==> super::stream_types(ms, a.crate_path, s)
                == "::core::pin::Pin<::std::boxed::Box<dyn ::futures_util::Stream<Item = ("@
                + a.crate_path + "::Reply<"@ + name
                + ">, ::std::vec::Vec<::std::os::fd::OwnedFd>)>>>; type ReplyStreamParams = "@
                + name + ";"@
            &&& !streams && (exists|k: int| 0 <= k < ms.len() && #[trigger] moves_descriptors(ms[k]))
                ==> super::stream_types(ms, a.crate_path, s)
                == "::futures_util::stream::Empty<("@ + a.crate_path
                + "::Reply<()>, ::std::vec::Vec<::std::os::fd::OwnedFd>)>; type ReplyStreamParams = ();"@
            &&& !streams && !(exists|k: int|
                0 <= k < ms.len() && #[trigger] moves_descriptors(ms[k]))
                ==> super::stream_types(ms, a.crate_path, s)
                == "::futures_util::stream::Empty<"@ + a.crate_path
                + "::Reply<()>>; type ReplyStreamParams = ();"@
            &&& text::has_part(
                all,
                "<'ser> where Self: 'ser; type ReplyStream = "@ + super::stream_types(
                    ms,
                    a.crate_path,
                    s,
                ) + " type ReplyError<'ser> = "@,
            )
        }),
{
    let types = super::distinct(ms, Part::StreamType);
    super::law_parts_are_listed_once(ms, Part::StreamType);
    let streams = exists|k: int|
        0 <= k < ms.len() && (#[trigger] ms[k]).is_streaming && ms[k].return_type is Some;
    let moves = exists|k: int| 0 <= k < ms.len() && #[trigger] moves_descriptors(ms[k]);
    if types.len() > 0 {
        assert(types.contains(types[0]));
        let k = choose|k: int|
            0 <= k < ms.len() && #[trigger] super::part_of(ms[k], Part::StreamType) == Some(
                types[0],
            );
        assert(ms[k].is_streaming && ms[k].return_type is Some);
    }
    if streams {
        let k = choose|k: int|
            0 <= k < ms.len() && (#[trigger] ms[k]).is_streaming && ms[k].return_type is Some;
        let t = super::part_of(ms[k], Part::StreamType)->0;
        assert(super::part_of(ms[k], Part::StreamType) == Some(t));
        assert(types.contains(t));
    }
    if handle::any_carries_fds(ms) {
        let k = choose|k: int| 0 <= k < ms.len() && #[trigger] handle::carries_fds(ms[k]);
        assert(moves_descriptors(ms[k]));
    }
    if moves {
        let k = choose|k: int| 0 <= k < ms.len() && #[trigger] moves_descriptors(ms[k]);
        assert(handle::carries_fds(ms[k]));
    }
    broadcast use text::group_parts;

}

/// The type of sockets is the first type among the parameters of the impl block, which then keeps its
/// generics and predicates; where there is none, the type of sockets is added.
pub proof fn law_sockets_are_the_first_type(item: ItemImpl, k: int)
    requires
        0 <= k <= item.params@.len(),
        forall|j: int| 0 <= j < k ==> #[trigger] item.params@[j] is Other,
        k < item.params@.len() ==> item.params@[k] is Type,
    ensures
        k < item.params@.len() ==> super::socket_generics(item).socket
            == item.params@[k]->Type_0@ && super::socket_generics(item).generics == item.generics@
            && super::socket_generics(item).predicates == item.predicates@,
        k == item.params@.len() ==> super::socket_generics(item).socket == "__ZlinkSock"@
            && super::socket_generics(item).generics == "<__ZlinkSock>"@
            && super::socket_generics(item).predicates == ""@,
{
    lemma_first_type(item.params@, 0, k);
}

proof fn lemma_first_type(params: Seq<GenericParam>, i: int, k: int)
    requires
        0 <= i <= k <= params.len(),
        forall|j: int| i <= j < k ==> #[trigger] params[j] is Other,
        k < params.len() ==> params[k] is Type,
    ensures
        super::first_type_param(params, i) == if k < params.len() {
            Some(params[k]->Type_0@)
        } else {
            None
        },
    decreases k - i,
{
    if i < k {
        assert(params[i] is Other);
        lemma_first_type(params, i + 1, k);
    }
}

/// The constant that describes an interface is named after the service and the interface, in capital
/// letters and with underscores for the dots.
pub proof fn law_constants_are_named_after_interfaces(service: Seq<char>, interface: Seq<char>) -> (r: (
    Seq<char>,
    Seq<char>,
))
    requires
        vstd::utf8::is_ascii_chars(service),
        vstd::utf8::is_ascii_chars(interface),
    ensures
        descriptions::const_name(service, interface) == "__"@ + r.0 + "_INTERFACE_"@ + r.1,
        r.0.len() == service.len(),
        r.1.len() == interface.len(),
        forall|k: int| 0 <= k < service.len() ==> #[trigger] r.0[k] == text::upper(service[k]),
        forall|k: int|
            0 <= k < interface.len() ==> #[trigger] r.1[k] == if interface[k] == '.' {
                '_'
            } else {
                text::upper(interface[k])
            },
{
    let flat = text::replaced(interface, '.', '_');
    assert(vstd::utf8::is_ascii_chars(flat)) by {
        assert forall|k: int| 0 <= k < flat.len() implies '\0' <= #[trigger] flat[k]
            <= '\u{7f}' by {
            assert('\0' <= interface[k] <= '\u{7f}');
        }
    }
    (text::uppered(service), text::uppered(flat))
}

/// In place of the call of an inlined method, the connection is bound first, then everything else, each
/// in the order of the parameters, and then stands the body.
pub proof fn law_inlined_bodies_are_put_in_order(m: MethodInfoView)
    requires
        m.is_streaming || exists|j: int|
            0 <= j < m.params.len() && (#[trigger] m.params[j]).is_connection,
    ensures
        handle::call(m) == "{ "@ + text::concatenated(
            m.params.filter(|p: ParamInfoView| p.is_connection).map_values(
                |p: ParamInfoView| "let "@ + p.name + " = __zlink_conn; "@,
            ),
        ) + text::concatenated(
            m.params.filter(|p: ParamInfoView| !p.is_connection).map_values(
                |p: ParamInfoView| "let "@ + p.name + " = "@ + given_to(p) + "; "@,
            ),
        ) + "async move "@ + m.body + " }.await"@,
{
    law_parameters_are_written_in_order(m.params);
}

/// The arms that answer the service's own methods stand one behind the other in the order of the
/// methods: one for each that belongs to an interface and none for the others.
pub proof fn law_arms_follow_the_methods(ms: Seq<MethodInfoView>, c: ContextView)
    ensures
        text::has_part(
            handle::user_methods_match(ms, c),
            "Unused(_) => { unreachable!(\"unused variant should never be matched\") } "@
                + text::concatenated(
                ms.filter(|m: MethodInfoView| m.interface is Some).map_values(
                    |m: MethodInfoView|
                        matched(m, c.user_methods) + " => { "@ + handle::return_expr(
                            m,
                            super::distinct(ms, Part::ReturnType),
                            c,
                        ) + " } "@,
                ),
            ) + c.user_methods + "::__"@ + c.user_methods + "Unknown => { "@,
        ),
{
    let types = super::distinct(ms, Part::ReturnType);
    lemma_arms(ms, types, c);
    let whole = |m: MethodInfoView|
        matched(m, c.user_methods) + " => { "@ + handle::return_expr(m, types, c) + " } "@;
    assert forall|m: MethodInfoView| handle::arm(m, types, c) == #[trigger] whole(m) by {
        law_parameters_are_written_in_order(m.params);
    }
    assert(handle::arms(ms, types, c) =~= ms.filter(
        |m: MethodInfoView| m.interface is Some,
    ).map_values(whole));
    broadcast use text::group_parts;

}

/// The variants that calls of the service's own methods are read into stand in the order of the
/// methods, and where there are any, one for all other calls stands behind them.
pub proof fn law_variants_follow_the_methods(ms: Seq<MethodInfoView>, user_methods: Seq<char>)
    ensures
        ({
            let all = ms.filter(|m: MethodInfoView| m.interface is Some).map_values(
                |m: MethodInfoView| calls::variant(m, m.interface->0 + "."@ + m.varlink_name),
            );
            let start = "#[allow(private_interfaces)] #[derive(::core::fmt::Debug, ::serde::Deserialize)] "@
                + "#[serde(tag = \"method\", content = \"parameters\")] pub enum "@ + user_methods
                + "<'__de> { __"@ + user_methods
                + "Unused(::core::marker::PhantomData<&'__de ()>), "@;
            &&& all.len() == 0 ==> calls::user_methods_enum(ms, user_methods) == start + "} "@
            &&& all.len() > 0 ==> calls::user_methods_enum(ms, user_methods) == start
                + text::terminated(all) + "#[serde(other)] __"@ + user_methods + "Unknown, } "@
        }),
{
    lemma_variants(ms);
}

/// The types of replies, errors and items are enumerations that are written without a tag, with one
/// variant for each type that is sent, in the order in which the types first occur.
pub proof fn law_sent_types_are_listed(
    ms: Seq<MethodInfoView>,
    method_call: Seq<char>,
    name: Seq<char>,
    crate_path: Seq<char>,
)
    ensures
        replies::reply_params_enum(ms, method_call, name, crate_path)
            == "#[allow(private_interfaces)] #[derive(::core::fmt::Debug, ::serde::Serialize)] "@
            + "#[serde(untagged)] pub enum "@ + name + "<'__ser> { __"@ + name + "VarlinkService("@
            + crate_path + "::varlink_service::Reply<'__ser>), "@ + text::terminated(
            numbered(method_call, super::distinct(ms, Part::ReturnType)),
        ) + "__"@ + name + "Unused(::core::marker::PhantomData<&'__ser ()>), } "@,
        text::has_part(
            replies::reply_error_enum(ms, name, crate_path),
            "#[allow(private_interfaces)] #[derive(::core::fmt::Debug, ::serde::Serialize)] "@
                + "#[serde(untagged)] pub enum "@ + name + "<'__ser> { __"@ + name
                + "VarlinkService("@ + crate_path + "::varlink_service::Error<'__ser>), "@
                + text::terminated(numbered(name, super::distinct(ms, Part::ErrorType))),
        ),
        super::distinct(ms, Part::StreamType).len() == 0 ==> replies::stream_params_enum(ms, name)
            == ""@,
        super::distinct(ms, Part::StreamType).len() > 0 ==> replies::stream_params_enum(ms, name)
            == "#[allow(private_interfaces)] #[derive(::core::fmt::Debug, ::serde::Serialize)] "@
            + "#[serde(untagged)] pub enum "@ + name + " { "@ + text::terminated(
            numbered(name, super::distinct(ms, Part::StreamType)),
        ) + "} "@,
{
    assert(replies::variants(method_call, super::distinct(ms, Part::ReturnType)) =~= numbered(
        method_call,
        super::distinct(ms, Part::ReturnType),
    ));
    assert(replies::variants(name, super::distinct(ms, Part::ErrorType)) =~= numbered(
        name,
        super::distinct(ms, Part::ErrorType),
    ));
    assert(replies::variants(name, super::distinct(ms, Part::StreamType)) =~= numbered(
        name,
        super::distinct(ms, Part::StreamType),
    ));
    let front = "#[allow(private_interfaces)] #[derive(::core::fmt::Debug, ::serde::Serialize)] "@
        + "#[serde(untagged)] pub enum "@ + name + "<'__ser> { __"@ + name + "VarlinkService("@
        + crate_path + "::varlink_service::Error<'__ser>), "@ + text::terminated(
        numbered(name, super::distinct(ms, Part::ErrorType)),
    );
    text::lemma_part_of_itself(front);
    broadcast use text::group_parts;

}

/// The variants that hold types, by their numbers.
pub open spec fn numbered(name: Seq<char>, types: Seq<Seq<char>>) -> Seq<Seq<char>> {
    Seq::new(
        types.len(),
        |k: int|
            "__"@ + name + "Variant"@ + text::decimal(k as nat) + "("@ + types[k] + ")"@,
    )
}

/// A call of `GetInterfaceDescription` is compared with the interfaces of the service in their order
/// and then with the interface that all services have, whose description is sent; any other is refused.
pub proof fn law_interfaces_are_compared_in_order(a: ServiceAttrsView, c: ContextView)
    ensures
        text::closes(
            handle::varlink_service_match(a, c),
            "::varlink_service::Method::GetInterfaceDescription { interface } => { match *interface { "@
                + text::concatenated(
                Seq::new(
                    c.interfaces.len(),
                    |k: int|
                        super::literal_of(c.interfaces[k]) + " => { let desc = "@ + c.crate_path
                            + "::varlink_service::InterfaceDescription::from("@
                            + descriptions::const_name(c.service, c.interfaces[k]) + "); "@
                            + c.crate_path + "::service::MethodReply::Single(Some("@
                            + c.reply_params + "::__"@ + c.reply_params + "VarlinkService("@
                            + c.crate_path
                            + "::varlink_service::Reply::InterfaceDescription(desc)))) } "@,
                ),
            ) + c.crate_path + "::varlink_service::INTERFACE_NAME => { let desc = "@ + c.crate_path
                + "::varlink_service::InterfaceDescription::from("@ + c.crate_path
                + "::varlink_service::DESCRIPTION); "@ + c.crate_path
                + "::service::MethodReply::Single(Some("@ + c.reply_params + "::__"@
                + c.reply_params + "VarlinkService("@ + c.crate_path
                + "::varlink_service::Reply::InterfaceDescription(desc)))) } _ => { "@
                + c.crate_path + "::service::MethodReply::Error("@ + c.reply_error + "::__"@
                + c.reply_error + "VarlinkService("@ + c.crate_path
                + "::varlink_service::Error::InterfaceNotFound { interface: ::std::borrow::Cow::Borrowed(interface), })) } } } } } "@,
        ),
{
    assert(handle::interface_arms(c) =~= Seq::new(
        c.interfaces.len(),
        |k: int|
            super::literal_of(c.interfaces[k]) + " => { let desc = "@ + c.crate_path
                + "::varlink_service::InterfaceDescription::from("@ + descriptions::const_name(
                c.service,
                c.interfaces[k],
            ) + "); "@ + c.crate_path + "::service::MethodReply::Single(Some("@ + c.reply_params
                + "::__"@ + c.reply_params + "VarlinkService("@ + c.crate_path
                + "::varlink_service::Reply::InterfaceDescription(desc)))) } "@,
    ));
    broadcast use text::group_parts;

}

/// The name of a service is the last identifier of its type; a type that has none is called `Service`.
pub proof fn law_services_are_named_after_their_type(self_ty: TypeView)
    ensures
        self_ty.last_segment is Some ==> super::service_name(self_ty)
            == self_ty.last_segment->0.ident,
        self_ty.last_segment is None ==> super::service_name(self_ty) == "Service"@,
{
}

/// An error whose type is not known is sent as what it can be turned into.
pub proof fn law_other_errors_are_turned_into_what_is_sent(
    m: MethodInfoView,
    types: Seq<Seq<char>>,
    c: ContextView,
)
    requires
        m.returns_result,
        m.error_type is None,
        !(m.is_streaming && m.return_type is Some),
    ensures
        text::has_part(
            handle::return_expr(m, types, c),
            c.crate_path + "::service::MethodReply::Error("@ + "::core::convert::From::from(__err)"@
                + ") } }"@,
        ),
{
    broadcast use text::group_parts;

}

} // verus!
