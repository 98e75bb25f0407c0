//! The body of the function that answers calls.

use vstd::prelude::*;

use super::descriptions;
use super::descriptions::const_name_text;
use super::replies;
use super::replies::variant_name_text;
use super::{build_return_type_variant_map, index_of_variant, part_text, string_literal, Part};
use crate::macros::service::attrs::{ServiceAttrs, ServiceAttrsView};
use crate::macros::service::method;
use crate::macros::service::method::{MethodInfo, MethodInfoView};
use crate::macros::service::types::{ParamInfo, ParamInfoView};
use crate::text;
use crate::text::{concat, list, terminate};

verus! {

/// The names that the body speaks of.
pub struct HandleBodyContext<'a> {
    /// The path to the library.
    pub crate_path: &'a str,
    /// The type of all methods.
    pub method_call_name: &'a str,
    /// The type of the service's own methods.
    pub user_methods_name: &'a str,
    /// The type of replies.
    pub reply_params_name: &'a str,
    /// The type of errors.
    pub reply_error_name: &'a str,
    /// The type of the items of streams.
    pub stream_params_name: &'a str,
    /// The types of those items, each at the number of its variant.
    pub stream_types: &'a Vec<String>,
    /// The types of errors that the methods have, each at the number of its variant.
    pub error_types: &'a Vec<String>,
    /// The interfaces of the methods.
    pub interfaces: &'a Vec<String>,
    /// The name of the service.
    pub service: &'a str,
}

/// The model of a [`HandleBodyContext`].
pub struct ContextView {
    /// The path to the library.
    pub crate_path: Seq<char>,
    /// The type of all methods.
    pub method_call: Seq<char>,
    /// The type of the service's own methods.
    pub user_methods: Seq<char>,
    /// The type of replies.
    pub reply_params: Seq<char>,
    /// The type of errors.
    pub reply_error: Seq<char>,
    /// The type of the items of streams.
    pub stream_params: Seq<char>,
    /// The types of those items.
    pub stream_types: Seq<Seq<char>>,
    /// The types of errors that the methods have.
    pub error_types: Seq<Seq<char>>,
    /// The interfaces of the methods.
    pub interfaces: Seq<Seq<char>>,
    /// The name of the service.
    pub service: Seq<char>,
}

impl View for HandleBodyContext<'_> {
    type V = ContextView;

    open spec fn view(&self) -> ContextView {
        ContextView {
            crate_path: self.crate_path@,
            method_call: self.method_call_name@,
            user_methods: self.user_methods_name@,
            reply_params: self.reply_params_name@,
            reply_error: self.reply_error_name@,
            stream_params: self.stream_params_name@,
            stream_types: text::texts(self.stream_types@),
            error_types: text::texts(self.error_types@),
            interfaces: text::texts(self.interfaces@),
            service: self.service@,
        }
    }
}

/// The binding of the connection to the name of a parameter.
pub open spec fn connection_binding(name: Seq<char>) -> Seq<char> {
    "let "@
        + name
        + " = __zlink_conn; "@
}

/// The binding of the connection to the name of a parameter.
fn connection_binding_text(name: &str) -> (r: String)
    ensures
        r@ == connection_binding(name@),
{
    let mut out = "let ".to_string();
    out.append(name);
    out.append(" = __zlink_conn; ");
    out
}

/// The copy of what came in for a parameter.
pub open spec fn param_clone(name: Seq<char>) -> Seq<char> {
    "::core::clone::Clone::clone("@
        + name
        + ")"@
}

/// The copy of what came in for a parameter.
fn param_clone_text(name: &str) -> (r: String)
    ensures
        r@ == param_clone(name@),
{
    let mut out = "::core::clone::Clone::clone(".to_string();
    out.append(name);
    out.append(")");
    out
}

/// What a parameter is given: the file descriptors that came in, whether more is wanted, or a copy of
/// what came in for it.
pub open spec fn param_value(p: ParamInfoView) -> Seq<char> {
    if p.is_fds {
        "::core::mem::take(&mut __zlink_fds)"@
    } else if p.is_more {
        "__zlink_call.more()"@
    } else {
        param_clone(p.name)
    }
}

/// What a parameter is given.
fn param_value_text(p: &ParamInfo) -> (r: String)
    ensures
        r@ == param_value(p@),
{
    if p.is_fds {
        "::core::mem::take(&mut __zlink_fds)".to_string()
    } else if p.is_more {
        "__zlink_call.more()".to_string()
    } else {
        param_clone_text(p.name.as_str())
    }
}

/// The binding of what a parameter is given to its name.
pub open spec fn param_binding(p: ParamInfoView) -> Seq<char> {
    "let "@
        + p.name
        + " = "@
        + param_value(p)
        + "; "@
}

/// The binding of what a parameter is given to its name.
fn param_binding_text(p: &ParamInfo) -> (r: String)
    ensures
        r@ == param_binding(p@),
{
    let mut out = "let ".to_string();
    out.append(p.name.as_str());
    out.append(" = ");
    out.append(param_value_text(p).as_str());
    out.append("; ");
    out
}

/// What is written for each parameter.
#[derive(Clone, Copy)]
pub enum Writing {
    /// Its name, where it comes over the wire.
    Name,
    /// The binding of the connection, where it receives that.
    ConnectionBinding,
    /// The binding of what it is given, where that is not the connection.
    ParamBinding,
    /// What it is given.
    Value,
}

/// What is written for a parameter.
pub open spec fn written(p: ParamInfoView, writing: Writing) -> Option<Seq<char>> {
    match writing {
        Writing::Name => if p.comes_over_wire() {
            Some(p.name)
        } else {
            None
        },
        Writing::ConnectionBinding => if p.is_connection {
            Some(connection_binding(p.name))
        } else {
            None
        },
        Writing::ParamBinding => if p.is_connection {
            None
        } else {
            Some(param_binding(p))
        },
        Writing::Value => Some(param_value(p)),
    }
}

/// What is written for parameters, in order.
pub open spec fn written_all(ps: Seq<ParamInfoView>, writing: Writing) -> Seq<Seq<char>>
    decreases ps.len(),
{
    if ps.len() == 0 {
        seq![]
    } else {
        match written(ps.last(), writing) {
            Some(t) => written_all(ps.drop_last(), writing).push(t),
            None => written_all(ps.drop_last(), writing),
        }
    }
}

/// What is written for the parameters of a method, in order.
fn write_params(m: &MethodInfo, writing: Writing) -> (r: Vec<String>)
    ensures
        text::texts(r@) == written_all(m@.params, writing),
{
    let ghost all = m@.params;
    let mut out: Vec<String> = Vec::new();
    let mut i: usize = 0;
    assert(text::texts(out@) =~= written_all(all.take(0), writing));
    while i < m.params.len()
        invariant
            i <= m.params@.len(),
            all == m@.params,
            text::texts(out@) == written_all(all.take(i as int), writing),
        decreases m.params@.len() - i,
    {
        let p = &m.params[i];
        proof {
            assert(all.take(i + 1).drop_last() =~= all.take(i as int));
            assert(all.take(i + 1).last() == p@);
        }
        let t = match writing {
            Writing::Name => if p.is_serialized() {
                Some(p.name.clone())
            } else {
                None
            },
            Writing::ConnectionBinding => if p.is_connection {
                Some(connection_binding_text(p.name.as_str()))
            } else {
                None
            },
            Writing::ParamBinding => if p.is_connection {
                None
            } else {
                Some(param_binding_text(p))
            },
            Writing::Value => Some(param_value_text(p)),
        };
        if let Some(t) = t {
            proof {
                text::lemma_texts_push(out@, t);
            }
            out.push(t);
        }
        i += 1;
    }
    assert(all.take(all.len() as int) =~= all);
    out
}

/// The pattern that a call of a method matches.
pub open spec fn pattern(m: MethodInfoView, user_methods: Seq<char>) -> Seq<char> {
    let names = written_all(m.params, Writing::Name);
    let head = user_methods + "::"@ + m.varlink_name;
    if names.len() == 0 {
        head
    } else {
        head + " { "@ + text::listed(names) + " }"@
    }
}

/// The pattern that a call of a method matches.
fn pattern_text(m: &MethodInfo, user_methods: &str) -> (r: String)
    ensures
        r@ == pattern(m@, user_methods@),
{
    let names = write_params(m, Writing::Name);
    assert(text::texts(names@).len() == names@.len());
    let mut out = user_methods.to_string();
    out.append("::");
    out.append(m.varlink_name.as_str());
    if names.len() > 0 {
        out.append(" { ");
        out.append(list(&names).as_str());
        out.append(" }");
    }
    out
}

/// The call of a method. One that receives the connection, or replies with a stream, has its body put
/// in place of the call.
pub open spec fn call(m: MethodInfoView) -> Seq<char> {
    if m.inlined() {
        "{ "@ + text::concatenated(written_all(m.params, Writing::ConnectionBinding))
            + text::concatenated(written_all(m.params, Writing::ParamBinding)) + "async move "@
            + m.body + " }.await"@
    } else {
        "self."@ + m.name + "("@ + text::listed(written_all(m.params, Writing::Value)) + ").await"@
    }
}

/// The call of a method.
fn call_text(m: &MethodInfo) -> (r: String)
    ensures
        r@ == call(m@),
{
    if m.is_inlined() {
        let mut out = "{ ".to_string();
        out.append(concat(&write_params(m, Writing::ConnectionBinding)).as_str());
        out.append(concat(&write_params(m, Writing::ParamBinding)).as_str());
        out.append("async move ");
        out.append(m.body.as_str());
        out.append(" }.await");
        out
    } else {
        let mut out = "self.".to_string();
        out.append(m.name.as_str());
        out.append("(");
        out.append(list(&write_params(m, Writing::Value)).as_str());
        out.append(").await");
        out
    }
}

/// What a method gives, with the file descriptors that it returns put aside.
pub open spec fn given(m: MethodInfoView) -> Seq<char> {
    if m.return_fds {
        "{ let (__value, __returned) = "@ + call(m) + "; __zlink_out = __returned; __value }"@
    } else {
        call(m)
    }
}

/// What a method gives, with the file descriptors that it returns put aside.
fn given_text(m: &MethodInfo) -> (r: String)
    ensures
        r@ == given(m@),
{
    if m.return_fds {
        let mut out = "{ let (__value, __returned) = ".to_string();
        out.append(call_text(m).as_str());
        out.append("; __zlink_out = __returned; __value }");
        out
    } else {
        call_text(m)
    }
}

/// What a call of a method is answered with that replies with a stream of items of the type `t`: each
/// item as the variant that holds its type, with its file descriptors.
pub open spec fn stream_expr(m: MethodInfoView, t: Seq<char>, c: ContextView) -> Seq<char> {
    c.crate_path
        + "::service::MethodReply::Multi(::std::boxed::Box::pin(::futures_util::StreamExt::map("@
        + call(m)
        + if m.return_fds {
        ", |(__reply, __returned)| { let __continues = __reply.continues(); ("@
    } else {
        ", |__reply| { let __continues = __reply.continues(); ("@
    }
        + c.crate_path
        + "::Reply::new(__reply.into_parameters().map("@
        + c.stream_params
        + "::"@
        + replies::variant_name(c.stream_params, super::variant_index(c.stream_types, t))
        + if m.return_fds {
        ")).set_continues(__continues), __returned) })))"@
    } else {
        ")).set_continues(__continues), ::std::vec::Vec::new()) })))"@
    }
}

/// What a call of a method is answered with that replies with a stream.
fn stream_expr_text(m: &MethodInfo, t: &str, ctx: &HandleBodyContext<'_>) -> (r: String)
    ensures
        r@ == stream_expr(m@, t@, ctx@),
{
    let index: usize = index_of_variant(ctx.stream_types, t);
    let mut out = ctx.crate_path.to_string();
    out.append("::service::MethodReply::Multi(::std::boxed::Box::pin(::futures_util::StreamExt::map(");
    out.append(call_text(m).as_str());
    if m.return_fds {
        out.append(", |(__reply, __returned)| { let __continues = __reply.continues(); (");
    } else {
        out.append(", |__reply| { let __continues = __reply.continues(); (");
    }
    out.append(ctx.crate_path);
    out.append("::Reply::new(__reply.into_parameters().map(");
    out.append(ctx.stream_params_name);
    out.append("::");
    out.append(variant_name_text(ctx.stream_params_name, index).as_str());
    if m.return_fds {
        out.append(")).set_continues(__continues), __returned) })))");
    } else {
        out.append(")).set_continues(__continues), ::std::vec::Vec::new()) })))");
    }
    out
}

/// What an error of a method is sent as.
pub open spec fn error_convert(m: MethodInfoView, c: ContextView) -> Seq<char> {
    match super::part_of(m, Part::ErrorType) {
        Some(t) => c.reply_error + "::"@ + replies::variant_name(
            c.reply_error,
            super::variant_index(c.error_types, t),
        ) + "(__err)"@,
        None => "::core::convert::From::from(__err)"@,
    }
}

/// What an error of a method is sent as.
fn error_convert_text(m: &MethodInfo, ctx: &HandleBodyContext<'_>) -> (r: String)
    ensures
        r@ == error_convert(m@, ctx@),
{
    match part_text(m, Part::ErrorType) {
        Some(t) => {
            let index: usize = index_of_variant(ctx.error_types, t.as_str());
            let mut out = ctx.reply_error_name.to_string();
            out.append("::");
            out.append(variant_name_text(ctx.reply_error_name, index).as_str());
            out.append("(__err)");
            out
        },
        None => "::core::convert::From::from(__err)".to_string(),
    }
}

/// What a reply of the type `t` is sent as, `types` being the types of replies.
pub open spec fn reply_variant(types: Seq<Seq<char>>, t: Seq<char>, c: ContextView) -> Seq<char> {
    c.reply_params + "::"@ + replies::variant_name(c.method_call, super::variant_index(types, t))
}

/// What a reply of the type `t` is sent as.
fn reply_variant_text(types: &Vec<String>, t: &str, ctx: &HandleBodyContext<'_>) -> (r: String)
    ensures
        r@ == reply_variant(text::texts(types@), t@, ctx@),
{
    let index: usize = index_of_variant(types, t);
    let mut out = ctx.reply_params_name.to_string();
    out.append("::");
    out.append(variant_name_text(ctx.method_call_name, index).as_str());
    out
}

/// What a call of a method is answered with that gives one reply: the reply or the error where it
/// returns a `Result`, or else the reply; and no parameters where it has none to send.
pub open spec fn single_expr(m: MethodInfoView, types: Seq<Seq<char>>, c: ContextView) -> Seq<char> {
    match (m.returns_result, super::part_of(m, Part::ReturnType)) {
        (true, Some(t)) => {
            "match "@
                + given(m)
                + " { ::core::result::Result::Ok(__ok) => { "@
                + c.crate_path
                + "::service::MethodReply::Single(Some("@
                + reply_variant(types, t, c)
                + "(__ok))) } ::core::result::Result::Err(__err) => { "@
                + c.crate_path
                + "::service::MethodReply::Error("@
                + error_convert(m, c)
                + ") } }"@
        },
        (true, None) => {
            "match "@
                + given(m)
                + " { ::core::result::Result::Ok(()) => { "@
                + c.crate_path
                + "::service::MethodReply::Single(None) } ::core::result::Result::Err(__err) => { "@
                + c.crate_path
                + "::service::MethodReply::Error("@
                + error_convert(m, c)
                + ") } }"@
        },
        (false, Some(t)) => {
            "let __result = "@
                + given(m)
                + "; "@
                + c.crate_path
                + "::service::MethodReply::Single(Some("@
                + reply_variant(types, t, c)
                + "(__result)))"@
        },
        (false, None) => {
            "let _ = "@
                + given(m)
                + "; "@
                + c.crate_path
                + "::service::MethodReply::Single(None)"@
        },
    }
}

/// What a call of a method is answered with that gives one reply.
fn single_expr_text(m: &MethodInfo, types: &Vec<String>, ctx: &HandleBodyContext<'_>) -> (r: String)
    ensures
        r@ == single_expr(m@, text::texts(types@), ctx@),
{
    let return_type = part_text(m, Part::ReturnType);
    if m.returns_result {
        match return_type {
            Some(t) => {
                let mut out = "match ".to_string();
                out.append(given_text(m).as_str());
                out.append(" { ::core::result::Result::Ok(__ok) => { ");
                out.append(ctx.crate_path);
                out.append("::service::MethodReply::Single(Some(");
                out.append(reply_variant_text(types, t.as_str(), ctx).as_str());
                out.append("(__ok))) } ::core::result::Result::Err(__err) => { ");
                out.append(ctx.crate_path);
                out.append("::service::MethodReply::Error(");
                out.append(error_convert_text(m, ctx).as_str());
                out.append(") } }");
                out
            },
            None => {
                let mut out = "match ".to_string();
                out.append(given_text(m).as_str());
                out.append(" { ::core::result::Result::Ok(()) => { ");
                out.append(ctx.crate_path);
                out.append("::service::MethodReply::Single(None) } ::core::result::Result::Err(__err) => { ");
                out.append(ctx.crate_path);
                out.append("::service::MethodReply::Error(");
                out.append(error_convert_text(m, ctx).as_str());
                out.append(") } }");
                out
            },
        }
    } else {
        match return_type {
            Some(t) => {
                let mut out = "let __result = ".to_string();
                out.append(given_text(m).as_str());
                out.append("; ");
                out.append(ctx.crate_path);
                out.append("::service::MethodReply::Single(Some(");
                out.append(reply_variant_text(types, t.as_str(), ctx).as_str());
                out.append("(__result)))");
                out
            },
            None => {
                let mut out = "let _ = ".to_string();
                out.append(given_text(m).as_str());
                out.append("; ");
                out.append(ctx.crate_path);
                out.append("::service::MethodReply::Single(None)");
                out
            },
        }
    }
}

/// What a call of a method is answered with: a stream, or one reply.
pub open spec fn return_expr(m: MethodInfoView, types: Seq<Seq<char>>, c: ContextView) -> Seq<char> {
    match super::part_of(m, Part::StreamType) {
        Some(t) => stream_expr(m, t, c),
        None => single_expr(m, types, c),
    }
}

/// What a call of a method is answered with.
fn return_expr_text(m: &MethodInfo, types: &Vec<String>, ctx: &HandleBodyContext<'_>) -> (r: String)
    ensures
        r@ == return_expr(m@, text::texts(types@), ctx@),
{
    match part_text(m, Part::StreamType) {
        Some(t) => stream_expr_text(m, t.as_str(), ctx),
        None => single_expr_text(m, types, ctx),
    }
}

/// The arm that answers the calls of a method.
pub open spec fn arm(m: MethodInfoView, types: Seq<Seq<char>>, c: ContextView) -> Seq<char> {
    pattern(m, c.user_methods)
        + " => { "@
        + return_expr(m, types, c)
        + " } "@
}

/// The arm that answers the calls of a method.
fn arm_text(m: &MethodInfo, types: &Vec<String>, ctx: &HandleBodyContext<'_>) -> (r: String)
    ensures
        r@ == arm(m@, text::texts(types@), ctx@),
{
    let mut out = pattern_text(m, ctx.user_methods_name).as_str().to_string();
    out.append(" => { ");
    out.append(return_expr_text(m, types, ctx).as_str());
    out.append(" } ");
    out
}

/// The arms that answer the calls of the methods that belong to an interface.
pub open spec fn arms(ms: Seq<MethodInfoView>, types: Seq<Seq<char>>, c: ContextView) -> Seq<Seq<char>>
    decreases ms.len(),
{
    if ms.len() == 0 {
        seq![]
    } else if ms.last().interface is Some {
        arms(ms.drop_last(), types, c).push(arm(ms.last(), types, c))
    } else {
        arms(ms.drop_last(), types, c)
    }
}

/// The arms that answer the calls of the methods that belong to an interface.
fn arm_texts(
    methods_info: &[MethodInfo],
    types: &Vec<String>,
    ctx: &HandleBodyContext<'_>,
) -> (r: Vec<String>)
    ensures
        text::texts(r@) == arms(method::methods_view(methods_info@), text::texts(types@), ctx@),
{
    let ghost ms = method::methods_view(methods_info@);
    let ghost ts = text::texts(types@);
    let mut out: Vec<String> = Vec::new();
    let mut i: usize = 0;
    assert(text::texts(out@) =~= arms(ms.take(0), ts, ctx@));
    while i < methods_info.len()
        invariant
            i <= methods_info@.len(),
            ms == method::methods_view(methods_info@),
            ts == text::texts(types@),
            text::texts(out@) == arms(ms.take(i as int), ts, ctx@),
        decreases methods_info@.len() - i,
    {
        proof {
            assert(ms.take(i + 1).drop_last() =~= ms.take(i as int));
            assert(ms.take(i + 1).last() == methods_info@[i as int]@);
        }
        if methods_info[i].interface.is_some() {
            let t = arm_text(&methods_info[i], types, ctx);
            proof {
                text::lemma_texts_push(out@, t);
            }
            out.push(t);
        }
        i += 1;
    }
    assert(ms.take(ms.len() as int) =~= ms);
    out
}

/// The arm that answers the calls of the service's own methods. A method that it does not have is
/// answered with an error.
pub open spec fn user_methods_match(ms: Seq<MethodInfoView>, c: ContextView) -> Seq<char> {
    c.method_call
        + "::__UserMethods(__user_method) => { match __user_method { "@
        + c.user_methods
        + "::__"@
        + c.user_methods
        + "Unused(_) => { unreachable!(\"unused variant should never be matched\") } "@
        + text::concatenated(arms(ms, super::distinct(ms, Part::ReturnType), c))
        + c.user_methods
        + "::__"@
        + c.user_methods
        + "Unknown => { "@
        + c.crate_path
        + "::service::MethodReply::Error("@
        + c.reply_error
        + "::__"@
        + c.reply_error
        + "VarlinkService("@
        + c.crate_path
        + "::varlink_service::Error::MethodNotFound { method: ::std::borrow::Cow::Borrowed(\"unknown\"), })) } } } "@
}

/// The arm that answers the calls of the service's own methods.
fn user_methods_match_text(methods_info: &[MethodInfo], ctx: &HandleBodyContext<'_>) -> (r: String)
    ensures
        r@ == user_methods_match(method::methods_view(methods_info@), ctx@),
{
    let types = build_return_type_variant_map(methods_info);
    let arms = arm_texts(methods_info, &types, ctx);
    let mut out = ctx.method_call_name.to_string();
    out.append("::__UserMethods(__user_method) => { match __user_method { ");
    out.append(ctx.user_methods_name);
    out.append("::__");
    out.append(ctx.user_methods_name);
    out.append("Unused(_) => { unreachable!(\"unused variant should never be matched\") } ");
    out.append(concat(&arms).as_str());
    out.append(ctx.user_methods_name);
    out.append("::__");
    out.append(ctx.user_methods_name);
    out.append("Unknown => { ");
    out.append(ctx.crate_path);
    out.append("::service::MethodReply::Error(");
    out.append(ctx.reply_error_name);
    out.append("::__");
    out.append(ctx.reply_error_name);
    out.append("VarlinkService(");
    out.append(ctx.crate_path);
    out.append("::varlink_service::Error::MethodNotFound { method: ::std::borrow::Cow::Borrowed(\"unknown\"), })) } } } ");
    out
}

/// The arm that answers with the description of an interface.
pub open spec fn interface_arm(interface: Seq<char>, c: ContextView) -> Seq<char> {
    super::literal_of(interface)
        + " => { let desc = "@
        + c.crate_path
        + "::varlink_service::InterfaceDescription::from("@
        + descriptions::const_name(c.service, interface)
        + "); "@
        + c.crate_path
        + "::service::MethodReply::Single(Some("@
        + c.reply_params
        + "::__"@
        + c.reply_params
        + "VarlinkService("@
        + c.crate_path
        + "::varlink_service::Reply::InterfaceDescription(desc)))) } "@
}

/// The arm that answers with the description of an interface.
fn interface_arm_text(interface: &str, ctx: &HandleBodyContext<'_>) -> (r: String)
    ensures
        r@ == interface_arm(interface@, ctx@),
{
    let mut out = string_literal(interface).as_str().to_string();
    out.append(" => { let desc = ");
    out.append(ctx.crate_path);
    out.append("::varlink_service::InterfaceDescription::from(");
    out.append(const_name_text(ctx.service, interface).as_str());
    out.append("); ");
    out.append(ctx.crate_path);
    out.append("::service::MethodReply::Single(Some(");
    out.append(ctx.reply_params_name);
    out.append("::__");
    out.append(ctx.reply_params_name);
    out.append("VarlinkService(");
    out.append(ctx.crate_path);
    out.append("::varlink_service::Reply::InterfaceDescription(desc)))) } ");
    out
}

/// The arms that answer with the descriptions of the interfaces.
pub open spec fn interface_arms(c: ContextView) -> Seq<Seq<char>> {
    c.interfaces.map_values(|i: Seq<char>| interface_arm(i, c))
}

/// The string literals that name the interfaces.
pub open spec fn interface_names(c: ContextView) -> Seq<Seq<char>> {
    c.interfaces.map_values(|i: Seq<char>| super::literal_of(i))
}

/// The arms that answer with the descriptions of the interfaces, and the string literals that name
/// them.
fn interface_texts(ctx: &HandleBodyContext<'_>) -> (r: (Vec<String>, Vec<String>))
    ensures
        text::texts(r.0@) == interface_arms(ctx@),
        text::texts(r.1@) == interface_names(ctx@),
{
    let ghost c = ctx@;
    let mut arms: Vec<String> = Vec::new();
    let mut names: Vec<String> = Vec::new();
    let mut i: usize = 0;
    assert(text::texts(arms@) =~= interface_arms(c).take(0));
    assert(text::texts(names@) =~= interface_names(c).take(0));
    while i < ctx.interfaces.len()
        invariant
            i <= ctx.interfaces@.len(),
            c == ctx@,
            text::texts(arms@) == interface_arms(c).take(i as int),
            text::texts(names@) == interface_names(c).take(i as int),
        decreases ctx.interfaces@.len() - i,
    {
        let arm = interface_arm_text(ctx.interfaces[i].as_str(), ctx);
        let name = string_literal(ctx.interfaces[i].as_str());
        proof {
            text::lemma_texts_push(arms@, arm);
            text::lemma_texts_push(names@, name);
            assert(interface_arms(c).take(i + 1) =~= interface_arms(c).take(i as int).push(arm@));
            assert(interface_names(c).take(i + 1) =~= interface_names(c).take(i as int).push(
                name@,
            ));
        }
        arms.push(arm);
        names.push(name);
        i += 1;
    }
    assert(interface_arms(c).take(c.interfaces.len() as int) =~= interface_arms(c));
    assert(interface_names(c).take(c.interfaces.len() as int) =~= interface_names(c));
    (arms, names)
}

/// A text, or the empty one where there is none.
pub open spec fn or_empty(t: Option<Seq<char>>) -> Seq<char> {
    match t {
        Some(s) => s,
        None => ""@,
    }
}

/// The string literal of a text, or of the empty one where there is none.
fn literal_or_empty(t: &Option<String>) -> (r: String)
    ensures
        r@ == super::literal_of(or_empty(text::optional(*t))),
{
    match t {
        Some(s) => string_literal(s.as_str()),
        None => string_literal(""),
    }
}

/// The arm that answers the calls of the Varlink service: what the service is, and the descriptions
/// of its interfaces. An interface that it does not have is answered with an error.
pub open spec fn varlink_service_match(a: ServiceAttrsView, c: ContextView) -> Seq<char> {
    c.method_call
        + "::__VarlinkService(__varlink_method) => { match __varlink_method { "@
        + c.crate_path
        + "::varlink_service::Method::GetInfo => { let info = "@
        + c.crate_path
        + "::varlink_service::Info::new("@
        + super::literal_of(or_empty(a.vendor))
        + ", "@
        + super::literal_of(or_empty(a.product))
        + ", "@
        + super::literal_of(or_empty(a.version))
        + ", "@
        + super::literal_of(or_empty(a.url))
        + ", ::std::vec!["@
        + text::terminated(interface_names(c))
        + c.crate_path
        + "::varlink_service::INTERFACE_NAME, ], ); "@
        + c.crate_path
        + "::service::MethodReply::Single(Some("@
        + c.reply_params
        + "::__"@
        + c.reply_params
        + "VarlinkService("@
        + c.crate_path
        + "::varlink_service::Reply::Info(info)))) } "@
        + c.crate_path
        + "::varlink_service::Method::GetInterfaceDescription { interface } => { match *interface { "@
        + text::concatenated(interface_arms(c))
        + c.crate_path
        + "::varlink_service::INTERFACE_NAME => { let desc = "@
        + c.crate_path
        + "::varlink_service::InterfaceDescription::from("@
        + c.crate_path
        + "::varlink_service::DESCRIPTION); "@
        + c.crate_path
        + "::service::MethodReply::Single(Some("@
        + c.reply_params
        + "::__"@
        + c.reply_params
        + "VarlinkService("@
        + c.crate_path
        + "::varlink_service::Reply::InterfaceDescription(desc)))) } _ => { "@
        + c.crate_path
        + "::service::MethodReply::Error("@
        + c.reply_error
        + "::__"@
        + c.reply_error
        + "VarlinkService("@
        + c.crate_path
        + "::varlink_service::Error::InterfaceNotFound { interface: ::std::borrow::Cow::Borrowed(interface), })) } } } } } "@
}

/// The arm that answers the calls of the Varlink service.
fn varlink_service_match_text(
    service_attrs: &ServiceAttrs,
    ctx: &HandleBodyContext<'_>,
) -> (r: String)
    ensures
        r@ == varlink_service_match(service_attrs@, ctx@),
{
    let (arms, names) = interface_texts(ctx);
    let mut out = ctx.method_call_name.to_string();
    out.append("::__VarlinkService(__varlink_method) => { match __varlink_method { ");
    out.append(ctx.crate_path);
    out.append("::varlink_service::Method::GetInfo => { let info = ");
    out.append(ctx.crate_path);
    out.append("::varlink_service::Info::new(");
    out.append(literal_or_empty(&service_attrs.vendor).as_str());
    out.append(", ");
    out.append(literal_or_empty(&service_attrs.product).as_str());
    out.append(", ");
    out.append(literal_or_empty(&service_attrs.version).as_str());
    out.append(", ");
    out.append(literal_or_empty(&service_attrs.url).as_str());
    out.append(", ::std::vec![");
    out.append(terminate(&names).as_str());
    out.append(ctx.crate_path);
    out.append("::varlink_service::INTERFACE_NAME, ], ); ");
    out.append(ctx.crate_path);
    out.append("::service::MethodReply::Single(Some(");
    out.append(ctx.reply_params_name);
    out.append("::__");
    out.append(ctx.reply_params_name);
    out.append("VarlinkService(");
    out.append(ctx.crate_path);
    out.append("::varlink_service::Reply::Info(info)))) } ");
    out.append(ctx.crate_path);
    out.append("::varlink_service::Method::GetInterfaceDescription { interface } => { match *interface { ");
    out.append(concat(&arms).as_str());
    out.append(ctx.crate_path);
    out.append("::varlink_service::INTERFACE_NAME => { let desc = ");
    out.append(ctx.crate_path);
    out.append("::varlink_service::InterfaceDescription::from(");
    out.append(ctx.crate_path);
    out.append("::varlink_service::DESCRIPTION); ");
    out.append(ctx.crate_path);
    out.append("::service::MethodReply::Single(Some(");
    out.append(ctx.reply_params_name);
    out.append("::__");
    out.append(ctx.reply_params_name);
    out.append("VarlinkService(");
    out.append(ctx.crate_path);
    out.append("::varlink_service::Reply::InterfaceDescription(desc)))) } _ => { ");
    out.append(ctx.crate_path);
    out.append("::service::MethodReply::Error(");
    out.append(ctx.reply_error_name);
    out.append("::__");
    out.append(ctx.reply_error_name);
    out.append("VarlinkService(");
    out.append(ctx.crate_path);
    out.append("::varlink_service::Error::InterfaceNotFound { interface: ::std::borrow::Cow::Borrowed(interface), })) } } } } } ");
    out
}

/// Whether a method receives the connection.
pub open spec fn any_uses_connection(ms: Seq<MethodInfoView>) -> bool {
    exists|k: int| 0 <= k < ms.len() && #[trigger] ms[k].uses_connection()
}

/// Whether a method receives the connection.
fn uses_connection(methods_info: &[MethodInfo]) -> (r: bool)
    ensures
        r == any_uses_connection(method::methods_view(methods_info@)),
{
    let ghost ms = method::methods_view(methods_info@);
    let mut i: usize = 0;
    while i < methods_info.len()
        invariant
            i <= methods_info@.len(),
            ms == method::methods_view(methods_info@),
            forall|k: int| 0 <= k < i ==> !#[trigger] ms[k].uses_connection(),
        decreases methods_info@.len() - i,
    {
        assert(ms[i as int] == methods_info@[i as int]@);
        if methods_info[i].has_connection_param() {
            return true;
        }
        i += 1;
    }
    false
}

/// Whether calls or replies of a method carry file descriptors, or it replies with a stream, whose
/// items carry some.
pub open spec fn carries_fds(m: MethodInfoView) -> bool {
    m.is_streaming || m.return_fds || exists|k: int|
        0 <= k < m.params.len() && (#[trigger] m.params[k]).is_fds
}

/// Whether a method of the service carries file descriptors.
pub open spec fn any_carries_fds(ms: Seq<MethodInfoView>) -> bool {
    exists|k: int| 0 <= k < ms.len() && #[trigger] carries_fds(ms[k])
}

/// Whether a method carries file descriptors.
fn does_carry_fds(m: &MethodInfo) -> (r: bool)
    ensures
        r == carries_fds(m@),
{
    if m.is_streaming || m.return_fds {
        return true;
    }
    let mut i: usize = 0;
    while i < m.params.len()
        invariant
            i <= m.params@.len(),
            !m@.is_streaming && !m@.return_fds,
            forall|k: int| 0 <= k < i ==> !(#[trigger] m@.params[k]).is_fds,
        decreases m.params@.len() - i,
    {
        assert(m@.params[i as int] == m.params@[i as int]@);
        if m.params[i].is_fds {
            return true;
        }
        i += 1;
    }
    false
}

/// Whether a method of the service carries file descriptors.
pub(crate) fn any_method_carries_fds(methods_info: &[MethodInfo]) -> (r: bool)
    ensures
        r == any_carries_fds(method::methods_view(methods_info@)),
{
    let ghost ms = method::methods_view(methods_info@);
    let mut i: usize = 0;
    while i < methods_info.len()
        invariant
            i <= methods_info@.len(),
            ms == method::methods_view(methods_info@),
            forall|k: int| 0 <= k < i ==> !#[trigger] carries_fds(ms[k]),
        decreases methods_info@.len() - i,
    {
        assert(ms[i as int] == methods_info@[i as int]@);
        if does_carry_fds(&methods_info[i]) {
            return true;
        }
        i += 1;
    }
    false
}

/// What answers a call. Where no method receives the connection, it says that the connection is not
/// used.
pub open spec fn reply_body(ms: Seq<MethodInfoView>, a: ServiceAttrsView, c: ContextView) -> Seq<
    char,
> {
    let head = if any_uses_connection(ms) {
        "match __zlink_call.method() { "@
    } else {
        "let _ = __zlink_conn; match __zlink_call.method() { "@
    };
    head + varlink_service_match(a, c) + user_methods_match(ms, c) + "}"@
}

/// What answers a call.
fn reply_body_text(
    methods_info: &[MethodInfo],
    service_attrs: &ServiceAttrs,
    ctx: &HandleBodyContext<'_>,
) -> (r: String)
    ensures
        r@ == reply_body(method::methods_view(methods_info@), service_attrs@, ctx@),
{
    let mut out = if uses_connection(methods_info) {
        "match __zlink_call.method() { ".to_string()
    } else {
        "let _ = __zlink_conn; match __zlink_call.method() { ".to_string()
    };
    out.append(varlink_service_match_text(service_attrs, ctx).as_str());
    out.append(user_methods_match_text(methods_info, ctx).as_str());
    out.append("}");
    out
}

/// The body of the function that answers calls. Where file descriptors are carried, those that go
/// out stand beside the answer.
pub open spec fn handle_body(ms: Seq<MethodInfoView>, a: ServiceAttrsView, c: ContextView) -> Seq<
    char,
> {
    if any_carries_fds(ms) {
        "let _ = &mut __zlink_fds; let mut __zlink_out: ::std::vec::Vec<::std::os::fd::OwnedFd> = ::std::vec::Vec::new(); let __zlink_reply = { "@
            + reply_body(ms, a, c) + " }; (__zlink_reply, __zlink_out)"@
    } else {
        reply_body(ms, a, c)
    }
}

/// The body of the function that answers calls.
pub fn generate_handle_body(
    methods_info: &[MethodInfo],
    service_attrs: &ServiceAttrs,
    ctx: &HandleBodyContext<'_>,
) -> (r: String)
    ensures
        r@ == handle_body(method::methods_view(methods_info@), service_attrs@, ctx@),
{
    if any_method_carries_fds(methods_info) {
        let mut out = "let _ = &mut __zlink_fds; let mut __zlink_out: ::std::vec::Vec<::std::os::fd::OwnedFd> = ::std::vec::Vec::new(); let __zlink_reply = { ".to_string();
        out.append(reply_body_text(methods_info, service_attrs, ctx).as_str());
        out.append(" }; (__zlink_reply, __zlink_out)");
        out
    } else {
        reply_body_text(methods_info, service_attrs, ctx)
    }
}

} // verus!
