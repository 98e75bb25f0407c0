//! The code that the `service` macro generates, as text.

pub mod calls;
pub mod descriptions;
pub mod handle;
pub mod laws;
pub mod lifetimes;
pub mod replies;

use vstd::prelude::*;

use self::calls::generate_method_call_enum;
use self::descriptions::generate_interface_descriptions;
use self::handle::{
    any_method_carries_fds, generate_handle_body, ContextView, HandleBodyContext,
};
use self::lifetimes::put_lifetime;
use self::replies::{
    generate_reply_error_enum, generate_reply_params_enum, generate_stream_params_enum,
};
use super::attrs::{ServiceAttrs, ServiceAttrsView};
use super::method;
use super::method::{MethodInfo, MethodInfoView};
use super::types::{Type, TypeView};
use crate::introspect::str_eq;
use crate::text;
use crate::text::clone_optional;

verus! {

/// The string literal that stands for a text.
pub uninterp spec fn literal_of(s: Seq<char>) -> Seq<char>;

/// Calls [`proc_macro2::Literal::string`] and prints the literal, with proc_macro2's own
/// implementation of tokens, which [`proc_macro2::fallback::force`] puts in use: with it the literal
/// depends on the text alone.
#[verifier::external_body]
pub(crate) fn string_literal(s: &str) -> (r: String)
    ensures
        r@ == literal_of(s@),
{
    proc_macro2::fallback::force();
    proc_macro2::Literal::string(s).to_string()
}

/// A part of a method that several methods may share.
#[derive(Clone, Copy)]
pub enum Part {
    /// The interface.
    Interface,
    /// The type of replies.
    ReturnType,
    /// The type of errors.
    ErrorType,
    /// The type of the items of streams.
    StreamType,
}

/// A type of replies or errors, with the lifetime of the types that they are sent as.
pub open spec fn sent_type(t: Option<Seq<char>>) -> Option<Seq<char>> {
    match t {
        Some(t) => Some(lifetimes::with_lifetime(t, "'__ser"@)),
        None => None,
    }
}

/// A type of the items of streams: it must not borrow.
pub open spec fn stream_type(t: Option<Seq<char>>) -> Option<Seq<char>> {
    match t {
        Some(t) => Some(lifetimes::with_lifetime(t, "'static"@)),
        None => None,
    }
}

/// The part of a method.
pub open spec fn part_of(m: MethodInfoView, part: Part) -> Option<Seq<char>> {
    match part {
        Part::Interface => m.interface,
        Part::ReturnType => if m.is_streaming {
            None
        } else {
            sent_type(m.return_type)
        },
        Part::ErrorType => sent_type(m.error_type),
        Part::StreamType => if m.is_streaming {
            stream_type(m.return_type)
        } else {
            None
        },
    }
}

/// A type of replies or errors, with the lifetime of the types that they are sent as.
fn sent_type_text(t: &Option<String>) -> (r: Option<String>)
    ensures
        text::optional(r) == sent_type(text::optional(*t)),
{
    match t {
        Some(t) => Some(put_lifetime(t.as_str(), "'__ser")),
        None => None,
    }
}

/// The part of a method.
pub(crate) fn part_text(m: &MethodInfo, part: Part) -> (r: Option<String>)
    ensures
        text::optional(r) == part_of(m@, part),
{
    match part {
        Part::Interface => clone_optional(&m.interface),
        Part::ReturnType => if m.is_streaming {
            None
        } else {
            sent_type_text(&m.return_type)
        },
        Part::ErrorType => sent_type_text(&m.error_type),
        Part::StreamType => if m.is_streaming {
            match &m.return_type {
                Some(t) => Some(put_lifetime(t.as_str(), "'static")),
                None => None,
            }
        } else {
            None
        },
    }
}

/// The parts of the methods, each once, in the order in which they first occur.
pub open spec fn distinct(ms: Seq<MethodInfoView>, part: Part) -> Seq<Seq<char>>
    decreases ms.len(),
{
    if ms.len() == 0 {
        seq![]
    } else {
        let before = distinct(ms.drop_last(), part);
        match part_of(ms.last(), part) {
            Some(t) => if before.contains(t) {
                before
            } else {
                before.push(t)
            },
            None => before,
        }
    }
}

/// The first position from `i` on that holds `t`.
pub open spec fn find(list: Seq<Seq<char>>, t: Seq<char>, i: int) -> Option<int>
    decreases list.len() - i,
{
    if 0 <= i < list.len() {
        if list[i] == t {
            Some(i)
        } else {
            find(list, t, i + 1)
        }
    } else {
        None
    }
}

/// The number of the variant that holds the type `t`.
pub open spec fn variant_index(list: Seq<Seq<char>>, t: Seq<char>) -> nat {
    match find(list, t, 0) {
        Some(k) => k as nat,
        None => 0,
    }
}

/// The position of a text in a list.
pub(crate) fn find_text(list: &Vec<String>, t: &str) -> (r: Option<usize>)
    ensures
        match r {
            Some(k) => find(text::texts(list@), t@, 0) == Some(k as int),
            None => find(text::texts(list@), t@, 0) is None && !text::texts(list@).contains(t@),
        },
        r is Some ==> text::texts(list@).contains(t@),
{
    let ghost all = text::texts(list@);
    let mut i: usize = 0;
    while i < list.len()
        invariant
            i <= list@.len(),
            all == text::texts(list@),
            find(all, t@, 0) == find(all, t@, i as int),
            forall|k: int| 0 <= k < i ==> all[k] != t@,
        decreases list@.len() - i,
    {
        assert(all[i as int] == list@[i as int]@);
        if str_eq(list[i].as_str(), t) {
            return Some(i);
        }
        i += 1;
    }
    None
}

/// The number of the variant that holds the type `t`.
pub(crate) fn index_of_variant(list: &Vec<String>, t: &str) -> (r: usize)
    ensures
        r == variant_index(text::texts(list@), t@),
{
    match find_text(list, t) {
        Some(k) => k,
        None => 0,
    }
}

/// The parts of the methods, each once, in the order in which they first occur.
fn distinct_parts(methods_info: &[MethodInfo], part: Part) -> (r: Vec<String>)
    ensures
        text::texts(r@) == distinct(method::methods_view(methods_info@), part),
{
    let ghost ms = method::methods_view(methods_info@);
    let mut found: Vec<String> = Vec::new();
    let mut i: usize = 0;
    assert(text::texts(found@) =~= distinct(ms.take(0), part));
    while i < methods_info.len()
        invariant
            i <= methods_info@.len(),
            ms == method::methods_view(methods_info@),
            text::texts(found@) == distinct(ms.take(i as int), part),
        decreases methods_info@.len() - i,
    {
        proof {
            assert(ms.take(i + 1).drop_last() =~= ms.take(i as int));
            assert(ms.take(i + 1).last() == methods_info@[i as int]@);
        }
        if let Some(t) = part_text(&methods_info[i], part) {
            if find_text(&found, t.as_str()).is_none() {
                proof {
                    text::lemma_texts_push(found@, t);
                }
                found.push(t);
            }
        }
        i += 1;
    }
    assert(ms.take(ms.len() as int) =~= ms);
    found
}

/// The interfaces of the methods.
pub fn collect_interfaces(methods_info: &[MethodInfo]) -> (r: Vec<String>)
    ensures
        text::texts(r@) == distinct(method::methods_view(methods_info@), Part::Interface),
{
    distinct_parts(methods_info, Part::Interface)
}

/// The types of replies, each at the number of its variant.
pub fn build_return_type_variant_map(methods_info: &[MethodInfo]) -> (r: Vec<String>)
    ensures
        text::texts(r@) == distinct(method::methods_view(methods_info@), Part::ReturnType),
{
    distinct_parts(methods_info, Part::ReturnType)
}

/// The types of errors, each at the number of its variant.
pub fn build_error_type_variant_map(methods_info: &[MethodInfo]) -> (r: Vec<String>)
    ensures
        text::texts(r@) == distinct(method::methods_view(methods_info@), Part::ErrorType),
{
    distinct_parts(methods_info, Part::ErrorType)
}

/// The types of the items of streams, each at the number of its variant.
pub fn build_stream_type_variant_map(methods_info: &[MethodInfo]) -> (r: Vec<String>)
    ensures
        text::texts(r@) == distinct(method::methods_view(methods_info@), Part::StreamType),
{
    distinct_parts(methods_info, Part::StreamType)
}

/// No part is listed twice, and those that are listed are the parts of the methods.
pub proof fn law_parts_are_listed_once(ms: Seq<MethodInfoView>, part: Part)
    ensures
        distinct(ms, part).no_duplicates(),
        forall|t: Seq<char>|
            #[trigger] distinct(ms, part).contains(t) <==> exists|k: int|
                0 <= k < ms.len() && #[trigger] part_of(ms[k], part) == Some(t),
    decreases ms.len(),
{
    if ms.len() > 0 {
        let init = ms.drop_last();
        law_parts_are_listed_once(init, part);
        let before = distinct(init, part);
        let all = distinct(ms, part);
        assert forall|t: Seq<char>| #[trigger] all.contains(t) implies exists|k: int|
            0 <= k < ms.len() && #[trigger] part_of(ms[k], part) == Some(t) by {
            let j = choose|j: int| 0 <= j < all.len() && all[j] == t;
            if j < before.len() {
                assert(before.contains(before[j]));
                let k = choose|k: int|
                    0 <= k < init.len() && #[trigger] part_of(init[k], part) == Some(t);
                assert(part_of(ms[k], part) == Some(t));
            } else {
                assert(part_of(ms[ms.len() - 1], part) == Some(t));
            }
        }
        assert forall|t: Seq<char>|
            (exists|k: int| 0 <= k < ms.len() && #[trigger] part_of(ms[k], part) == Some(
                t,
            )) implies #[trigger] all.contains(t) by {
            let k = choose|k: int|
                0 <= k < ms.len() && #[trigger] part_of(ms[k], part) == Some(t);
            if k < init.len() {
                assert(part_of(init[k], part) == Some(t));
                assert(before.contains(t));
            }
            if before.contains(t) {
                let j = choose|j: int| 0 <= j < before.len() && before[j] == t;
                assert(all[j] == t);
            } else {
                assert(all[all.len() - 1] == t);
            }
        }
        assert(all.no_duplicates()) by {
            assert forall|i: int, j: int|
                0 <= i < all.len() && 0 <= j < all.len() && i != j implies all[i] != all[j] by {
                if i < before.len() && j < before.len() {
                    assert(before[i] != before[j]);
                } else if i < before.len() {
                    assert(before.contains(before[i]));
                } else if j < before.len() {
                    assert(before.contains(before[j]));
                }
            }
        }
    }
}

proof fn lemma_find(list: Seq<Seq<char>>, t: Seq<char>, i: int)
    requires
        0 <= i,
        exists|k: int| i <= k < list.len() && list[k] == t,
    ensures
        find(list, t, i) matches Some(k) && i <= k < list.len() && list[k] == t,
    decreases list.len() - i,
{
    if list[i] != t {
        let k = choose|k: int| i <= k < list.len() && list[k] == t;
        assert(i + 1 <= k);
        lemma_find(list, t, i + 1);
    }
}

/// The variant that a method's type is sent in is the one that holds that type.
pub proof fn law_every_type_has_its_variant(
    ms: Seq<MethodInfoView>,
    part: Part,
    k: int,
    t: Seq<char>,
)
    requires
        0 <= k < ms.len(),
        part_of(ms[k], part) == Some(t),
    ensures
        variant_index(distinct(ms, part), t) < distinct(ms, part).len(),
        distinct(ms, part)[variant_index(distinct(ms, part), t) as int] == t,
{
    law_parts_are_listed_once(ms, part);
    assert(distinct(ms, part).contains(t));
    lemma_find(distinct(ms, part), t, 0);
}

/// Methods that are added behind others leave the variants of those as they are.
pub proof fn law_more_methods_keep_the_variants(
    ms: Seq<MethodInfoView>,
    more: Seq<MethodInfoView>,
    part: Part,
)
    ensures
        distinct(ms, part).is_prefix_of(distinct(ms + more, part)),
    decreases more.len(),
{
    if more.len() == 0 {
        assert(ms + more =~= ms);
    } else {
        assert((ms + more).drop_last() =~= ms + more.drop_last());
        assert((ms + more).last() == more.last());
        law_more_methods_keep_the_variants(ms, more.drop_last(), part);
    }
}

/// A parameter in the angle brackets of an impl block.
#[derive(Debug)]
pub enum GenericParam {
    /// A type, by its identifier.
    Type(String),
    /// A lifetime or a constant.
    Other,
}

/// The impl block of a service, as far as the macro looks at it.
#[derive(Debug)]
pub struct ItemImpl {
    /// The type of the service.
    pub self_ty: Type,
    /// The parameters in the angle brackets of the impl block.
    pub params: Vec<GenericParam>,
    /// The tokens of those brackets.
    pub generics: String,
    /// The tokens of the predicates behind `where`.
    pub predicates: String,
}

/// The generics of the generated impl block.
pub struct SocketGenerics {
    /// The identifier of the type of sockets.
    pub socket: String,
    /// The tokens of the angle brackets.
    pub generics: String,
    /// The tokens of the predicates behind `where`.
    pub predicates: String,
}

/// The model of [`SocketGenerics`].
pub struct SocketGenericsView {
    /// The identifier of the type of sockets.
    pub socket: Seq<char>,
    /// The tokens of the angle brackets.
    pub generics: Seq<char>,
    /// The tokens of the predicates behind `where`.
    pub predicates: Seq<char>,
}

impl View for SocketGenerics {
    type V = SocketGenericsView;

    open spec fn view(&self) -> SocketGenericsView {
        SocketGenericsView {
            socket: self.socket@,
            generics: self.generics@,
            predicates: self.predicates@,
        }
    }
}

/// The first type among the parameters from `i` on.
pub open spec fn first_type_param(params: Seq<GenericParam>, i: int) -> Option<Seq<char>>
    decreases params.len() - i,
{
    if 0 <= i < params.len() {
        match params[i] {
            GenericParam::Type(ident) => Some(ident@),
            GenericParam::Other => first_type_param(params, i + 1),
        }
    } else {
        None
    }
}

/// The generics of the generated impl block: those of the service, whose first type is the type of
/// sockets, or else that type alone.
pub open spec fn socket_generics(item: ItemImpl) -> SocketGenericsView {
    match first_type_param(item.params@, 0) {
        Some(socket) => SocketGenericsView {
            socket,
            generics: item.generics@,
            predicates: item.predicates@,
        },
        None => SocketGenericsView {
            socket: "__ZlinkSock"@,
            generics: "<__ZlinkSock>"@,
            predicates: ""@,
        },
    }
}

/// The generics of the generated impl block.
fn extract_socket_generics(item_impl: &ItemImpl) -> (r: SocketGenerics)
    ensures
        r@ == socket_generics(*item_impl),
{
    let mut i: usize = 0;
    while i < item_impl.params.len()
        invariant
            i <= item_impl.params@.len(),
            first_type_param(item_impl.params@, 0) == first_type_param(
                item_impl.params@,
                i as int,
            ),
        decreases item_impl.params@.len() - i,
    {
        if let GenericParam::Type(ident) = &item_impl.params[i] {
            return SocketGenerics {
                socket: ident.clone(),
                generics: item_impl.generics.clone(),
                predicates: item_impl.predicates.clone(),
            };
        }
        i += 1;
    }
    SocketGenerics {
        socket: "__ZlinkSock".to_string(),
        generics: "<__ZlinkSock>".to_string(),
        predicates: "".to_string(),
    }
}

/// The name of a type: the last identifier of its path.
pub open spec fn type_ident(ty: TypeView) -> Option<Seq<char>> {
    match ty.last_segment {
        Some(segment) => Some(segment.ident),
        None => None,
    }
}

/// The name of a type.
pub fn extract_type_ident(ty: &Type) -> (r: Option<String>)
    ensures
        text::optional(r) == type_ident(ty@),
{
    match &ty.last_segment {
        Some(segment) => Some(segment.ident.clone()),
        None => None,
    }
}

/// The name of the type of all methods.
pub open spec fn method_call_name(service: Seq<char>) -> Seq<char> {
    "__"@
        + service
        + "MethodCall"@
}

/// The name of the type of all methods.
fn method_call_name_text(service: &str) -> (r: String)
    ensures
        r@ == method_call_name(service@),
{
    let mut out = "__".to_string();
    out.append(service);
    out.append("MethodCall");
    out
}

/// The name of the type of the service's own methods.
pub open spec fn user_methods_name(service: Seq<char>) -> Seq<char> {
    "__"@
        + service
        + "UserMethods"@
}

/// The name of the type of the service's own methods.
fn user_methods_name_text(service: &str) -> (r: String)
    ensures
        r@ == user_methods_name(service@),
{
    let mut out = "__".to_string();
    out.append(service);
    out.append("UserMethods");
    out
}

/// The name of the type of replies.
pub open spec fn reply_params_name(service: Seq<char>) -> Seq<char> {
    "__"@
        + service
        + "ReplyParams"@
}

/// The name of the type of replies.
fn reply_params_name_text(service: &str) -> (r: String)
    ensures
        r@ == reply_params_name(service@),
{
    let mut out = "__".to_string();
    out.append(service);
    out.append("ReplyParams");
    out
}

/// The name of the type of errors.
pub open spec fn reply_error_name(service: Seq<char>) -> Seq<char> {
    "__"@
        + service
        + "ReplyError"@
}

/// The name of the type of errors.
fn reply_error_name_text(service: &str) -> (r: String)
    ensures
        r@ == reply_error_name(service@),
{
    let mut out = "__".to_string();
    out.append(service);
    out.append("ReplyError");
    out
}

/// The name of the type of the items of streams.
pub open spec fn stream_params_name(service: Seq<char>) -> Seq<char> {
    "__"@
        + service
        + "ReplyStreamParams"@
}

/// The name of the type of the items of streams.
fn stream_params_name_text(service: &str) -> (r: String)
    ensures
        r@ == stream_params_name(service@),
{
    let mut out = "__".to_string();
    out.append(service);
    out.append("ReplyStreamParams");
    out
}

/// The types of streams and of their items: where file descriptors are carried, they stand beside
/// each item.
pub open spec fn stream_types(ms: Seq<MethodInfoView>, crate_path: Seq<char>, s: Seq<char>) -> Seq<
    char,
> {
    if distinct(ms, Part::StreamType).len() > 0 {
        "::core::pin::Pin<::std::boxed::Box<dyn ::futures_util::Stream<Item = ("@ + crate_path
            + "::Reply<"@ + stream_params_name(s)
            + ">, ::std::vec::Vec<::std::os::fd::OwnedFd>)>>>; type ReplyStreamParams = "@
            + stream_params_name(s) + ";"@
    } else if handle::any_carries_fds(ms) {
        "::futures_util::stream::Empty<("@ + crate_path
            + "::Reply<()>, ::std::vec::Vec<::std::os::fd::OwnedFd>)>; type ReplyStreamParams = ();"@
    } else {
        "::futures_util::stream::Empty<"@ + crate_path
            + "::Reply<()>>; type ReplyStreamParams = ();"@
    }
}

/// The types of streams and of their items, `types` being the types of items.
fn stream_types_text(
    methods_info: &[MethodInfo],
    types: &Vec<String>,
    crate_path: &str,
    service: &str,
) -> (r: String)
    requires
        text::texts(types@) == distinct(method::methods_view(methods_info@), Part::StreamType),
    ensures
        r@ == stream_types(method::methods_view(methods_info@), crate_path@, service@),
{
    assert(text::texts(types@).len() == types@.len());
    if types.len() > 0 {
        let mut out = "::core::pin::Pin<::std::boxed::Box<dyn ::futures_util::Stream<Item = (".to_string();
        out.append(crate_path);
        out.append("::Reply<");
        out.append(stream_params_name_text(service).as_str());
        out.append(">, ::std::vec::Vec<::std::os::fd::OwnedFd>)>>>; type ReplyStreamParams = ");
        out.append(stream_params_name_text(service).as_str());
        out.append(";");
        out
    } else if any_method_carries_fds(methods_info) {
        let mut out = "::futures_util::stream::Empty<(".to_string();
        out.append(crate_path);
        out.append("::Reply<()>, ::std::vec::Vec<::std::os::fd::OwnedFd>)>; type ReplyStreamParams = ();");
        out
    } else {
        let mut out = "::futures_util::stream::Empty<".to_string();
        out.append(crate_path);
        out.append("::Reply<()>>; type ReplyStreamParams = ();");
        out
    }
}

/// Where there are streams, file descriptors are carried: the items of streams and the answers to
/// calls then have theirs beside them alike.
pub proof fn law_streams_carry_descriptors(ms: Seq<MethodInfoView>)
    requires
        distinct(ms, Part::StreamType).len() > 0,
    ensures
        handle::any_carries_fds(ms),
{
    law_parts_are_listed_once(ms, Part::StreamType);
    let t = distinct(ms, Part::StreamType)[0];
    assert(distinct(ms, Part::StreamType).contains(t));
    let k = choose|k: int|
        0 <= k < ms.len() && #[trigger] part_of(ms[k], Part::StreamType) == Some(t);
    assert(handle::carries_fds(ms[k]));
}

/// The parameter that file descriptors come in, and the start of the type of answers: where file
/// descriptors are carried, those that go out stand beside the answer.
pub open spec fn answer_start(carries: bool) -> Seq<char> {
    if carries {
        "mut __zlink_fds: ::std::vec::Vec<::std::os::fd::OwnedFd>, ) -> ("@
    } else {
        ") -> "@
    }
}

/// The end of the type of answers.
pub open spec fn answer_end(carries: bool) -> Seq<char> {
    if carries {
        ", ::std::vec::Vec<::std::os::fd::OwnedFd>) { "@
    } else {
        " { "@
    }
}

/// The name of the service: that of its type, where that has one.
pub open spec fn service_name(self_ty: TypeView) -> Seq<char> {
    match type_ident(self_ty) {
        Some(name) => name,
        None => "Service"@,
    }
}

/// The names that the body of the function that answers calls speaks of.
pub open spec fn context(ms: Seq<MethodInfoView>, a: ServiceAttrsView, s: Seq<char>) -> ContextView {
    ContextView {
        crate_path: a.crate_path,
        method_call: method_call_name(s),
        user_methods: user_methods_name(s),
        reply_params: reply_params_name(s),
        reply_error: reply_error_name(s),
        stream_params: stream_params_name(s),
        stream_types: distinct(ms, Part::StreamType),
        error_types: distinct(ms, Part::ErrorType),
        interfaces: distinct(ms, Part::Interface),
        service: s,
    }
}

/// The implementation of the trait that makes a type a service.
pub open spec fn trait_impl(
    self_ty: TypeView,
    g: SocketGenericsView,
    ms: Seq<MethodInfoView>,
    a: ServiceAttrsView,
    s: Seq<char>,
) -> Seq<char> {
    "impl "@
        + g.generics
        + " "@
        + a.crate_path
        + "::Service<"@
        + g.socket
        + "> for "@
        + self_ty.text
        + " where "@
        + g.socket
        + ": "@
        + a.crate_path
        + "::connection::Socket, "@
        + g.predicates
        + " { type MethodCall<'de> = "@
        + method_call_name(s)
        + "<'de>; type ReplyParams<'ser> = "@
        + reply_params_name(s)
        + "<'ser> where Self: 'ser; type ReplyStream = "@
        + stream_types(ms, a.crate_path, s)
        + " type ReplyError<'ser> = "@
        + reply_error_name(s)
        + "<'ser> where Self: 'ser; "@
        + "async fn handle<'__zlink_ser>( &'__zlink_ser mut self, __zlink_call: &'__zlink_ser "@
        + a.crate_path
        + "::Call<Self::MethodCall<'_>>, __zlink_conn: &mut "@
        + a.crate_path
        + "::Connection<"@
        + g.socket
        + ">, "@
        + answer_start(handle::any_carries_fds(ms))
        + a.crate_path
        + "::service::MethodReply< Self::ReplyParams<'__zlink_ser>, Self::ReplyStream, Self::ReplyError<'__zlink_ser>, >"@
        + answer_end(handle::any_carries_fds(ms))
        + handle::handle_body(ms, a, context(ms, a, s))
        + " } }"@
}

/// All that is generated for a service: the descriptions of its interfaces, the types of calls,
/// replies and errors, and the implementation of the trait.
pub open spec fn service_impl(
    self_ty: TypeView,
    g: SocketGenericsView,
    ms: Seq<MethodInfoView>,
    a: ServiceAttrsView,
) -> Seq<char> {
    let s = service_name(self_ty);
    text::concatenated(
        descriptions::descriptions(
            ms,
            a.custom_types,
            distinct(ms, Part::Interface),
            a.crate_path,
            s,
        ),
    ) + calls::method_call_enum(ms, method_call_name(s), user_methods_name(s), a.crate_path)
        + replies::reply_params_enum(ms, method_call_name(s), reply_params_name(s), a.crate_path)
        + replies::reply_error_enum(ms, reply_error_name(s), a.crate_path)
        + replies::stream_params_enum(ms, stream_params_name(s)) + trait_impl(
        self_ty,
        g,
        ms,
        a,
        s,
    )
}

/// All that is generated for a service.
pub fn generate_service_impl(
    item_impl: &ItemImpl,
    methods_info: &[MethodInfo],
    service_attrs: &ServiceAttrs,
) -> (r: String)
    ensures
        r@ == service_impl(
            item_impl.self_ty@,
            socket_generics(*item_impl),
            method::methods_view(methods_info@),
            service_attrs@,
        ),
{
    let crate_path = service_attrs.crate_path.as_str();
    let service = match extract_type_ident(&item_impl.self_ty) {
        Some(name) => name,
        None => "Service".to_string(),
    };
    let method_call = method_call_name_text(service.as_str());
    let user_methods = user_methods_name_text(service.as_str());
    let reply_params = reply_params_name_text(service.as_str());
    let reply_error = reply_error_name_text(service.as_str());
    let interfaces = collect_interfaces(methods_info);
    let calls = generate_method_call_enum(
        methods_info,
        method_call.as_str(),
        user_methods.as_str(),
        crate_path,
    );
    let replies = generate_reply_params_enum(
        methods_info,
        method_call.as_str(),
        reply_params.as_str(),
        crate_path,
    );
    let (errors, error_types) = generate_reply_error_enum(
        methods_info,
        reply_error.as_str(),
        crate_path,
    );
    let stream_params = stream_params_name_text(service.as_str());
    let (streams, stream_types) = generate_stream_params_enum(
        methods_info,
        stream_params.as_str(),
    );
    let carries = any_method_carries_fds(methods_info);
    let descriptions = generate_interface_descriptions(
        methods_info,
        service_attrs,
        &interfaces,
        crate_path,
        service.as_str(),
    );
    let ctx = HandleBodyContext {
        crate_path,
        method_call_name: method_call.as_str(),
        user_methods_name: user_methods.as_str(),
        reply_params_name: reply_params.as_str(),
        reply_error_name: reply_error.as_str(),
        stream_params_name: stream_params.as_str(),
        stream_types: &stream_types,
        error_types: &error_types,
        interfaces: &interfaces,
        service: service.as_str(),
    };
    let handle_body = generate_handle_body(methods_info, service_attrs, &ctx);
    let g = extract_socket_generics(item_impl);
    let mut trait_impl = "impl ".to_string();
    trait_impl.append(g.generics.as_str());
    trait_impl.append(" ");
    trait_impl.append(crate_path);
    trait_impl.append("::Service<");
    trait_impl.append(g.socket.as_str());
    trait_impl.append("> for ");
    trait_impl.append(item_impl.self_ty.text.as_str());
    trait_impl.append(" where ");
    trait_impl.append(g.socket.as_str());
    trait_impl.append(": ");
    trait_impl.append(crate_path);
    trait_impl.append("::connection::Socket, ");
    trait_impl.append(g.predicates.as_str());
    trait_impl.append(" { type MethodCall<'de> = ");
    trait_impl.append(method_call.as_str());
    trait_impl.append("<'de>; type ReplyParams<'ser> = ");
    trait_impl.append(reply_params.as_str());
    trait_impl.append("<'ser> where Self: 'ser; type ReplyStream = ");
    trait_impl.append(
        stream_types_text(methods_info, &stream_types, crate_path, service.as_str()).as_str(),
    );
    trait_impl.append(" type ReplyError<'ser> = ");
    trait_impl.append(reply_error.as_str());
    trait_impl.append("<'ser> where Self: 'ser; ");
    trait_impl.append("async fn handle<'__zlink_ser>( &'__zlink_ser mut self, __zlink_call: &'__zlink_ser ");
    trait_impl.append(crate_path);
    trait_impl.append("::Call<Self::MethodCall<'_>>, __zlink_conn: &mut ");
    trait_impl.append(crate_path);
    trait_impl.append("::Connection<");
    trait_impl.append(g.socket.as_str());
    trait_impl.append(">, ");
    if carries {
        trait_impl.append("mut __zlink_fds: ::std::vec::Vec<::std::os::fd::OwnedFd>, ) -> (");
    } else {
        trait_impl.append(") -> ");
    }
    trait_impl.append(crate_path);
    trait_impl.append("::service::MethodReply< Self::ReplyParams<'__zlink_ser>, Self::ReplyStream, Self::ReplyError<'__zlink_ser>, >");
    if carries {
        trait_impl.append(", ::std::vec::Vec<::std::os::fd::OwnedFd>) { ");
    } else {
        trait_impl.append(" { ");
    }
    trait_impl.append(handle_body.as_str());
    trait_impl.append(" } }");
    let mut out = descriptions;
    out.append(calls.as_str());
    out.append(replies.as_str());
    out.append(errors.as_str());
    out.append(streams.as_str());
    out.append(trait_impl.as_str());
    out
}

/// The methods that the service answers: those that belong to an interface.
pub open spec fn served(ms: Seq<MethodInfoView>) -> Seq<MethodInfoView>
    decreases ms.len(),
{
    if ms.len() == 0 {
        seq![]
    } else if ms.last().interface is Some {
        served(ms.drop_last()).push(ms.last())
    } else {
        served(ms.drop_last())
    }
}

/// Every method that the service answers has one variant that its calls are read into and one arm
/// that answers them, in the same order.
pub proof fn law_every_variant_is_answered(
    ms: Seq<MethodInfoView>,
    types: Seq<Seq<char>>,
    c: ContextView,
)
    ensures
        calls::variants(ms) == served(ms).map_values(
            |m: MethodInfoView| calls::variant(m, m.full_path()->0),
        ),
        handle::arms(ms, types, c) == served(ms).map_values(
            |m: MethodInfoView| handle::arm(m, types, c),
        ),
    decreases ms.len(),
{
    let v = |m: MethodInfoView| calls::variant(m, m.full_path()->0);
    let a = |m: MethodInfoView| handle::arm(m, types, c);
    if ms.len() > 0 {
        law_every_variant_is_answered(ms.drop_last(), types, c);
    }
    assert(calls::variants(ms) =~= served(ms).map_values(v));
    assert(handle::arms(ms, types, c) =~= served(ms).map_values(a));
}

} // verus!
