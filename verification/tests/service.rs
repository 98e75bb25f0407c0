use quote::ToTokens;
use zlink::macros::meta::{Attribute, AttributeArgs, MetaForm, MetaItem, MetaValue};
use zlink::macros::nested::{find_text, read_entries, Entry, Nested};
use zlink::macros::service::attrs::ServiceAttrs;
use zlink::macros::service::codegen::calls::generate_method_call_enum;
use zlink::macros::service::codegen::descriptions::generate_interface_descriptions;
use zlink::macros::service::codegen::handle::{generate_handle_body, HandleBodyContext};
use zlink::macros::service::codegen::lifetimes::put_lifetime;
use zlink::macros::service::codegen::replies::{
    generate_reply_error_enum, generate_reply_params_enum, generate_stream_params_enum,
};
use zlink::macros::service::codegen::{
    build_error_type_variant_map, build_return_type_variant_map, build_stream_type_variant_map,
    collect_interfaces, extract_type_ident, generate_service_impl, GenericParam, ItemImpl,
};
use zlink::macros::service::method::{
    extract_output, extract_param_attrs, extract_result_types, snake_case_to_pascal_case,
    ImplMethod, MethodAttrs, MethodInfo, ParamAttrs,
};
use zlink::macros::service::types::{
    BoundType, FnArg, GenericArg, ParamInfo, Segment, Type, TypedArg,
};

fn attr(path: &str, tokens: &str) -> Attribute {
    Attribute { path: Some(path.to_string()), args: AttributeArgs::List(tokens.to_string()) }
}

fn ty(text: &str, ident: &str) -> Type {
    path(text, Segment { ident: ident.to_string(), args: None })
}

fn path(text: &str, last_segment: Segment) -> Type {
    Type { last_segment: Some(last_segment), ..plain(text) }
}

fn plain(text: &str) -> Type {
    Type { text: text.to_string(), last_segment: None, first_of_pair: None, bound_types: vec![] }
}

fn pair(text: &str, first: Type) -> Type {
    Type { first_of_pair: Some(Box::new(first)), ..plain(text) }
}

fn stream(text: &str, item: Type) -> Type {
    Type { bound_types: vec![bound_type("Stream", "Item", item)], ..plain(text) }
}

fn bound_type(bound: &str, name: &str, ty: Type) -> BoundType {
    BoundType { bound: bound.to_string(), name: name.to_string(), ty }
}

fn reply_of(text: &str, inner: &str) -> Type {
    let arg = GenericArg::Type { text: inner.to_string(), unit: false };
    path(text, Segment { ident: "Reply".to_string(), args: Some(vec![arg]) })
}

fn result_of(text: &str, ok: &str, err: &str) -> Type {
    let arg = |t: &str| GenericArg::Type { text: t.to_string(), unit: t == "()" };
    path(text, Segment { ident: "Result".to_string(), args: Some(vec![arg(ok), arg(err)]) })
}

fn arg(name: &str, ty: &str, attrs: Vec<Attribute>) -> FnArg {
    FnArg::Typed(TypedArg { ident: Some(name.to_string()), ty: ty.to_string(), attrs })
}

fn method(name: &str, attrs: Vec<Attribute>, args: Vec<FnArg>, output: Option<Type>) -> ImplMethod {
    let mut inputs = vec![FnArg::Receiver];
    inputs.extend(args);
    ImplMethod { name: name.to_string(), attrs, inputs, output, body: "{ body() }".to_string() }
}

fn extract_all(methods: Vec<ImplMethod>, interface: Option<&str>) -> Vec<MethodInfo> {
    let mut current = interface.map(|i| i.to_string());
    let mut infos = vec![];
    for mut m in methods {
        infos.push(MethodInfo::extract(&mut m, &mut current).unwrap());
    }
    infos
}

fn bank() -> Vec<MethodInfo> {
    extract_all(
        vec![
            method(
                "get_balance",
                vec![attr("zlink", "interface = \"org.example.bank\"")],
                vec![],
                Some(ty("Balance", "Balance")),
            ),
            method(
                "deposit",
                vec![],
                vec![arg("amount", "i64", vec![])],
                Some(result_of("Result < Balance , BankError >", "Balance", "BankError")),
            ),
            method(
                "lock_account",
                vec![],
                vec![],
                Some(result_of("Result < () , BankError >", "()", "BankError")),
            ),
        ],
        None,
    )
}

fn item(name: &str) -> ItemImpl {
    ItemImpl {
        self_ty: ty(name, name),
        params: vec![],
        generics: String::new(),
        predicates: String::new(),
    }
}

#[test]
fn service_attributes_default() {
    let attrs = ServiceAttrs::parse("").unwrap();
    assert_eq!(attrs.crate_path, "::zlink");
    assert_eq!(attrs.interface, None);
    assert!(attrs.custom_types.is_empty());
    assert_eq!(attrs.vendor, None);
}

#[test]
fn service_attributes_are_read() {
    let attrs = ServiceAttrs::parse(
        "interface = \"org.example.metadata\", vendor = \"Test Vendor\", product = \"Test Product\", \
         version = \"1.0.0\", url = \"https://example.com\", types = [Balance, a::B<C, D>], \
         crate = \"crate :: x\"",
    )
    .unwrap();
    assert_eq!(attrs.interface.as_deref(), Some("org.example.metadata"));
    assert_eq!(attrs.vendor.as_deref(), Some("Test Vendor"));
    assert_eq!(attrs.product.as_deref(), Some("Test Product"));
    assert_eq!(attrs.version.as_deref(), Some("1.0.0"));
    assert_eq!(attrs.url.as_deref(), Some("https://example.com"));
    assert_eq!(attrs.custom_types.len(), 2);
    assert_eq!(attrs.custom_types[0], "Balance");
    assert_eq!(attrs.custom_types[1].replace(' ', ""), "a::B<C,D>");
    assert_eq!(attrs.crate_path.replace(' ', ""), "crate::x");
}

#[test]
fn wrong_service_attributes_are_explained() {
    let tail = ". Expected: #[service] or #[service(crate = \"path\")]";
    let cases = [
        ("color = \"red\"", "unsupported service attribute"),
        ("crate = 5", "expected string literal"),
        ("types = \"A\"", "expected square brackets"),
        ("types(A)", "expected `=`"),
        ("types", "expected `=`"),
        ("types =", "unexpected end of input, expected square brackets"),
        ("types = [A] b", "expected `,`"),
        ("type = \"A\"", "unsupported service attribute"),
        ("color = 1 + ", "unsupported service attribute"),
        ("vendor =", "unexpected end of input, expected string literal"),
        ("\"x\"", "unexpected literal in nested attribute, expected ident"),
        ("vendor = 1", "expected string literal"),
        ("vendor", "expected `=`"),
    ];
    for (tokens, problem) in cases {
        let err = ServiceAttrs::parse(tokens).unwrap_err();
        assert_eq!(err, format!("failed to parse service attributes: {problem}{tail}"));
    }
    let err = ServiceAttrs::parse("crate = \"]\"").unwrap_err();
    assert!(err.starts_with("failed to parse service attributes: "));
    assert!(err.ends_with(tail));
    let err = ServiceAttrs::parse("crate = \"a\" b").unwrap_err();
    assert_eq!(err, format!("failed to parse service attributes: expected `,`{tail}"));
}

#[test]
fn later_service_attribute_counts() {
    let entry = |value: Result<&str, &str>| Entry {
        key: Some("vendor".to_string()),
        text: value.map(str::to_string).map_err(str::to_string),
        list: Err("no list".to_string()),
    };
    let nested = Nested { entries: vec![entry(Ok("a")), entry(Ok("b"))], error: None };
    assert_eq!(ServiceAttrs::from_nested(nested).unwrap().vendor.as_deref(), Some("b"));
    let nested = Nested { entries: vec![entry(Ok("a"))], error: Some("bad".to_string()) };
    assert!(ServiceAttrs::from_nested(nested).unwrap_err().contains(": bad. "));
    let nested = Nested { entries: vec![entry(Err("worse"))], error: Some("bad".to_string()) };
    assert!(ServiceAttrs::from_nested(nested).unwrap_err().contains(": worse. "));
}

#[test]
fn entries_are_read_one_by_one() {
    let nested =
        read_entries("a = \"x\\ty\", type, b::c(1, 2), d = [E<F, G>], h = i::<J, K>(), l");
    assert_eq!(nested.error, None);
    let keys: Vec<_> = nested.entries.iter().map(|e| e.key.as_deref()).collect();
    assert_eq!(keys, [Some("a"), Some("type"), None, Some("d"), Some("h"), Some("l")]);
    assert_eq!(nested.entries[0].text.as_deref(), Ok("x\ty"));
    assert_eq!(nested.entries[1].text.as_deref().unwrap_err(), "expected `=`");
    assert_eq!(nested.entries[3].text.as_deref().unwrap_err(), "expected string literal");
    assert_eq!(nested.entries[3].list.as_ref().unwrap().replace(' ', ""), "E<F,G>");
    assert!(read_entries("").entries.is_empty());
    assert_eq!(read_entries("a = \"x\",").error, None);
    let nested = read_entries("a = \"x\" b, c");
    assert_eq!(nested.entries.len(), 1);
    assert_eq!(nested.entries[0].text.as_deref().unwrap_err(), "expected `,`");
    assert!(nested.error.is_some());
    assert_eq!(read_entries("a b").error.as_deref(), Some("expected `,`"));
    assert_eq!(
        read_entries("a, 5").error.as_deref(),
        Some("unexpected literal in nested attribute, expected ident")
    );
    assert_eq!(
        find_text(&vec![], 0, Ok("x".to_string())).unwrap_err(),
        "expected `=`"
    );
}

#[test]
fn method_attributes_are_taken_off() {
    let mut attrs = vec![
        attr("doc", "x"),
        attr("zlink", "interface = \"org.example.a\""),
        attr("inline", ""),
        attr("zlink", "rename = \"Other\""),
        Attribute { path: Some("zlink".to_string()), args: AttributeArgs::Absent },
        attr("zlink", ""),
    ];
    let found = MethodAttrs::extract(&mut attrs).unwrap();
    assert_eq!(found.interface.as_deref(), Some("org.example.a"));
    assert_eq!(found.rename.as_deref(), Some("Other"));
    let left: Vec<_> = attrs.iter().map(|a| a.path.clone().unwrap()).collect();
    assert_eq!(left, ["doc", "inline"]);
}

#[test]
fn wrong_method_attributes_stay() {
    let cases = [
        ("interface = 5", "interface value must be a string literal"),
        ("rename = foo()", "rename value must be a string literal"),
        ("color = \"red\"", "unknown zlink attribute"),
        ("rename", "unknown zlink attribute"),
        ("rename(\"x\")", "unknown zlink attribute"),
    ];
    for (tokens, problem) in cases {
        let mut attrs = vec![attr("doc", "x"), attr("zlink", tokens)];
        assert_eq!(MethodAttrs::extract(&mut attrs).unwrap_err(), problem);
        assert_eq!(attrs.len(), 2);
    }
    let mut attrs = vec![attr("zlink", "rename = ")];
    assert!(MethodAttrs::extract(&mut attrs).is_err());
}

#[test]
fn method_items_are_added_in_order() {
    let item = |path: &str, form: MetaForm| MetaItem { path: Some(path.to_string()), form };
    let text = |value: &str| MetaForm::NameValue(MetaValue::Text(value.to_string()));
    let mut attrs = MethodAttrs {
        interface: None,
        rename: Some("A".to_string()),
        more: false,
        return_fds: false,
    };
    let items = vec![
        item("rename", text("B")),
        item("interface", text("i.j")),
        item("rename", text("C")),
        item("more", MetaForm::Path),
        item("return_fds", MetaForm::Path),
    ];
    attrs.add_items(items).unwrap();
    assert_eq!(attrs.rename.as_deref(), Some("C"));
    assert_eq!(attrs.interface.as_deref(), Some("i.j"));
    assert!(attrs.more && attrs.return_fds);
    assert!(attrs.add_items(vec![item("more", text("x"))]).is_err());
    assert!(attrs.add_items(vec![item("rename", MetaForm::List)]).is_err());
}

#[test]
fn parameter_attributes_are_read() {
    let found = extract_param_attrs(&[
        attr("zlink", "rename = \"leaderProcessId\""),
        attr("serde", "rename = \"no\""),
        attr("zlink", "connection"),
        attr("zlink", "rename = 5, color, more(1)"),
        attr("zlink", "= ="),
    ]);
    assert_eq!(found.rename.as_deref(), Some("leaderProcessId"));
    assert!(found.is_connection);
    let found = extract_param_attrs(&[]);
    assert_eq!(found.rename, None);
    assert!(!found.is_connection);
    assert!(!found.is_fds);
    assert!(extract_param_attrs(&[attr("zlink", "fds")]).is_fds);
    let mut attrs = ParamAttrs { rename: None, is_connection: false, is_fds: false };
    attrs.add_items(vec![MetaItem { path: Some("connection".to_string()), form: MetaForm::List }]);
    assert!(!attrs.is_connection);
}

#[test]
fn method_names_become_pascal_case() {
    assert_eq!(snake_case_to_pascal_case("get_balance"), "GetBalance");
    assert_eq!(snake_case_to_pascal_case("ping"), "Ping");
    assert_eq!(snake_case_to_pascal_case("__a_bC_"), "ABc");
    assert_eq!(snake_case_to_pascal_case(""), "");
    assert_eq!(snake_case_to_pascal_case("\u{e9}t\u{c9}"), "\u{c9}t\u{e9}");
    assert_eq!(snake_case_to_pascal_case("\u{df}a"), "SSa");
}

#[test]
fn result_types_are_found() {
    let r = extract_result_types(&result_of("Result < A , B >", "A", "B"));
    assert_eq!(r, Some((Some("A".to_string()), "B".to_string())));
    let r = extract_result_types(&result_of("Result < () , B >", "()", "B"));
    assert_eq!(r, Some((None, "B".to_string())));
    assert_eq!(extract_result_types(&ty("Balance", "Balance")), None);
    assert_eq!(extract_result_types(&ty("Result", "Result")), None);
    assert_eq!(extract_result_types(&plain("& A")), None);
    let one = path(
        "Result < A >",
        Segment {
            ident: "Result".to_string(),
            args: Some(vec![GenericArg::Type { text: "A".to_string(), unit: false }]),
        },
    );
    assert_eq!(extract_result_types(&one), None);
    let lifetime = path(
        "Result < 'a , A >",
        Segment {
            ident: "Result".to_string(),
            args: Some(vec![
                GenericArg::Other,
                GenericArg::Type { text: "A".to_string(), unit: false },
            ]),
        },
    );
    assert_eq!(extract_result_types(&lifetime), None);
}

#[test]
fn parameters_are_identifiers_with_types() {
    let p = ParamInfo::from_fn_arg(&arg("amount", "i64", vec![])).unwrap();
    assert_eq!(p.name, "amount");
    assert_eq!(p.ty, "i64");
    assert_eq!(p.wire_name(), "amount");
    assert!(!p.is_connection && !p.is_fds && !p.is_more);
    assert!(ParamInfo::from_fn_arg(&FnArg::Receiver).is_none());
    let pattern = FnArg::Typed(TypedArg { ident: None, ty: "A".to_string(), attrs: vec![] });
    assert!(ParamInfo::from_fn_arg(&pattern).is_none());
}

#[test]
fn methods_are_extracted() {
    let infos = extract_all(
        vec![
            method(
                "register",
                vec![attr("zlink", "interface = \"io.systemd.Machine\"")],
                vec![
                    arg("_name", "String", vec![]),
                    arg("_id", "u32", vec![attr("zlink", "rename = \"leaderId\"")]),
                    arg("conn", "& mut Connection", vec![attr("zlink", "connection")]),
                    FnArg::Typed(TypedArg { ident: None, ty: "A".to_string(), attrs: vec![] }),
                ],
                Some(result_of("Result < () , E >", "()", "E")),
            ),
            method("list", vec![attr("zlink", "rename = \"ListAll\"")], vec![], None),
        ],
        None,
    );
    let m = &infos[0];
    assert_eq!(m.varlink_name, "Register");
    assert_eq!(m.full_method_path().as_deref(), Some("io.systemd.Machine.Register"));
    assert_eq!(m.params.len(), 3);
    assert!(m.has_connection_param());
    let wire: Vec<_> = m.serialized_params().iter().map(|p| p.wire_name().to_string()).collect();
    assert_eq!(wire, ["_name", "leaderId"]);
    assert!(m.returns_result);
    assert_eq!(m.return_type, None);
    assert_eq!(m.error_type.as_deref(), Some("E"));
    let m = &infos[1];
    assert_eq!(m.full_method_path().as_deref(), Some("io.systemd.Machine.ListAll"));
    assert!(!m.has_connection_param());
    assert!(!m.returns_result);
}

#[test]
fn macro_level_interface_holds_for_all_methods() {
    let infos = extract_all(
        vec![method("ping", vec![], vec![], None), method("pong", vec![], vec![], None)],
        Some("org.example.metadata"),
    );
    let paths: Vec<_> = infos.iter().map(|m| m.full_method_path().unwrap()).collect();
    assert_eq!(paths, ["org.example.metadata.Ping", "org.example.metadata.Pong"]);
    let infos = extract_all(vec![method("ping", vec![], vec![], None)], None);
    assert_eq!(infos[0].full_method_path(), None);
}

#[test]
fn nearest_interface_counts() {
    let named = |interface: &str| vec![attr("zlink", &format!("interface = \"{interface}\""))];
    let infos = extract_all(
        vec![
            method("a", vec![], vec![], None),
            method("b", named("i.one"), vec![], None),
            method("c", vec![], vec![], None),
            method("d", named("i.two"), vec![], None),
            method("e", vec![], vec![], None),
            method("f", vec![], vec![], None),
        ],
        Some("i.zero"),
    );
    let interfaces: Vec<_> = infos.iter().map(|m| m.interface.as_deref().unwrap()).collect();
    assert_eq!(interfaces, ["i.zero", "i.one", "i.one", "i.two", "i.two", "i.two"]);
}

#[test]
fn wrong_method_changes_nothing() {
    let mut m = method("ping", vec![attr("zlink", "color = 1")], vec![], None);
    let mut current = Some("a.b".to_string());
    assert_eq!(MethodInfo::extract(&mut m, &mut current).unwrap_err(), "unknown zlink attribute");
    assert_eq!(current.as_deref(), Some("a.b"));
    assert_eq!(m.attrs.len(), 1);
}

#[test]
fn parts_are_listed_once_in_order() {
    let infos = bank();
    assert_eq!(collect_interfaces(&infos), ["org.example.bank"]);
    assert_eq!(build_return_type_variant_map(&infos), ["Balance"]);
    assert_eq!(build_error_type_variant_map(&infos), ["BankError"]);
    assert!(collect_interfaces(&[]).is_empty());
}

#[test]
fn calls_are_read_into_variants() {
    let text = generate_method_call_enum(&bank(), "__BankMethodCall", "__BankUserMethods", "::zlink");
    assert_eq!(
        text,
        "#[allow(private_interfaces)] #[derive(::core::fmt::Debug, ::serde::Deserialize)] \
         #[serde(tag = \"method\", content = \"parameters\")] pub enum __BankUserMethods<'__de> { \
         ____BankUserMethodsUnused(::core::marker::PhantomData<&'__de ()>), \
         #[serde(rename = \"org.example.bank.GetBalance\")] GetBalance, \
         #[serde(rename = \"org.example.bank.Deposit\")] Deposit { amount: i64 }, \
         #[serde(rename = \"org.example.bank.LockAccount\")] LockAccount, \
         #[serde(other)] ____BankUserMethodsUnknown, } \
         #[allow(private_interfaces)] #[derive(::core::fmt::Debug, ::serde::Deserialize)] \
         #[serde(untagged)] pub enum __BankMethodCall<'__de> { #[serde(borrow)] \
         __VarlinkService(::zlink::varlink_service::Method<'__de>), \
         __UserMethods(__BankUserMethods<'__de>), } "
    );
    assert!(syn::parse_file(&text).is_ok());
    let text = generate_method_call_enum(&[], "__A", "__B", "x");
    assert!(!text.contains("serde(other)"));
    assert!(syn::parse_file(&text).is_ok());
}

#[test]
fn renamed_parameters_are_quoted() {
    let infos = extract_all(
        vec![method(
            "m",
            vec![],
            vec![
                arg("a", "u8", vec![attr("zlink", "rename = \"x\\\"y\"")]),
                arg("b", "u8", vec![]),
            ],
            None,
        )],
        Some("i.j"),
    );
    let text = generate_method_call_enum(&infos, "__A", "__B", "x");
    assert!(text.contains("M { #[serde(rename = \"x\\\"y\")] a: u8, b: u8 }, "));
}

#[test]
fn replies_and_errors_have_variants() {
    let infos = bank();
    let text = generate_reply_params_enum(&infos, "__BankMethodCall", "__BankReplyParams", "::zlink");
    assert_eq!(
        text,
        "#[allow(private_interfaces)] #[derive(::core::fmt::Debug, ::serde::Serialize)] \
         #[serde(untagged)] pub enum __BankReplyParams<'__ser> { \
         ____BankReplyParamsVarlinkService(::zlink::varlink_service::Reply<'__ser>), \
         ____BankMethodCallVariant0(Balance), \
         ____BankReplyParamsUnused(::core::marker::PhantomData<&'__ser ()>), } "
    );
    let (text, types) = generate_reply_error_enum(&infos, "__BankReplyError", "::zlink");
    assert_eq!(types, ["BankError"]);
    assert!(text.contains("____BankReplyErrorVariant0(BankError), "));
    assert!(text.contains(
        "impl<'__ser> ::core::convert::From<BankError> for __BankReplyError<'__ser> { \
         fn from(e: BankError) -> Self { __BankReplyError::____BankReplyErrorVariant0(e) } } "
    ));
    assert!(syn::parse_file(&text).is_ok());
}

#[test]
fn interfaces_are_described() {
    let infos = extract_all(
        vec![
            method("one", vec![], vec![arg("_x", "u8", vec![])], Some(ty("A", "A"))),
            method(
                "two",
                vec![attr("zlink", "interface = \"c.d\"")],
                vec![],
                Some(result_of("Result < A , E >", "A", "E")),
            ),
        ],
        Some("a.b"),
    );
    let attrs = ServiceAttrs::parse("types = [T], crate = \"z\"").unwrap();
    let interfaces = collect_interfaces(&infos);
    let text = generate_interface_descriptions(&infos, &attrs, &interfaces, "z", "Svc");
    assert_eq!(
        text,
        "#[doc(hidden)] const __SVC_INTERFACE_A_B: &z::idl::Interface<'static> = &{ \
         const __DECLARED: &[&str] = &[<T as z::introspect::CustomType>::CUSTOM_TYPE.name()]; \
         const __METHOD_0: &z::idl::Method<'static> = &{ \
         const __IN_PARAMS: &[&z::idl::Parameter<'static>] = \
         &[&z::idl::Parameter::new(\"x\", <u8 as z::introspect::Type>::TYPE, &[], )]; \
         const __OUT_PARAMS: &[&z::idl::Parameter<'static>] = &[]; \
         z::introspect::assert_type_declared(<u8 as z::introspect::Type>::TYPE, __DECLARED); \
         z::introspect::assert_params_declared(__OUT_PARAMS, __DECLARED); \
         z::idl::Method::new(\"One\", __IN_PARAMS, __OUT_PARAMS, &[], ) }; \
         z::idl::Interface::new(\"a.b\", &[__METHOD_0], \
         &[<T as z::introspect::CustomType>::CUSTOM_TYPE], &[], &[], ) }; \
         #[doc(hidden)] const __SVC_INTERFACE_C_D: &z::idl::Interface<'static> = &{ \
         const __DECLARED: &[&str] = &[<T as z::introspect::CustomType>::CUSTOM_TYPE.name()]; \
         const __METHOD_0: &z::idl::Method<'static> = &{ \
         const __IN_PARAMS: &[&z::idl::Parameter<'static>] = &[]; \
         const __OUT_PARAMS: &[&z::idl::Parameter<'static>] = &[]; \
         z::introspect::assert_params_declared(__OUT_PARAMS, __DECLARED); \
         z::idl::Method::new(\"Two\", __IN_PARAMS, __OUT_PARAMS, &[], ) }; \
         z::idl::Interface::new(\"c.d\", &[__METHOD_0], \
         &[<T as z::introspect::CustomType>::CUSTOM_TYPE], \
         <E as z::introspect::ReplyError>::VARIANTS, &[], ) }; "
    );
    assert!(syn::parse_file(&text).is_ok());
}

#[test]
fn names_of_constants_are_in_upper_case() {
    let infos = extract_all(vec![method("m", vec![], vec![], None)], Some("a.\u{e9}"));
    let attrs = ServiceAttrs::parse("").unwrap();
    let interfaces = collect_interfaces(&infos);
    let text = generate_interface_descriptions(&infos, &attrs, &interfaces, "z", "svc");
    assert!(text.contains("const __SVC_INTERFACE_A_\u{c9}: "));
}

#[test]
fn calls_are_answered() {
    let infos = bank();
    let attrs = ServiceAttrs::parse("vendor = \"V\"").unwrap();
    let types = build_error_type_variant_map(&infos);
    let interfaces = collect_interfaces(&infos);
    let ctx = HandleBodyContext {
        crate_path: "z",
        method_call_name: "MC",
        user_methods_name: "UM",
        reply_params_name: "RP",
        reply_error_name: "RE",
        stream_params_name: "SP",
        stream_types: &vec![],
        error_types: &types,
        interfaces: &interfaces,
        service: "Bank",
    };
    let text = generate_handle_body(&infos, &attrs, &ctx);
    assert!(text.starts_with(
        "let _ = __zlink_conn; match __zlink_call.method() { \
         MC::__VarlinkService(__varlink_method) => "
    ));
    assert!(text.contains(
        "z::varlink_service::Info::new(\"V\", \"\", \"\", \"\", ::std::vec![\"org.example.bank\", \
         z::varlink_service::INTERFACE_NAME, ], ); "
    ));
    assert!(text.contains(
        "\"org.example.bank\" => { let desc = \
         z::varlink_service::InterfaceDescription::from(__BANK_INTERFACE_ORG_EXAMPLE_BANK); "
    ));
    assert!(text.contains(
        "UM::GetBalance => { let __result = self.get_balance().await; \
         z::service::MethodReply::Single(Some(RP::__MCVariant0(__result))) } "
    ));
    assert!(text.contains(
        "UM::Deposit { amount } => { match self.deposit(::core::clone::Clone::clone(amount)).await { \
         ::core::result::Result::Ok(__ok) => { \
         z::service::MethodReply::Single(Some(RP::__MCVariant0(__ok))) } \
         ::core::result::Result::Err(__err) => { \
         z::service::MethodReply::Error(RE::__REVariant0(__err)) } } } "
    ));
    assert!(text.contains(
        "UM::LockAccount => { match self.lock_account().await { \
         ::core::result::Result::Ok(()) => { z::service::MethodReply::Single(None) } "
    ));
    assert!(text.contains("UM::__UMUnknown => { z::service::MethodReply::Error("));
    assert!(syn::parse_str::<syn::Block>(&format!("{{ {text} }}")).is_ok());
}

#[test]
fn methods_with_the_connection_are_inlined() {
    let infos = extract_all(
        vec![method(
            "m",
            vec![],
            vec![
                arg("x", "u8", vec![]),
                arg("conn", "& mut C", vec![attr("zlink", "connection")]),
            ],
            None,
        )],
        Some("i.j"),
    );
    let attrs = ServiceAttrs::parse("").unwrap();
    let text = generate_service_impl(&item("S"), &infos, &attrs);
    assert!(text.contains(
        "M { x } => { let _ = { let conn = __zlink_conn; \
         let x = ::core::clone::Clone::clone(x); async move { body() } }.await; \
         ::zlink::service::MethodReply::Single(None) } "
    ));
    assert!(!text.contains("let _ = __zlink_conn;"));
    assert!(syn::parse_file(&text).is_ok());
}

#[test]
fn service_impl_uses_the_socket_of_the_service() {
    let attrs = ServiceAttrs::parse("").unwrap();
    let text = generate_service_impl(&item("Bank"), &bank(), &attrs);
    assert!(text.contains(
        "impl <__ZlinkSock> ::zlink::Service<__ZlinkSock> for Bank where \
         __ZlinkSock: ::zlink::connection::Socket,  { type MethodCall<'de> = __BankMethodCall<'de>; "
    ));
    assert!(syn::parse_file(&text).is_ok());
    let generic = ItemImpl {
        self_ty: pair("(A , B)", plain("A")),
        params: vec![GenericParam::Other, GenericParam::Type("Sock".to_string())],
        generics: "< 'a , Sock >".to_string(),
        predicates: "Sock :: ReadHalf : X".to_string(),
    };
    let text = generate_service_impl(&generic, &bank(), &attrs);
    assert!(text.contains(
        "impl < 'a , Sock > ::zlink::Service<Sock> for (A , B) where \
         Sock: ::zlink::connection::Socket, Sock :: ReadHalf : X { "
    ));
    assert!(text.contains("__ServiceMethodCall"));
    assert_eq!(extract_type_ident(&generic.self_ty), None);
    assert!(syn::parse_file(&text).is_ok());
}

#[test]
fn explicit_lifetimes_compile() {
    let infos = extract_all(
        vec![method(
            "echo",
            vec![attr("zlink", "interface = \"org.example.ExplicitLifetimes\"")],
            vec![arg("msg", "& 'a str", vec![])],
            Some(result_of("Result < EchoReply , EchoError < '_ > >", "EchoReply", "EchoError < '_ >")),
        )],
        None,
    );
    let attrs = ServiceAttrs::parse("types = [EchoReply]").unwrap();
    let text = generate_service_impl(&item("EchoService"), &infos, &attrs);
    assert!(syn::parse_file(&text).is_ok());
    assert!(!text.contains("'a "));
    let dense = text.replace(' ', "");
    assert!(dense.contains("Echo{msg:&'__destr}"));
    assert!(dense.contains("Variant0(EchoError<'__ser>)"));
    assert!(dense.contains("<&'staticstras::zlink::introspect::Type>::TYPE"));
    assert!(dense.contains("<EchoError<'static>as::zlink::introspect::ReplyError>::VARIANTS"));
}

fn assert_put(ty: &str, expected: &str) {
    let tokens = |text: &str| {
        syn::parse_str::<syn::Type>(text).unwrap().to_token_stream().to_string()
    };
    assert_eq!(tokens(&put_lifetime(ty, "'x")), tokens(expected));
}

#[test]
fn lifetimes_are_put_in_place() {
    assert_put("& str", "&'x str");
    assert_put("& 'a str", "&'x str");
    assert_put("& mut & u8", "&'x mut &'x u8");
    assert_put("A < 'static , '_ >", "A<'static, 'x>");
    assert_put("Vec < u8 >", "Vec<u8>");
    assert_put("(& u8 , B < 'a >)", "(&'x u8, B<'x>)");
    assert_put("[& 'a u8 ; 3]", "[&'x u8; 3]");
    assert_put("dyn T + 'a", "dyn T + 'x");
}

#[test]
fn bound_lifetimes_and_constants_stay() {
    assert_put("for < 'a > fn (& 'a u8)", "for<'a> fn(&'a u8)");
    assert_put("for < 'a > fn (& 'a u8 , & 'b u8)", "for<'a> fn(&'a u8, &'x u8)");
    assert_put("A < 'c' >", "A<'c'>");
    assert_put("[u8 ; A & B]", "[u8; A & B]");
    assert_put("A < { B & C } >", "A<{ B & C }>");
}

fn watching() -> Vec<MethodInfo> {
    extract_all(
        vec![
            method(
                "watch",
                vec![attr("zlink", "interface = \"org.example.watch\", more")],
                vec![arg("more", "bool", vec![]), arg("key", "String", vec![])],
                Some(stream(
                    "impl Stream < Item = Reply < Event < 'a > > >",
                    reply_of("Reply < Event < 'a > >", "Event < 'a >"),
                )),
            ),
            method(
                "open",
                vec![attr("zlink", "return_fds")],
                vec![arg("fds", "Vec < OwnedFd >", vec![attr("zlink", "fds")])],
                Some(pair(
                    "(Result < u32 , E > , Vec < OwnedFd >)",
                    result_of("Result < u32 , E >", "u32", "E"),
                )),
            ),
            method("more", vec![], vec![arg("more", "bool", vec![])], None),
        ],
        None,
    )
}

#[test]
fn streams_and_descriptors_are_read() {
    let infos = watching();
    let (watch, open, more) = (&infos[0], &infos[1], &infos[2]);
    assert!(watch.is_streaming && watch.is_inlined() && !watch.return_fds);
    assert!(watch.params[0].is_more && !watch.params[0].is_serialized());
    assert!(!watch.params[1].is_more && watch.params[1].is_serialized());
    assert_eq!(watch.return_type.as_deref(), Some("Event < 'a >"));
    assert!(!watch.returns_result);
    assert!(open.return_fds && !open.is_streaming && !open.is_inlined());
    assert!(open.params[0].is_fds && open.serialized_params().is_empty());
    assert_eq!(open.return_type.as_deref(), Some("u32"));
    assert_eq!(open.error_type.as_deref(), Some("E"));
    assert!(open.returns_result);
    assert!(!more.params[0].is_more && more.params[0].is_serialized());
    let both = stream(
        "impl Stream < Item = (Reply < A > , Vec < OwnedFd >) >",
        pair("(Reply < A > , Vec < OwnedFd >)", reply_of("Reply < A >", "A")),
    );
    let output = Some(both);
    assert_eq!(extract_output(&output, true, true), (Some("A".to_string()), false, None));
    assert_eq!(
        extract_output(&Some(ty("B", "B")), true, true),
        (Some("B".to_string()), false, None)
    );
    assert_eq!(extract_output(&None, true, true), (None, false, None));
    let mixed = Type {
        bound_types: vec![
            bound_type("Iterator", "Item", plain("A")),
            bound_type("Stream", "Other", plain("B")),
            bound_type("Stream", "Item", plain("C")),
            bound_type("Stream", "Item", plain("D")),
        ],
        ..plain("impl X")
    };
    assert_eq!(mixed.stream_item().unwrap().text, "C");
    assert!(plain("A").stream_item().is_none());
}

#[test]
fn streams_have_their_own_variants() {
    let infos = watching();
    let types = build_stream_type_variant_map(&infos);
    assert_eq!(types.len(), 1);
    assert_eq!(types[0].replace(' ', ""), "Event<'static>");
    assert_eq!(build_return_type_variant_map(&infos), ["u32"]);
    let (text, listed) = generate_stream_params_enum(&infos, "__SReplyStreamParams");
    assert_eq!(listed, types);
    assert_eq!(
        text.replace(' ', ""),
        "#[allow(private_interfaces)]#[derive(::core::fmt::Debug,::serde::Serialize)]\
         #[serde(untagged)]pubenum__SReplyStreamParams{\
         ____SReplyStreamParamsVariant0(Event<'static>),}"
    );
    let (text, listed) = generate_stream_params_enum(&bank(), "__SReplyStreamParams");
    assert_eq!(text, "");
    assert!(listed.is_empty());
}

#[test]
fn streams_and_descriptors_are_carried() {
    let attrs = ServiceAttrs::parse("").unwrap();
    let text = generate_service_impl(&item("S"), &watching(), &attrs);
    assert!(syn::parse_file(&text).is_ok());
    assert!(text.contains(
        "type ReplyStream = ::core::pin::Pin<::std::boxed::Box<dyn ::futures_util::Stream<Item = \
         (::zlink::Reply<__SReplyStreamParams>, ::std::vec::Vec<::std::os::fd::OwnedFd>)>>>; \
         type ReplyStreamParams = __SReplyStreamParams; type ReplyError<'ser> = "
    ));
    assert!(text.contains("mut __zlink_fds: ::std::vec::Vec<::std::os::fd::OwnedFd>, ) -> ("));
    assert!(text.contains(
        "Watch { key } => { ::zlink::service::MethodReply::Multi(::std::boxed::Box::pin(\
         ::futures_util::StreamExt::map({ let more = __zlink_call.more(); \
         let key = ::core::clone::Clone::clone(key); async move { body() } }.await, |__reply| { \
         let __continues = __reply.continues(); (::zlink::Reply::new(\
         __reply.into_parameters().map(__SReplyStreamParams::____SReplyStreamParamsVariant0))\
         .set_continues(__continues), ::std::vec::Vec::new()) }))) } "
    ));
    assert!(text.contains(
        "Open => { match { let (__value, __returned) = \
         self.open(::core::mem::take(&mut __zlink_fds)).await; \
         __zlink_out = __returned; __value } { "
    ));
    assert!(text.contains("(__zlink_reply, __zlink_out)"));
    let text = generate_service_impl(&item("S"), &bank(), &attrs);
    assert!(!text.contains("__zlink_fds") && !text.contains("ReplyStreamParams {"));
    assert!(text.contains(
        "type ReplyStream = ::futures_util::stream::Empty<::zlink::Reply<()>>; \
         type ReplyStreamParams = (); type ReplyError<'ser> = "
    ));
}

#[test]
fn descriptors_without_streams_are_carried() {
    let infos: Vec<_> = watching().into_iter().skip(1).collect();
    let attrs = ServiceAttrs::parse("").unwrap();
    let text = generate_service_impl(&item("S"), &infos, &attrs);
    assert!(syn::parse_file(&text).is_ok());
    assert!(text.contains(
        "type ReplyStream = ::futures_util::stream::Empty<(::zlink::Reply<()>, \
         ::std::vec::Vec<::std::os::fd::OwnedFd>)>; type ReplyStreamParams = (); "
    ));
    assert!(!text.contains("Multi("));
}
