use zlink::macros::meta::{Attribute, AttributeArgs};
use zlink::macros::naming::{
    field_name, lit_str_in, parse_rename, parse_rename_all, reject_container_rename, resolve,
    variant_name, RenameAll,
};
use zlink::macros::nested::{Entry, Nested};

fn zlink_attr(tokens: &str) -> Attribute {
    Attribute { path: Some("zlink".to_string()), args: AttributeArgs::List(tokens.to_string()) }
}

#[test]
fn field_conventions() {
    let cases = [
        (RenameAll::Lower, "user_name"),
        (RenameAll::Upper, "USER_NAME"),
        (RenameAll::Pascal, "UserName"),
        (RenameAll::Camel, "userName"),
        (RenameAll::Snake, "user_name"),
        (RenameAll::ScreamingSnake, "USER_NAME"),
        (RenameAll::Kebab, "user-name"),
        (RenameAll::ScreamingKebab, "USER-NAME"),
    ];

    for (rule, expected) in cases {
        assert_eq!(rule.apply_to_field("user_name"), expected, "rule: {rule:?}");
    }
}

#[test]
fn variant_conventions() {
    let cases = [
        (RenameAll::Lower, "username"),
        (RenameAll::Upper, "USERNAME"),
        (RenameAll::Pascal, "UserName"),
        (RenameAll::Camel, "userName"),
        (RenameAll::Snake, "user_name"),
        (RenameAll::ScreamingSnake, "USER_NAME"),
        (RenameAll::Kebab, "user-name"),
        (RenameAll::ScreamingKebab, "USER-NAME"),
    ];

    for (rule, expected) in cases {
        assert_eq!(rule.apply_to_variant("UserName"), expected, "rule: {rule:?}");
    }
}

#[test]
fn conventions_of_unusual_names() {
    assert_eq!(RenameAll::Pascal.apply_to_field("__a__b_"), "AB");
    assert_eq!(RenameAll::Camel.apply_to_field(""), "");
    assert_eq!(RenameAll::Camel.apply_to_variant("\u{c9}tat"), "\u{c9}tat");
    assert_eq!(RenameAll::Snake.apply_to_variant("Un\u{c9}tat"), "un_\u{c9}tat");
    assert_eq!(RenameAll::Snake.apply_to_variant("HTTPCode"), "h_t_t_p_code");
}

#[test]
fn snake_form_undoes_pascal_form() {
    for name in ["user_name", "a", "a1_b2c", "one_two_three"] {
        let pascal = RenameAll::Pascal.apply_to_field(name);
        assert_eq!(RenameAll::Snake.apply_to_variant(&pascal), name);
    }
}

#[test]
fn rename_beats_rename_all() {
    let attrs = vec![zlink_attr("rename = \"ID\"")];
    let name = field_name(&attrs, "user_id", Some(RenameAll::Camel)).unwrap();

    assert_eq!(name, "ID");
}

#[test]
fn rename_all_applies_without_rename() {
    let attrs: Vec<Attribute> = vec![];
    let name = field_name(&attrs, "user_id", Some(RenameAll::Camel)).unwrap();

    assert_eq!(name, "userId");
    assert_eq!(variant_name(&attrs, "NotReady", Some(RenameAll::Camel)).unwrap(), "notReady");
}

#[test]
fn ident_used_without_any_attr() {
    let attrs: Vec<Attribute> = vec![];

    assert_eq!(field_name(&attrs, "user_id", None).unwrap(), "user_id");
}

#[test]
fn rename_all_parsed_alongside_other_keys() {
    let attrs = vec![zlink_attr("crate = \"crate\", rename_all = \"camelCase\"")];

    assert_eq!(parse_rename_all(&attrs).unwrap(), Some(RenameAll::Camel));
}

#[test]
fn unknown_rename_all_value_rejected() {
    let attrs = vec![zlink_attr("rename_all = \"bogus\"")];
    let err = parse_rename_all(&attrs).unwrap_err().to_string();

    assert!(err.contains("bogus"), "message should name the bad value: {err}");
    assert!(err.contains("camelCase"), "message should list valid values: {err}");
    assert_eq!(
        err,
        "unknown `rename_all` value `bogus`, expected one of: lowercase, UPPERCASE, PascalCase, \
         camelCase, snake_case, SCREAMING_SNAKE_CASE, kebab-case, SCREAMING-KEBAB-CASE"
    );
}

#[test]
fn container_rename_rejected_with_message() {
    let attrs = vec![zlink_attr("rename = \"Foo\"")];
    let err = reject_container_rename(&attrs, "nope").unwrap_err().to_string();

    assert_eq!(err, "nope");
    assert!(reject_container_rename(&[], "nope").is_ok());
}

#[test]
fn every_convention_is_known_by_its_name() {
    let cases = [
        ("lowercase", RenameAll::Lower),
        ("UPPERCASE", RenameAll::Upper),
        ("PascalCase", RenameAll::Pascal),
        ("camelCase", RenameAll::Camel),
        ("snake_case", RenameAll::Snake),
        ("SCREAMING_SNAKE_CASE", RenameAll::ScreamingSnake),
        ("kebab-case", RenameAll::Kebab),
        ("SCREAMING-KEBAB-CASE", RenameAll::ScreamingKebab),
    ];
    for (name, rule) in cases {
        assert_eq!(RenameAll::parse(name).unwrap(), rule);
    }
}

#[test]
fn second_rename_is_rejected() {
    let attrs = vec![zlink_attr("rename = \"A\", rename = \"B\"")];
    assert_eq!(parse_rename(&attrs).unwrap_err(), "duplicate `rename` attribute");
    let attrs = vec![zlink_attr("rename = \"A\""), zlink_attr("rename = \"B\"")];
    assert_eq!(parse_rename(&attrs).unwrap_err(), "duplicate `rename` attribute");
}

#[test]
fn rename_needs_a_string() {
    let attrs = vec![zlink_attr("rename = 5")];
    assert_eq!(parse_rename(&attrs).unwrap_err(), "expected string literal");
    let attrs = vec![zlink_attr("rename, other = 5")];
    assert_eq!(parse_rename(&attrs).unwrap_err(), "expected `=`");
    let attrs = vec![zlink_attr("other(a, b), flag, n = 1, m = foo + 2, t = f::<A, B>(), rename = \"x\"")];
    assert_eq!(parse_rename(&attrs).unwrap(), Some("x".to_string()));
    let attrs = vec![zlink_attr("other = ]")];
    assert!(parse_rename(&attrs).is_err());
}

#[test]
fn attributes_need_brackets() {
    let bare = Attribute { path: Some("zlink".to_string()), args: AttributeArgs::Absent };
    assert_eq!(
        parse_rename(&[bare]).unwrap_err(),
        "expected attribute arguments in parentheses: #[zlink(...)]"
    );
    let value = Attribute { path: Some("zlink".to_string()), args: AttributeArgs::Value };
    assert_eq!(parse_rename(&[value]).unwrap_err(), "expected parentheses: #[zlink(...)]");
    let other = Attribute { path: Some("serde".to_string()), args: AttributeArgs::Absent };
    let no_ident = Attribute { path: None, args: AttributeArgs::Value };
    assert_eq!(parse_rename(&[other, no_ident]).unwrap(), None);
}

#[test]
fn first_problem_is_reported() {
    let entry = |key: &str, text: Result<&str, &str>| Entry {
        key: Some(key.to_string()),
        text: text.map(str::to_string).map_err(str::to_string),
        list: Err("no list".to_string()),
    };
    let nested = Nested {
        entries: vec![entry("other", Err("ignored")), entry("key", Ok("a"))],
        error: Some("late".to_string()),
    };
    assert_eq!(lit_str_in(nested, "key", None), Err("late".to_string()));
    let nested =
        Nested { entries: vec![entry("key", Err("first"))], error: Some("late".to_string()) };
    assert_eq!(lit_str_in(nested, "key", None), Err("first".to_string()));
    let nested = Nested { entries: vec![entry("key", Ok("a"))], error: None };
    assert_eq!(
        lit_str_in(nested, "key", Some("b".to_string())),
        Err("duplicate `key` attribute".to_string())
    );
    let nested = Nested { entries: vec![entry("other", Ok("a"))], error: None };
    assert_eq!(lit_str_in(nested, "key", Some("b".to_string())), Ok(Some("b".to_string())));
    let nested = Nested { entries: vec![entry("key", Ok("a"))], error: None };
    assert_eq!(lit_str_in(nested, "key", None), Ok(Some("a".to_string())));
}

#[test]
fn keywords_are_keys_like_any_other() {
    for other in ["type = \"t\"", "for", "in(a, b)", "type::x = 1", "::where = [2]"] {
        let attrs = vec![zlink_attr(&format!("{other}, rename = \"x\""))];
        assert_eq!(parse_rename(&attrs).unwrap(), Some("x".to_string()), "{other}");
        let attrs = vec![zlink_attr(&format!("rename = \"x\", {other},"))];
        assert_eq!(parse_rename(&attrs).unwrap(), Some("x".to_string()), "{other}");
    }
}

#[test]
fn unreadable_items_are_errors() {
    for tokens in ["foo = 1 +, rename = \"x\"", "flag y, rename = \"x\"", "foo(bar) baz"] {
        assert!(parse_rename(&[zlink_attr(tokens)]).is_err(), "{tokens}");
    }
}

#[test]
fn resolution_goes_by_rank() {
    assert_eq!(
        resolve(Ok(Some("r".to_string())), "i", Some("u".to_string())),
        Ok("r".to_string())
    );
    assert_eq!(resolve(Ok(None), "i", Some("u".to_string())), Ok("u".to_string()));
    assert_eq!(resolve(Ok(None), "i", None), Ok("i".to_string()));
    assert_eq!(resolve(Err("e".to_string()), "i", None), Err("e".to_string()));
}
