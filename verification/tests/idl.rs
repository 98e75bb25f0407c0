use zlink::error::Error;
use zlink::idl::parse::parse_interface;
use zlink::idl::{CustomType, Interface, Type};
use zlink::text::bytes_to_str;

fn message(text: &str) -> String {
    match parse_interface(text) {
        Err(Error::IdlParse(message)) => message,
        Ok(interface) => panic!("expected an error, got {interface:?}"),
    }
}

fn comments(list: &[zlink::idl::Comment<'_>]) -> Vec<String> {
    list.iter().map(|c| c.content.to_string()).collect()
}

fn field_type<'a>(interface: &'a Interface<'a>, method: usize, input: usize) -> &'a Type<'a> {
    interface.methods.items[method].inputs.items[input].ty.inner()
}

#[test]
fn whole_interface_is_parsed() {
    let interface = parse_interface(
        "# Top comment\n\
         #   second\n\
         interface org.example.ftl\n\
         \n\
         # A condition.\n\
         type DriveCondition (\n\
           # how it is\n\
           state: (idle, spooling, busy) # dropped\n, # kept\n\
           tylium_level: int\n\
         )\n\
         type Empty ()\n\
         type Color (red, green)\n\
         # Watches.\n\
         method Monitor() -> (condition: DriveCondition)\n\
         method Jump(config: ?[]DriveConfiguration, m: [string]bool) -> ()\n\
         error NotEnoughEnergy ()\n\
         error ParameterOutOfRange (field: string)\n",
    )
    .unwrap();
    assert_eq!(interface.name, "org.example.ftl");
    assert_eq!(comments(&interface.comments.items), ["Top comment", "second"]);
    assert_eq!(interface.custom_types.items.len(), 3);
    match &interface.custom_types.items[0] {
        CustomType::Object(object) => {
            assert_eq!(object.name, "DriveCondition");
            assert_eq!(comments(&object.comments.items), ["A condition."]);
            assert_eq!(object.fields.items.len(), 2);
            assert_eq!(comments(&object.fields.items[0].comments.items), ["how it is"]);
            match object.fields.items[0].ty.inner() {
                Type::Enum(variants) => {
                    let names: Vec<_> = variants.items.iter().map(|v| v.name).collect();
                    assert_eq!(names, ["idle", "spooling", "busy"]);
                }
                other => panic!("unexpected {other:?}"),
            }
            assert_eq!(object.fields.items[1].name, "tylium_level");
            assert!(matches!(object.fields.items[1].ty.inner(), Type::Int));
            assert_eq!(comments(&object.fields.items[1].comments.items), ["kept"]);
        }
        other => panic!("unexpected {other:?}"),
    }
    match &interface.custom_types.items[1] {
        CustomType::Object(object) => assert!(object.fields.items.is_empty()),
        other => panic!("unexpected {other:?}"),
    }
    match &interface.custom_types.items[2] {
        CustomType::Enum(e) => assert_eq!(e.variants.items.len(), 2),
        other => panic!("unexpected {other:?}"),
    }
    let names: Vec<_> = interface.methods.items.iter().map(|m| m.name).collect();
    assert_eq!(names, ["Monitor", "Jump"]);
    assert_eq!(comments(&interface.methods.items[0].comments.items), ["Watches."]);
    assert!(interface.methods.items[0].inputs.items.is_empty());
    assert!(interface.methods.items[1].outputs.items.is_empty());
    match field_type(&interface, 1, 0) {
        Type::Optional(inner) => match inner.inner() {
            Type::Array(inner) => {
                assert!(matches!(inner.inner(), Type::Custom("DriveConfiguration")))
            }
            other => panic!("unexpected {other:?}"),
        },
        other => panic!("unexpected {other:?}"),
    }
    match field_type(&interface, 1, 1) {
        Type::Mapping(inner) => assert!(matches!(inner.inner(), Type::Bool)),
        other => panic!("unexpected {other:?}"),
    }
    let names: Vec<_> = interface.errors.items.iter().map(|e| e.name).collect();
    assert_eq!(names, ["NotEnoughEnergy", "ParameterOutOfRange"]);
}

#[test]
fn every_primitive_type_is_parsed() {
    let interface = parse_interface(
        "interface a.b method M(a: bool, b: int, c: float, d: string, e: object, f: any) -> ()",
    )
    .unwrap();
    assert!(matches!(field_type(&interface, 0, 0), Type::Bool));
    assert!(matches!(field_type(&interface, 0, 1), Type::Int));
    assert!(matches!(field_type(&interface, 0, 2), Type::Float));
    assert!(matches!(field_type(&interface, 0, 3), Type::String));
    assert!(matches!(field_type(&interface, 0, 4), Type::ForeignObject));
    assert!(matches!(field_type(&interface, 0, 5), Type::Any));
}

#[test]
fn outer_white_space_does_not_count() {
    let plain = parse_interface("interface a.b").unwrap();
    let padded = parse_interface("\u{2003}\n interface a.b \u{a0}\t").unwrap();
    assert_eq!(plain.name, padded.name);
}

#[test]
fn empty_brackets_are_a_struct() {
    for body in ["()", "( )", "(\n# comment\n)", "(# one\r\n # two\r\n)"] {
        let text = format!("interface a.b method M(x: {body}) -> ()");
        let interface = parse_interface(&text).unwrap();
        match field_type(&interface, 0, 0) {
            Type::Object(fields) => assert!(fields.items.is_empty()),
            other => panic!("unexpected {other:?}"),
        }
        let text = format!("interface a.b type T {body}");
        let interface = parse_interface(&text).unwrap();
        match &interface.custom_types.items[0] {
            CustomType::Object(object) => assert!(object.fields.items.is_empty()),
            other => panic!("unexpected {other:?}"),
        }
    }
}

#[test]
fn comments_may_hold_any_text() {
    let interface = parse_interface("#\t caf\u{e9} \u{1f600}\r\ninterface a.b").unwrap();
    assert_eq!(comments(&interface.comments.items), ["caf\u{e9} \u{1f600}\r"]);
    let interface = parse_interface("interface a.b\nerror E () # \u{e9}").unwrap();
    assert_eq!(interface.errors.items.len(), 1);
}

#[test]
fn interface_names_need_a_dot() {
    assert_eq!(parse_interface("interface a.b-c.0d").unwrap().name, "a.b-c.0d");
    assert_eq!(parse_interface("interface a--b.c").unwrap().name, "a--b.c");
    for name in ["a-.", "a-.b", "org.", "org.b-", "a..b", "a.-b", "org.example."] {
        let text = format!("interface {name}");
        assert!(parse_interface(&text).is_err(), "{name}");
    }
    assert!(message("interface ab").starts_with("Parse error: "));
    assert!(message("interface 1.b").starts_with("Parse error: "));
}

#[test]
fn empty_text_is_rejected() {
    assert_eq!(message(""), "Input is empty");
    assert_eq!(message(" \n\t\u{3000}"), "Input is empty");
}

#[test]
fn texts_without_an_interface_are_rejected() {
    assert_eq!(message("x"), "Parse error: Parsing Error: InputError { input: [120] }");
    assert_eq!(
        message("interface ab"),
        "Parse error: Parsing Error: InputError { input: [97, 98] }"
    );
    assert_eq!(message("interface-"), "Parse error: Parsing Error: InputError { input: [45] }");
}

#[test]
fn what_remains_is_reported() {
    assert_eq!(message("interface a.b foo"), "Unexpected remaining input: \"foo\"");
    assert_eq!(
        message("interface a.b type T (a: int, b)"),
        "Unexpected remaining input: \"type T (a: int, b)\""
    );
    assert_eq!(
        message("interface a.b method m() -> ()"),
        "Unexpected remaining input: \"method m() -> ()\""
    );
    assert_eq!(message("interface a.b\nerror \"q\""), "Unexpected remaining input: \"\\\"q\\\"\"");
    assert_eq!(message("interface a.b \u{e9}"), "Unexpected remaining input: \"\u{e9}\"");
    assert_eq!(
        message("interface a.b error E (x: integer)"),
        "Unexpected remaining input: \"eger)\""
    );
}

#[test]
fn cut_off_error_is_dropped() {
    let interface = parse_interface("interface a.b error E (x: int").unwrap();
    assert!(interface.errors.items.is_empty());
}

#[test]
fn bytes_are_taken_as_text() {
    assert_eq!(bytes_to_str(b"abc"), "abc");
    assert_eq!(bytes_to_str("caf\u{e9}".as_bytes()), "caf\u{e9}");
}
