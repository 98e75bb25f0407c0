use zlink::idl::{Field, List, Type, TypeRef};
use zlink::introspect::{
    assert_params_declared, assert_type_declared, bytes_eq, custom_type_name, name_in_list,
    params_declared, str_eq, type_declared,
};

#[test]
fn primitive_types_always_pass() {
    assert_type_declared(&Type::Bool, &[]);
    assert_type_declared(&Type::Int, &[]);
    assert_type_declared(&Type::Float, &[]);
    assert_type_declared(&Type::String, &[]);
    assert_type_declared(&Type::ForeignObject, &[]);
    assert_type_declared(&Type::Any, &[]);
    assert!(type_declared(&Type::Bool, &[]));
    assert!(type_declared(&Type::Int, &[]));
    assert!(type_declared(&Type::Float, &[]));
    assert!(type_declared(&Type::String, &[]));
    assert!(type_declared(&Type::ForeignObject, &[]));
    assert!(type_declared(&Type::Any, &[]));
}

#[test]
fn custom_type_passes_when_declared() {
    assert_type_declared(&Type::Custom("Book"), &["Book", "Album"]);
    assert_type_declared(&Type::Custom("Album"), &["Book", "Album"]);
    assert!(type_declared(&Type::Custom("Book"), &["Book", "Album"]));
    assert!(type_declared(&Type::Custom("Album"), &["Book", "Album"]));
}

#[test]
fn nested_custom_type_passes_when_declared() {
    let book = Type::Custom("Book");
    assert_type_declared(&Type::Optional(TypeRef::new(&book)), &["Book"]);
    assert_type_declared(&Type::Array(TypeRef::new(&book)), &["Book"]);
    assert_type_declared(&Type::Mapping(TypeRef::new(&book)), &["Book"]);
    assert!(type_declared(&Type::Optional(TypeRef::new(&book)), &["Book"]));
    assert!(type_declared(&Type::Array(TypeRef::new(&book)), &["Book"]));
    assert!(type_declared(&Type::Mapping(TypeRef::new(&book)), &["Book"]));
}

#[test]
fn custom_type_name_extracts_correctly() {
    assert!(custom_type_name(&Type::Custom("Book")).is_some());
    assert!(custom_type_name(&Type::Int).is_none());
    assert!(custom_type_name(&Type::String).is_none());

    let book = Type::Custom("Book");
    assert!(custom_type_name(&Type::Optional(TypeRef::new(&book))).is_some());
    assert!(custom_type_name(&Type::Array(TypeRef::new(&book))).is_some());
    assert_eq!(custom_type_name(&Type::Mapping(TypeRef::new(&book))), Some("Book"));
}

#[test]
#[should_panic(expected = "not declared in `types = [...]`")]
fn undeclared_custom_type_panics() {
    assert_type_declared(&Type::Custom("Missing"), &["Book", "Album"]);
}

#[test]
#[should_panic(expected = "not declared in `types = [...]`")]
fn undeclared_nested_custom_type_panics() {
    let missing = Type::Custom("Missing");
    assert_type_declared(&Type::Optional(TypeRef::new(&missing)), &["Book"]);
}

#[test]
fn undeclared_custom_types_are_found() {
    assert!(!type_declared(&Type::Custom("Missing"), &["Book", "Album"]));
    let missing = Type::Custom("Missing");
    assert!(!type_declared(&Type::Optional(TypeRef::new(&missing)), &["Book"]));
}

#[test]
fn inline_objects_are_looked_into() {
    let object = |ty: Type<'static>| {
        let field =
            Field { name: "x", ty: TypeRef::new_owned(ty), comments: List::new(vec![]) };
        Type::Object(List::new(vec![field]))
    };
    let missing = object(Type::Custom("Missing"));
    assert!(custom_type_name(&missing).is_none());
    assert!(!type_declared(&missing, &[]));
    assert!(!type_declared(&missing, &["Book"]));
    assert!(type_declared(&missing, &["Book", "Missing"]));
    assert_type_declared(&missing, &["Missing"]);
    assert!(type_declared(&object(Type::Int), &[]));
    let nested = object(Type::Array(TypeRef::new_owned(object(Type::Custom("Missing")))));
    assert!(!type_declared(&nested, &["Book"]));
    assert!(type_declared(&nested, &["Missing"]));
    assert!(type_declared(&Type::Object(List::new(vec![])), &[]));
}

#[test]
fn parameters_are_checked_one_by_one() {
    let book = Field {
        name: "book",
        ty: TypeRef::new_owned(Type::Custom("Book")),
        comments: List::new(vec![]),
    };
    let missing = Field {
        name: "missing",
        ty: TypeRef::new_owned(Type::Array(TypeRef::new_owned(Type::Custom("Missing")))),
        comments: List::new(vec![]),
    };
    assert_params_declared(&[&book], &["Album", "Book"]);
    assert!(params_declared(&[&book], &["Album", "Book"]));
    assert!(params_declared(&[], &[]));
    assert!(!params_declared(&[&book, &missing], &["Album", "Book"]));
}

#[test]
fn texts_are_compared_byte_by_byte() {
    assert!(bytes_eq(b"", b""));
    assert!(!bytes_eq(b"a", b"ab"));
    assert!(!bytes_eq(b"ab", b"aa"));
    assert!(str_eq("caf\u{e9}", "caf\u{e9}"));
    assert!(!str_eq("cafe", "caf\u{e9}"));
    assert!(name_in_list("b", &["a", "b"]));
    assert!(!name_in_list("c", &["a", "b"]));
}
