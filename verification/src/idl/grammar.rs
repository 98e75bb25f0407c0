//! The grammar of interface descriptions, as functions on the bytes of the text.
//!
//! Each production takes the text and a position in it. It gives the position behind what it
//! matched, together with what that stands for, or nothing where it does not match.

use vstd::prelude::*;
use vstd::utf8::*;

use super::parse;
use super::{
    CustomTypeView, EnumVariantView, ErrorView, FieldView, InterfaceView, MembersView, MethodView,
    TypeView,
};
use crate::text;

verus! {

/// A class of bytes.
#[derive(Clone, Copy)]
pub enum Class {
    /// White space between tokens.
    Space,
    /// White space behind a keyword.
    KeywordSpace,
    /// White space that stays on its line.
    Blank,
    /// What a line of text holds.
    Line,
    /// What a comment between tokens holds.
    Comment,
    /// What a type name holds behind its first letter.
    Alnum,
    /// What a field name holds behind its first letter.
    FieldByte,
    /// What a segment of an interface name holds behind its first byte.
    SegmentByte,
}

/// `A` to `Z`.
pub open spec fn is_upper(b: u8) -> bool {
    'A' <= b as char <= 'Z'
}

/// `A` to `Z` and `a` to `z`.
pub open spec fn is_alpha(b: u8) -> bool {
    is_upper(b) || 'a' <= b as char <= 'z'
}

/// Letters and digits.
pub open spec fn is_alnum(b: u8) -> bool {
    is_alpha(b) || '0' <= b as char <= '9'
}

/// Spaces, tabs and ends of line.
pub open spec fn is_space(b: u8) -> bool {
    b as char == ' ' || b as char == '\t' || b as char == '\r' || b as char == '\n'
}

/// Whether a byte is of a class.
pub open spec fn in_class(b: u8, class: Class) -> bool {
    match class {
        Class::Space => is_space(b),
        Class::KeywordSpace => is_space(b) || b as char == '\u{c}',
        Class::Blank => b as char == ' ' || b as char == '\t',
        Class::Line => b as char != '\n',
        Class::Comment => b as char != '\n' && b as char != '\r',
        Class::Alnum => is_alnum(b),
        Class::FieldByte => is_alnum(b) || b as char == '_',
        Class::SegmentByte => is_alnum(b) || b as char == '-',
    }
}

/// The first position from `i` on that holds no byte of the class.
pub open spec fn span(s: Seq<u8>, i: int, class: Class) -> int
    decreases s.len() - i,
{
    if 0 <= i < s.len() && in_class(s[i], class) {
        span(s, i + 1, class)
    } else {
        i
    }
}

/// The first position from `i` on that is not white space.
pub open spec fn skip_space(s: Seq<u8>, i: int) -> int {
    span(s, i, Class::Space)
}

/// Whether `s` holds the ASCII character `c` at `i`.
pub open spec fn byte_at(s: Seq<u8>, i: int, c: char) -> bool {
    0 <= i < s.len() && s[i] as char == c
}

/// Whether `s` holds the text `word` at `i`.
pub open spec fn word_at(s: Seq<u8>, i: int, word: Seq<char>) -> bool {
    0 <= i && i + encode_utf8(word).len() <= s.len() && s.subrange(
        i,
        i + encode_utf8(word).len(),
    ) == encode_utf8(word)
}

/// The position behind the text `word` at `i`.
pub open spec fn behind(i: int, word: Seq<char>) -> int {
    i + encode_utf8(word).len()
}

/// The text between two positions.
pub open spec fn text_of(s: Seq<u8>, i: int, j: int) -> Seq<char> {
    decode_utf8(s.subrange(i, j))
}

/// The position behind the end of the line that a comment between tokens stands on: `\n`, `\r\n`
/// or `\r` ends it.
pub open spec fn comment_end(s: Seq<u8>, i: int) -> int {
    let e = span(s, i, Class::Comment);
    if byte_at(s, e, '\r') && byte_at(s, e + 1, '\n') {
        e + 2
    } else if e < s.len() {
        e + 1
    } else {
        e
    }
}

/// White space and comments between tokens.
pub open spec fn ws(s: Seq<u8>, i: int) -> int
    decreases s.len() - i,
{
    let a = skip_space(s, i);
    if byte_at(s, a, '#') {
        proof {
            lemma_span(s, i, Class::Space);
            lemma_span(s, a + 1, Class::Comment);
        }
        ws(s, comment_end(s, a + 1))
    } else {
        a
    }
}

/// Comments that belong to what follows them. Each takes the rest of its line, without the blanks
/// behind the `#`.
pub open spec fn comments(s: Seq<u8>, i: int) -> (int, Seq<Seq<char>>)
    decreases s.len() - i,
{
    let a = skip_space(s, i);
    if byte_at(s, a, '#') {
        let b = span(s, a + 1, Class::Blank);
        let e = span(s, b, Class::Line);
        let n = skip_space(s, e);
        proof {
            lemma_span(s, i, Class::Space);
            lemma_span(s, a + 1, Class::Blank);
            lemma_span(s, b, Class::Line);
            lemma_span(s, e, Class::Space);
        }
        let rest = comments(s, n);
        (rest.0, seq![text_of(s, b, e)] + rest.1)
    } else if a < s.len() {
        (i, seq![])
    } else {
        (a, seq![])
    }
}

/// A keyword and the white space behind it.
pub open spec fn keyword(s: Seq<u8>, i: int, word: Seq<char>) -> Option<int> {
    if !word_at(s, i, word) {
        None
    } else {
        let a = behind(i, word);
        let b = span(s, a, Class::KeywordSpace);
        if a < b {
            Some(b)
        } else {
            None
        }
    }
}

/// A field name: a letter, then letters, digits and underscores.
pub open spec fn field_name(s: Seq<u8>, i: int) -> Option<(int, Seq<char>)> {
    if 0 <= i < s.len() && is_alpha(s[i]) {
        let j = span(s, i + 1, Class::FieldByte);
        Some((j, text_of(s, i, j)))
    } else {
        None
    }
}

/// A type name: an upper-case letter, then letters and digits.
pub open spec fn type_ident(s: Seq<u8>, i: int) -> Option<(int, Seq<char>)> {
    if 0 <= i < s.len() && is_upper(s[i]) {
        let j = span(s, i + 1, Class::Alnum);
        Some((j, text_of(s, i, j)))
    } else {
        None
    }
}

/// The position behind the last byte before `e` that is no dash, not going back behind `i`.
pub open spec fn without_dashes(s: Seq<u8>, i: int, e: int) -> int
    decreases e - i,
{
    if i < e && byte_at(s, e - 1, '-') {
        without_dashes(s, i, e - 1)
    } else {
        e
    }
}

/// The position behind a segment of an interface name, `i` being that behind its first byte: letters,
/// digits and dashes, the last of them no dash.
pub open spec fn segment_end(s: Seq<u8>, i: int) -> int {
    without_dashes(s, i, span(s, i, Class::SegmentByte))
}

/// The position behind the segments of an interface name that follow its first one. Behind every dot
/// there is a letter or a digit.
pub open spec fn segments(s: Seq<u8>, i: int) -> Option<int>
    decreases s.len() - i,
{
    if !byte_at(s, i, '.') {
        Some(i)
    } else if i + 1 < s.len() && is_alnum(s[i + 1]) {
        proof {
            lemma_segment_end(s, i + 2);
        }
        segments(s, segment_end(s, i + 2))
    } else {
        None
    }
}

/// An interface name: two segments or more, with dots between them.
pub open spec fn interface_name(s: Seq<u8>, i: int) -> Option<(int, Seq<char>)> {
    if 0 <= i < s.len() && is_alpha(s[i]) && byte_at(s, segment_end(s, i + 1), '.') {
        match segments(s, segment_end(s, i + 1)) {
            Some(j) => Some((j, text_of(s, i, j))),
            None => None,
        }
    } else {
        None
    }
}

/// A primitive type.
pub open spec fn primitive_type(s: Seq<u8>, i: int) -> Option<(int, TypeView)> {
    if word_at(s, i, "bool"@) {
        Some((behind(i, "bool"@), TypeView::Bool))
    } else if word_at(s, i, "int"@) {
        Some((behind(i, "int"@), TypeView::Int))
    } else if word_at(s, i, "float"@) {
        Some((behind(i, "float"@), TypeView::Float))
    } else if word_at(s, i, "string"@) {
        Some((behind(i, "string"@), TypeView::String))
    } else if word_at(s, i, "object"@) {
        Some((behind(i, "object"@), TypeView::ForeignObject))
    } else if word_at(s, i, "any"@) {
        Some((behind(i, "any"@), TypeView::Any))
    } else {
        None
    }
}

/// What stands between two members of a list. Comments in front of the comma belong to nothing;
/// those behind it are left for the next member.
pub open spec fn separator(s: Seq<u8>, i: int) -> Option<int> {
    let a = ws(s, i);
    if byte_at(s, a, ',') {
        Some(skip_space(s, a + 1))
    } else {
        None
    }
}

/// The opening bracket of a list, and the white space behind it.
pub open spec fn open_list(s: Seq<u8>, i: int) -> Option<int> {
    if byte_at(s, i, '(') {
        Some(skip_space(s, i + 1))
    } else {
        None
    }
}

/// The closing bracket of a list, and what stands in front of it.
pub open spec fn close_list(s: Seq<u8>, i: int) -> Option<int> {
    let a = ws(s, i);
    if byte_at(s, a, ')') {
        Some(a + 1)
    } else {
        None
    }
}

/// The colon of a field, and what stands around it.
pub open spec fn colon(s: Seq<u8>, i: int) -> Option<int> {
    let a = ws(s, i);
    if byte_at(s, a, ':') {
        Some(ws(s, a + 1))
    } else {
        None
    }
}

/// Any type.
pub open spec fn varlink_type(s: Seq<u8>, i: int) -> Option<(int, TypeView)>
    decreases s.len() - i, 3int,
{
    if byte_at(s, i, '?') && plain_type(s, i + 1) is Some {
        let (j, t) = plain_type(s, i + 1)->0;
        Some((j, TypeView::Optional(Box::new(t))))
    } else {
        plain_type(s, i)
    }
}

/// Any type but an optional one. The type behind `[]` or `[string]` starts right there.
pub open spec fn plain_type(s: Seq<u8>, i: int) -> Option<(int, TypeView)>
    decreases s.len() - i, 2int,
{
    proof {
        lemma_words();
    }
    let a = behind(i, "[]"@);
    let m = behind(i, "[string]"@);
    if word_at(s, i, "[]"@) && varlink_type(s, a) is Some {
        let (j, t) = varlink_type(s, a)->0;
        Some((j, TypeView::Array(Box::new(t))))
    } else if word_at(s, i, "[string]"@) && varlink_type(s, m) is Some {
        let (j, t) = varlink_type(s, m)->0;
        Some((j, TypeView::Mapping(Box::new(t))))
    } else if primitive_type(s, i) is Some {
        primitive_type(s, i)
    } else if type_ident(s, i) is Some {
        let (j, name) = type_ident(s, i)->0;
        Some((j, TypeView::Custom(name)))
    } else {
        match field_list(s, i) {
            Some((j, fields)) => Some((j, TypeView::Object(fields))),
            None => match variant_list(s, i) {
                Some((j, variants)) => Some((j, TypeView::Enum(variants))),
                None => None,
            },
        }
    }
}

/// A field: comments, a name, a colon, a type.
pub open spec fn field(s: Seq<u8>, i: int) -> Option<(int, FieldView)>
    decreases s.len() - i, 4int,
{
    let (c, comments) = comments(s, i);
    match field_name(s, c) {
        None => None,
        Some((n, name)) => match colon(s, n) {
            None => None,
            Some(t) => {
                proof {
                    lemma_comments(s, i);
                    lemma_field_name(s, c);
                    lemma_colon(s, n);
                }
                match varlink_type(s, t) {
                    None => None,
                    Some((j, ty)) => Some((j, FieldView { name, ty, comments })),
                }
            },
        },
    }
}

/// Fields with separators in front of each. A separator that no field follows is left alone.
pub open spec fn more_fields(s: Seq<u8>, i: int) -> (int, Seq<FieldView>)
    decreases s.len() - i, 5int,
{
    match separator(s, i) {
        None => (i, seq![]),
        Some(a) => {
            proof {
                lemma_separator(s, i);
            }
            match field(s, a) {
                None => (i, seq![]),
                Some((j, f)) => if i < j <= s.len() {
                    let rest = more_fields(s, j);
                    (rest.0, seq![f] + rest.1)
                } else {
                    (j, seq![f])
                },
            }
        },
    }
}

/// Fields with separators between them; there may be none.
pub open spec fn fields(s: Seq<u8>, i: int) -> (int, Seq<FieldView>)
    decreases s.len() - i, 6int,
{
    match field(s, i) {
        None => (i, seq![]),
        Some((j, f)) => if i < j <= s.len() {
            let rest = more_fields(s, j);
            (rest.0, seq![f] + rest.1)
        } else {
            (j, seq![f])
        },
    }
}

/// Fields in brackets.
pub open spec fn field_list(s: Seq<u8>, i: int) -> Option<(int, Seq<FieldView>)>
    decreases s.len() - i, 1int,
{
    match open_list(s, i) {
        None => None,
        Some(a) => {
            proof {
                lemma_span(s, i + 1, Class::Space);
            }
            let (b, fs) = fields(s, a);
            match close_list(s, b) {
                None => None,
                Some(j) => Some((j, fs)),
            }
        },
    }
}

/// A variant: comments and a name.
pub open spec fn variant(s: Seq<u8>, i: int) -> Option<(int, EnumVariantView)> {
    let (c, comments) = comments(s, i);
    match field_name(s, c) {
        None => None,
        Some((j, name)) => Some((j, EnumVariantView { name, comments })),
    }
}

/// Members with separators in front of each, `p` being the production of a member.
pub open spec fn more_of<T>(
    s: Seq<u8>,
    i: int,
    p: spec_fn(int) -> Option<(int, T)>,
) -> (int, Seq<T>)
    decreases s.len() - i,
{
    match separator(s, i) {
        None => (i, seq![]),
        Some(a) => match p(a) {
            None => (i, seq![]),
            Some((j, m)) => if i < j <= s.len() {
                let rest = more_of(s, j, p);
                (rest.0, seq![m] + rest.1)
            } else {
                (j, seq![m])
            },
        },
    }
}

/// Members with separators between them; there may be none.
pub open spec fn list_of<T>(
    s: Seq<u8>,
    i: int,
    p: spec_fn(int) -> Option<(int, T)>,
) -> (int, Seq<T>) {
    match p(i) {
        None => (i, seq![]),
        Some((j, m)) => {
            let rest = more_of(s, j, p);
            (rest.0, seq![m] + rest.1)
        },
    }
}

/// Members in brackets.
pub open spec fn bracketed<T>(
    s: Seq<u8>,
    i: int,
    p: spec_fn(int) -> Option<(int, T)>,
) -> Option<(int, Seq<T>)> {
    match open_list(s, i) {
        None => None,
        Some(a) => {
            let (b, ms) = list_of(s, a, p);
            match close_list(s, b) {
                None => None,
                Some(j) => Some((j, ms)),
            }
        },
    }
}

/// Variants in brackets.
pub open spec fn variant_list(s: Seq<u8>, i: int) -> Option<(int, Seq<EnumVariantView>)> {
    bracketed(s, i, |k: int| variant(s, k))
}

/// A method: comments, `method`, a name, what it takes, `->`, what it gives back.
pub open spec fn method_def(s: Seq<u8>, i: int) -> Option<(int, MethodView)> {
    let (c, comments) = comments(s, i);
    match keyword(s, c, "method"@) {
        None => None,
        Some(k) => match type_ident(s, k) {
            None => None,
            Some((n, name)) => match field_list(s, ws(s, n)) {
                None => None,
                Some((a, inputs)) => {
                    let w = ws(s, a);
                    if !word_at(s, w, "->"@) {
                        None
                    } else {
                        match field_list(s, ws(s, behind(w, "->"@))) {
                            None => None,
                            Some((j, outputs)) => Some(
                                (j, MethodView { name, inputs, outputs, comments }),
                            ),
                        }
                    }
                },
            },
        },
    }
}

/// An error: comments, `error`, a name, what it carries.
pub open spec fn error_def(s: Seq<u8>, i: int) -> Option<(int, ErrorView)> {
    let (c, comments) = comments(s, i);
    match keyword(s, c, "error"@) {
        None => None,
        Some(k) => match type_ident(s, k) {
            None => None,
            Some((n, name)) => match field_list(s, ws(s, n)) {
                None => None,
                Some((j, fields)) => Some((j, ErrorView { name, fields, comments })),
            },
        },
    }
}

/// The position that an error which does not match was followed to.
pub open spec fn error_stop(s: Seq<u8>, i: int) -> int {
    let c = comments(s, i).0;
    match keyword(s, c, "error"@) {
        None => if word_at(s, c, "error"@) {
            behind(c, "error"@)
        } else {
            c
        },
        Some(k) => match type_ident(s, k) {
            None => k,
            Some((n, _)) => match open_list(s, ws(s, n)) {
                None => ws(s, n),
                Some(a) => ws(s, fields(s, a).0),
            },
        },
    }
}

/// A member of a custom type: typed, or only named.
pub enum MemberView {
    /// A typed member.
    Field(FieldView),
    /// A named one.
    Variant(EnumVariantView),
}

/// A member of a custom type. Where no type can be read behind the name, the name stands alone.
pub open spec fn member(s: Seq<u8>, i: int) -> Option<(int, MemberView)> {
    match field(s, i) {
        Some((j, f)) => Some((j, MemberView::Field(f))),
        None => match variant(s, i) {
            Some((j, v)) => Some((j, MemberView::Variant(v))),
            None => None,
        },
    }
}

/// The typed members.
pub open spec fn typed_members(ms: Seq<MemberView>) -> Seq<FieldView>
    decreases ms.len(),
{
    if ms.len() == 0 {
        seq![]
    } else {
        match ms.last() {
            MemberView::Field(f) => typed_members(ms.drop_last()).push(f),
            MemberView::Variant(_) => typed_members(ms.drop_last()),
        }
    }
}

/// The members that are only named.
pub open spec fn named_members(ms: Seq<MemberView>) -> Seq<EnumVariantView>
    decreases ms.len(),
{
    if ms.len() == 0 {
        seq![]
    } else {
        match ms.last() {
            MemberView::Field(_) => named_members(ms.drop_last()),
            MemberView::Variant(v) => named_members(ms.drop_last()).push(v),
        }
    }
}

/// A custom type: comments, `type`, a name, and members that are all typed or all only named. One
/// without members counts as typed.
pub open spec fn type_def(s: Seq<u8>, i: int) -> Option<(int, CustomTypeView)> {
    let (c, comments) = comments(s, i);
    match keyword(s, c, "type"@) {
        None => None,
        Some(k) => match type_ident(s, k) {
            None => None,
            Some((n, name)) => match bracketed(s, ws(s, n), |k: int| member(s, k)) {
                None => None,
                Some((j, ms)) => {
                    let fields = typed_members(ms);
                    let variants = named_members(ms);
                    if variants.len() == 0 {
                        let members = MembersView::Object(fields);
                        Some((j, CustomTypeView { name, members, comments }))
                    } else if fields.len() == 0 {
                        let members = MembersView::Enum(variants);
                        Some((j, CustomTypeView { name, members, comments }))
                    } else {
                        None
                    }
                },
            },
        },
    }
}

/// The members of an interface, in order.
pub struct MembersOfInterface {
    /// The methods.
    pub methods: Seq<MethodView>,
    /// The custom types.
    pub custom_types: Seq<CustomTypeView>,
    /// The errors.
    pub errors: Seq<ErrorView>,
}

/// The members of an interface from `i` on, behind those of `m`. They end at the end of the text,
/// or at something that is no member: it has been followed as far as it looks like an error.
pub open spec fn interface_members(s: Seq<u8>, i: int, m: MembersOfInterface) -> (
    int,
    MembersOfInterface,
)
    decreases s.len() - i,
{
    let a = skip_space(s, i);
    if a >= s.len() {
        (a, m)
    } else {
        let next = match type_def(s, a) {
            Some((j, t)) => Some(
                (j, MembersOfInterface { custom_types: m.custom_types.push(t), ..m }),
            ),
            None => match method_def(s, a) {
                Some((j, t)) => Some((j, MembersOfInterface { methods: m.methods.push(t), ..m })),
                None => match error_def(s, a) {
                    Some((j, t)) => Some((j, MembersOfInterface { errors: m.errors.push(t), ..m })),
                    None => None,
                },
            },
        };
        match next {
            None => (error_stop(s, a), m),
            Some((j, m)) => if i < j <= s.len() {
                interface_members(s, j, m)
            } else {
                (j, m)
            },
        }
    }
}

/// An interface: comments, `interface`, a name, members. The error is the position at which the
/// text is not that of an interface.
pub open spec fn interface_def(s: Seq<u8>, i: int) -> Result<(int, InterfaceView), int> {
    let (c, comments) = comments(s, i);
    match keyword(s, c, "interface"@) {
        None => Err(
            if word_at(s, c, "interface"@) {
                behind(c, "interface"@)
            } else {
                c
            },
        ),
        Some(k) => match interface_name(s, k) {
            None => Err(k),
            Some((n, name)) => {
                let none = MembersOfInterface {
                    methods: seq![],
                    custom_types: seq![],
                    errors: seq![],
                };
                let (j, m) = interface_members(s, n, none);
                Ok(
                    (
                        j,
                        InterfaceView {
                            name,
                            methods: m.methods,
                            custom_types: m.custom_types,
                            errors: m.errors,
                            comments,
                        },
                    ),
                )
            },
        },
    }
}

/// What is said of a text that goes on behind an interface.
pub open spec fn rest_text(rest: Seq<u8>) -> Seq<char> {
    if valid_utf8(rest) {
        decode_utf8(rest)
    } else {
        "<invalid UTF-8>"@
    }
}

/// The interface that a text describes, or what is wrong with it. White space around the text does
/// not count.
pub open spec fn interface(t: Seq<char>) -> Result<InterfaceView, Seq<char>> {
    let s = encode_utf8(text::trimmed(t));
    if s.len() == 0 {
        Err("Input is empty"@)
    } else {
        match interface_def(s, 0) {
            Err(e) => Err(
                "Parse error: "@ + parse::backtrack_text(s.subrange(e, s.len() as int)),
            ),
            Ok((j, i)) => if ws(s, j) == s.len() {
                Ok(i)
            } else {
                Err(
                    "Unexpected remaining input: "@ + text::debug_text(
                        rest_text(s.subrange(ws(s, j), s.len() as int)),
                    ),
                )
            },
        }
    }
}

/// A span stays in the text and starts where it was asked to.
pub proof fn lemma_span(s: Seq<u8>, i: int, class: Class)
    ensures
        i <= span(s, i, class),
        i <= s.len() ==> span(s, i, class) <= s.len(),
        0 <= i ==> forall|k: int| i <= k < span(s, i, class) ==> in_class(#[trigger] s[k], class),
        0 <= i && span(s, i, class) < s.len() ==> !in_class(s[span(s, i, class)], class),
    decreases s.len() - i,
{
    if 0 <= i < s.len() && in_class(s[i], class) {
        lemma_span(s, i + 1, class);
    }
}

/// What is without dashes lies in between, and ends in something else.
pub proof fn lemma_without_dashes(s: Seq<u8>, i: int, e: int)
    requires
        i <= e,
    ensures
        i <= without_dashes(s, i, e) <= e,
        i < without_dashes(s, i, e) ==> !byte_at(s, without_dashes(s, i, e) - 1, '-'),
    decreases e - i,
{
    if i < e && byte_at(s, e - 1, '-') {
        lemma_without_dashes(s, i, e - 1);
    }
}

/// A segment stays in the text and starts where it was asked to; it holds letters, digits and dashes,
/// and the last of them is no dash.
pub proof fn lemma_segment_end(s: Seq<u8>, i: int)
    ensures
        i <= segment_end(s, i),
        i <= s.len() ==> segment_end(s, i) <= s.len(),
        0 <= i ==> forall|k: int|
            i <= k < segment_end(s, i) ==> in_class(#[trigger] s[k], Class::SegmentByte),
        0 <= i < segment_end(s, i) <= s.len() ==> is_alnum(s[segment_end(s, i) - 1]),
{
    lemma_span(s, i, Class::SegmentByte);
    lemma_without_dashes(s, i, span(s, i, Class::SegmentByte));
    if 0 <= i < segment_end(s, i) <= s.len() {
        assert(in_class(s[segment_end(s, i) - 1], Class::SegmentByte));
    }
}

/// The words in front of types are not empty.
pub proof fn lemma_words()
    ensures
        encode_utf8("[]"@).len() > 0,
        encode_utf8("[string]"@).len() > 0,
{
    reveal_strlit("[]");
    reveal_strlit("[string]");
}

/// White space is skipped at once.
pub proof fn lemma_skip_twice(s: Seq<u8>, i: int)
    requires
        0 <= i,
    ensures
        skip_space(s, skip_space(s, i)) == skip_space(s, i),
        ws(s, skip_space(s, i)) == ws(s, i),
{
    lemma_span(s, i, Class::Space);
}

/// White space and comments stay in the text and start where they were asked to.
pub proof fn lemma_ws(s: Seq<u8>, i: int)
    ensures
        i <= ws(s, i),
        i <= s.len() ==> ws(s, i) <= s.len(),
    decreases s.len() - i,
{
    let a = skip_space(s, i);
    lemma_span(s, i, Class::Space);
    if byte_at(s, a, '#') {
        lemma_span(s, a + 1, Class::Comment);
        lemma_ws(s, comment_end(s, a + 1));
    }
}

/// Comments stay in the text and start where they were asked to.
pub proof fn lemma_comments(s: Seq<u8>, i: int)
    ensures
        i <= comments(s, i).0,
        i <= s.len() ==> comments(s, i).0 <= s.len(),
    decreases s.len() - i,
{
    let a = skip_space(s, i);
    lemma_span(s, i, Class::Space);
    if byte_at(s, a, '#') {
        let b = span(s, a + 1, Class::Blank);
        let e = span(s, b, Class::Line);
        lemma_span(s, a + 1, Class::Blank);
        lemma_span(s, b, Class::Line);
        lemma_span(s, e, Class::Space);
        lemma_comments(s, skip_space(s, e));
    }
}

/// A field name takes something and stays in the text.
pub proof fn lemma_field_name(s: Seq<u8>, i: int)
    ensures
        field_name(s, i) matches Some((j, _)) ==> 0 <= i < j <= s.len(),
{
    lemma_span(s, i + 1, Class::FieldByte);
}

/// A colon takes something and stays in the text.
pub proof fn lemma_colon(s: Seq<u8>, i: int)
    ensures
        colon(s, i) matches Some(j) ==> i < j <= s.len(),
{
    lemma_ws(s, i);
    lemma_ws(s, ws(s, i) + 1);
}

/// A separator takes something and stays in the text.
pub proof fn lemma_separator(s: Seq<u8>, i: int)
    ensures
        separator(s, i) matches Some(j) ==> i < j <= s.len(),
{
    lemma_ws(s, i);
    lemma_span(s, ws(s, i) + 1, Class::Space);
}

} // verus!
