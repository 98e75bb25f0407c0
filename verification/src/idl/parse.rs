//! The parser of interface descriptions.

use vstd::prelude::*;
use vstd::slice::slice_subrange;
use vstd::utf8::*;

use super::boundaries;
use super::grammar;
use super::grammar::{Class, MemberView};
use super::{
    Comment, CustomEnum, CustomObject, CustomType, EnumVariant, Error, Field, Interface, List,
    Method, Parameter, Type, TypeRef,
};
use crate::error;
use crate::text;
use crate::text::{bytes_to_str, debug_str, from_utf8, trim};

verus! {

/// ASCII bytes are text.
proof fn lemma_ascii(bytes: Seq<u8>)
    requires
        forall|k: int| 0 <= k < bytes.len() ==> #[trigger] bytes[k] < 0x80,
    ensures
        valid_utf8(bytes),
{
    let chars = Seq::new(bytes.len(), |k: int| bytes[k] as char);
    assert(is_ascii_chars(chars));
    is_ascii_chars_encode_utf8(chars);
    assert(encode_utf8(chars) =~= bytes);
    encode_utf8_valid_utf8(chars);
}

/// Whether a byte is of a class.
fn has_class(b: u8, class: Class) -> (r: bool)
    ensures
        r == grammar::in_class(b, class),
{
    let c = b as char;
    let space = c == ' ' || c == '\t' || c == '\r' || c == '\n';
    let alnum = is_alpha(b) || '0' <= c && c <= '9';
    match class {
        Class::Space => space,
        Class::KeywordSpace => space || c == '\u{c}',
        Class::Blank => c == ' ' || c == '\t',
        Class::Line => c != '\n',
        Class::Comment => c != '\n' && c != '\r',
        Class::Alnum => alnum,
        Class::FieldByte => alnum || c == '_',
        Class::SegmentByte => alnum || c == '-',
    }
}

/// Whether a byte is an upper-case letter.
fn is_upper(b: u8) -> (r: bool)
    ensures
        r == grammar::is_upper(b),
{
    let c = b as char;
    'A' <= c && c <= 'Z'
}

/// Whether a byte is a letter.
fn is_alpha(b: u8) -> (r: bool)
    ensures
        r == grammar::is_alpha(b),
{
    let c = b as char;
    is_upper(b) || 'a' <= c && c <= 'z'
}

/// The first position from `pos` on that holds no byte of the class.
fn skip(s: &[u8], pos: usize, class: Class) -> (r: usize)
    requires
        pos <= s@.len(),
    ensures
        r == grammar::span(s@, pos as int, class),
        pos <= r <= s@.len(),
{
    let mut i: usize = pos;
    while i < s.len() && has_class(s[i], class)
        invariant
            pos <= i <= s@.len(),
            grammar::span(s@, i as int, class) == grammar::span(s@, pos as int, class),
        decreases s@.len() - i,
    {
        i += 1;
    }
    i
}

/// Whether the text holds the ASCII character `c` at `pos`.
fn byte_at(s: &[u8], pos: usize, c: char) -> (r: bool)
    ensures
        r == grammar::byte_at(s@, pos as int, c),
        r ==> pos < usize::MAX,
{
    pos < s.len() && s[pos] as char == c
}

/// The position behind `word` at `pos`, where the text holds it there.
fn literal(s: &[u8], pos: usize, word: &str) -> (r: Option<usize>)
    requires
        pos <= s@.len(),
    ensures
        match r {
            Some(j) => grammar::word_at(s@, pos as int, word@) && j == grammar::behind(
                pos as int,
                word@,
            ) && j <= s@.len(),
            None => !grammar::word_at(s@, pos as int, word@),
        },
{
    let w = word.as_bytes();
    let n: usize = s.len();
    if w.len() > n - pos {
        return None;
    }
    let mut k: usize = 0;
    while k < w.len()
        invariant
            n == s@.len(),
            w@ == encode_utf8(word@),
            k <= w@.len() <= s@.len() - pos,
            forall|m: int| 0 <= m < k ==> s@[pos + m] == #[trigger] w@[m],
        decreases w@.len() - k,
    {
        if s[pos + k] != w[k] {
            assert(s@.subrange(pos as int, pos + w@.len())[k as int] != w@[k as int]);
            return None;
        }
        k += 1;
    }
    assert(s@.subrange(pos as int, pos + w@.len()) =~= w@);
    Some(pos + w.len())
}

/// The text between two positions.
fn text_of<'a>(s: &'a [u8], i: usize, j: usize) -> (r: &'a str)
    requires
        i <= j <= s@.len(),
        valid_utf8(s@.subrange(i as int, j as int)),
    ensures
        r@ == grammar::text_of(s@, i as int, j as int),
{
    bytes_to_str(slice_subrange(s, i, j))
}

/// White space and comments between tokens.
fn ws(s: &[u8], pos: usize) -> (r: usize)
    requires
        pos <= s@.len(),
    ensures
        r == grammar::ws(s@, pos as int),
        pos <= r <= s@.len(),
{
    let n: usize = s.len();
    let mut i: usize = skip(s, pos, Class::Space);
    proof {
        grammar::lemma_skip_twice(s@, pos as int);
    }
    while byte_at(s, i, '#')
        invariant
            n == s@.len(),
            pos <= i <= s@.len(),
            i == grammar::skip_space(s@, i as int),
            grammar::ws(s@, i as int) == grammar::ws(s@, pos as int),
        decreases s@.len() - i,
    {
        let mut e: usize = skip(s, i + 1, Class::Comment);
        if byte_at(s, e, '\r') && byte_at(s, e + 1, '\n') {
            e += 2;
        } else if e < n {
            e += 1;
        }
        assert(e == grammar::comment_end(s@, i + 1));
        i = skip(s, e, Class::Space);
        proof {
            grammar::lemma_skip_twice(s@, e as int);
        }
    }
    i
}

/// The comments in front of something.
fn parse_preceding_comments<'a>(s: &'a [u8], pos: usize) -> (r: (usize, Vec<Comment<'a>>))
    requires
        pos <= s@.len(),
        valid_utf8(s@),
    ensures
        (r.0 as int, super::comments_view(r.1@)) == grammar::comments(s@, pos as int),
        pos <= r.0 <= s@.len(),
{
    let n: usize = s.len();
    let mut found: Vec<Comment<'a>> = Vec::new();
    let mut i: usize = pos;
    loop
        invariant
            n == s@.len(),
            pos <= i <= n,
            valid_utf8(s@),
            ({
                let rest = grammar::comments(s@, i as int);
                grammar::comments(s@, pos as int) == (
                    rest.0,
                    super::comments_view(found@) + rest.1,
                )
            }),
        decreases n - i,
    {
        let a: usize = skip(s, i, Class::Space);
        if !byte_at(s, a, '#') {
            let end: usize = if a < n {
                i
            } else {
                a
            };
            assert(super::comments_view(found@) + seq![] =~= super::comments_view(found@));
            return (end, found);
        }
        let ghost before = found@;
        let b: usize = skip(s, a + 1, Class::Blank);
        let e: usize = skip(s, b, Class::Line);
        proof {
            grammar::lemma_span(s@, a + 1, Class::Blank);
            grammar::lemma_span(s@, b as int, Class::Line);
            assert(s@[b - 1] < 0x80) by {
                if b == a + 1 {
                } else {
                    assert(grammar::in_class(s@[b - 1], Class::Blank));
                }
            }
            boundaries::lemma_boundary_behind(s@, b - 1);
            boundaries::lemma_text_between(s@, b as int, e as int);
        }
        let content: &'a str = text_of(s, b, e);
        found.push(Comment { content });
        i = skip(s, e, Class::Space);
        proof {
            let rest = grammar::comments(s@, i as int);
            assert(super::comments_view(before) + (seq![content@] + rest.1)
                =~= super::comments_view(found@) + rest.1);
        }
    }
}

/// A keyword and the white space behind it. The error is the position at which it ends.
fn keyword(s: &[u8], pos: usize, word: &str) -> (r: Result<usize, usize>)
    requires
        pos <= s@.len(),
    ensures
        match r {
            Ok(j) => grammar::keyword(s@, pos as int, word@) == Some(j as int) && pos <= j
                <= s@.len(),
            Err(e) => grammar::keyword(s@, pos as int, word@) is None && pos <= e <= s@.len() && e
                == if grammar::word_at(s@, pos as int, word@) {
                grammar::behind(pos as int, word@)
            } else {
                pos as int
            },
        },
{
    match literal(s, pos, word) {
        None => Err(pos),
        Some(a) => {
            let b: usize = skip(s, a, Class::KeywordSpace);
            if a < b {
                Ok(b)
            } else {
                Err(a)
            }
        },
    }
}

/// What a parser function gives back stands for what the production gives.
pub open spec fn same<T: View>(r: Option<(usize, T)>, g: Option<(int, T::V)>) -> bool {
    match r {
        Some((j, v)) => g == Some((j as int, v@)),
        None => g is None,
    }
}

/// A name that starts at `pos` and goes on with bytes of the class is ASCII.
proof fn lemma_name(s: Seq<u8>, pos: int, class: Class)
    requires
        0 <= pos < s.len(),
        grammar::is_alpha(s[pos]),
        class is Alnum || class is FieldByte,
    ensures
        valid_utf8(s.subrange(pos, grammar::span(s, pos + 1, class))),
{
    let j = grammar::span(s, pos + 1, class);
    grammar::lemma_span(s, pos + 1, class);
    assert forall|k: int| 0 <= k < j - pos implies #[trigger] s.subrange(pos, j)[k] < 0x80 by {
        if k > 0 {
            assert(grammar::in_class(s[pos + k], class));
        }
    }
    lemma_ascii(s.subrange(pos, j));
}

/// A field name.
fn field_name<'a>(s: &'a [u8], pos: usize) -> (r: Option<(usize, &'a str)>)
    requires
        pos <= s@.len(),
    ensures
        same(r, grammar::field_name(s@, pos as int)),
        r matches Some((j, _)) ==> pos < j <= s@.len(),
{
    if pos < s.len() && is_alpha(s[pos]) {
        let j: usize = skip(s, pos + 1, Class::FieldByte);
        proof {
            lemma_name(s@, pos as int, Class::FieldByte);
        }
        Some((j, text_of(s, pos, j)))
    } else {
        None
    }
}

/// A type name.
fn type_ident<'a>(s: &'a [u8], pos: usize) -> (r: Option<(usize, &'a str)>)
    requires
        pos <= s@.len(),
    ensures
        same(r, grammar::type_ident(s@, pos as int)),
        r matches Some((j, _)) ==> pos < j <= s@.len(),
{
    if pos < s.len() && is_upper(s[pos]) {
        let j: usize = skip(s, pos + 1, Class::Alnum);
        proof {
            lemma_name(s@, pos as int, Class::Alnum);
        }
        Some((j, text_of(s, pos, j)))
    } else {
        None
    }
}

/// The position behind a segment of an interface name, `pos` being that behind its first byte.
fn segment_end(s: &[u8], pos: usize) -> (r: usize)
    requires
        pos <= s@.len(),
    ensures
        r == grammar::segment_end(s@, pos as int),
        pos <= r <= s@.len(),
{
    let mut e: usize = skip(s, pos, Class::SegmentByte);
    while e > pos && byte_at(s, e - 1, '-')
        invariant
            pos <= e <= s@.len(),
            grammar::segment_end(s@, pos as int) == grammar::without_dashes(
                s@,
                pos as int,
                e as int,
            ),
        decreases e,
    {
        e -= 1;
    }
    e
}

/// An interface name.
fn interface_name<'a>(s: &'a [u8], pos: usize) -> (r: Option<(usize, &'a str)>)
    requires
        pos <= s@.len(),
    ensures
        same(r, grammar::interface_name(s@, pos as int)),
        r matches Some((j, _)) ==> pos < j <= s@.len(),
{
    let n: usize = s.len();
    if pos >= n || !is_alpha(s[pos]) {
        return None;
    }
    let a: usize = segment_end(s, pos + 1);
    proof {
        grammar::lemma_segment_end(s@, pos + 1);
        assert forall|k: int| pos <= k < a implies #[trigger] s@[k] < 0x80 by {
            if k > pos {
                assert(grammar::in_class(s@[k], Class::SegmentByte));
            }
        }
    }
    if !byte_at(s, a, '.') {
        return None;
    }
    let mut i: usize = a;
    while byte_at(s, i, '.')
        invariant
            n == s@.len(),
            pos < a <= i <= n,
            grammar::segments(s@, i as int) == grammar::segments(s@, a as int),
            grammar::byte_at(s@, a as int, '.'),
            a == grammar::segment_end(s@, pos + 1),
            grammar::is_alpha(s@[pos as int]),
            forall|k: int| pos <= k < i ==> #[trigger] s@[k] < 0x80,
        decreases n - i,
    {
        if i + 1 >= n || !has_class(s[i + 1], Class::Alnum) {
            return None;
        }
        let j: usize = segment_end(s, i + 2);
        proof {
            grammar::lemma_segment_end(s@, i + 2);
            assert forall|k: int| pos <= k < j implies #[trigger] s@[k] < 0x80 by {
                if k >= i + 2 {
                    assert(grammar::in_class(s@[k], Class::SegmentByte));
                }
            }
        }
        i = j;
    }
    proof {
        lemma_ascii(s@.subrange(pos as int, i as int));
    }
    Some((i, text_of(s, pos, i)))
}

/// A primitive type.
fn primitive_type<'a>(s: &'a [u8], pos: usize) -> (r: Option<(usize, Type<'a>)>)
    requires
        pos <= s@.len(),
    ensures
        same(r, grammar::primitive_type(s@, pos as int)),
        r matches Some((j, _)) ==> pos <= j <= s@.len(),
{
    if let Some(j) = literal(s, pos, "bool") {
        Some((j, Type::Bool))
    } else if let Some(j) = literal(s, pos, "int") {
        Some((j, Type::Int))
    } else if let Some(j) = literal(s, pos, "float") {
        Some((j, Type::Float))
    } else if let Some(j) = literal(s, pos, "string") {
        Some((j, Type::String))
    } else if let Some(j) = literal(s, pos, "object") {
        Some((j, Type::ForeignObject))
    } else if let Some(j) = literal(s, pos, "any") {
        Some((j, Type::Any))
    } else {
        None
    }
}

/// What stands between two members of a list.
fn field_separator(s: &[u8], pos: usize) -> (r: Option<usize>)
    requires
        pos <= s@.len(),
    ensures
        match r {
            Some(j) => grammar::separator(s@, pos as int) == Some(j as int) && pos < j <= s@.len(),
            None => grammar::separator(s@, pos as int) is None,
        },
{
    let a: usize = ws(s, pos);
    if byte_at(s, a, ',') {
        Some(skip(s, a + 1, Class::Space))
    } else {
        None
    }
}

/// The opening bracket of a list.
fn open_list(s: &[u8], pos: usize) -> (r: Option<usize>)
    requires
        pos <= s@.len(),
    ensures
        match r {
            Some(j) => grammar::open_list(s@, pos as int) == Some(j as int) && pos < j <= s@.len(),
            None => grammar::open_list(s@, pos as int) is None,
        },
{
    if byte_at(s, pos, '(') {
        Some(skip(s, pos + 1, Class::Space))
    } else {
        None
    }
}

/// The closing bracket of a list. The error is the position at which it is missing.
fn close_list(s: &[u8], pos: usize) -> (r: Result<usize, usize>)
    requires
        pos <= s@.len(),
    ensures
        match r {
            Ok(j) => grammar::close_list(s@, pos as int) == Some(j as int) && pos < j <= s@.len(),
            Err(e) => grammar::close_list(s@, pos as int) is None && e == grammar::ws(
                s@,
                pos as int,
            ) && pos <= e <= s@.len(),
        },
{
    let a: usize = ws(s, pos);
    if byte_at(s, a, ')') {
        Ok(a + 1)
    } else {
        Err(a)
    }
}

/// The colon of a field.
fn colon(s: &[u8], pos: usize) -> (r: Option<usize>)
    requires
        pos <= s@.len(),
    ensures
        match r {
            Some(j) => grammar::colon(s@, pos as int) == Some(j as int) && pos < j <= s@.len(),
            None => grammar::colon(s@, pos as int) is None,
        },
{
    let a: usize = ws(s, pos);
    if byte_at(s, a, ':') {
        Some(ws(s, a + 1))
    } else {
        None
    }
}

/// A variant of an enum.
fn enum_variant<'a>(s: &'a [u8], pos: usize) -> (r: Option<(usize, EnumVariant<'a>)>)
    requires
        pos <= s@.len(),
        valid_utf8(s@),
    ensures
        same(r, grammar::variant(s@, pos as int)),
        r matches Some((j, _)) ==> pos < j <= s@.len(),
{
    let (c, comments) = parse_preceding_comments(s, pos);
    match field_name(s, c) {
        None => None,
        Some((j, name)) => Some((j, EnumVariant { name, comments: List::new(comments) })),
    }
}

/// Variants with separators between them.
fn enum_variants<'a>(s: &'a [u8], pos: usize) -> (r: (usize, Vec<EnumVariant<'a>>))
    requires
        pos <= s@.len(),
        valid_utf8(s@),
    ensures
        (r.0 as int, super::variants_view(r.1@)) == grammar::list_of(
            s@,
            pos as int,
            |k: int| grammar::variant(s@, k),
        ),
        pos <= r.0 <= s@.len(),
{
    let ghost p = |k: int| grammar::variant(s@, k);
    let mut vs: Vec<EnumVariant<'a>> = Vec::new();
    let (j, v) = match enum_variant(s, pos) {
        None => {
            assert(super::variants_view(vs@) =~= seq![]);
            return (pos, vs);
        },
        Some(m) => m,
    };
    vs.push(v);
    let mut i: usize = j;
    proof {
        let rest = grammar::more_of(s@, i as int, p);
        assert(super::variants_view(vs@) + rest.1 =~= seq![v@] + rest.1);
    }
    loop
        invariant
            pos <= i <= s@.len(),
            valid_utf8(s@),
            p == (|k: int| grammar::variant(s@, k)),
            ({
                let rest = grammar::more_of(s@, i as int, p);
                grammar::list_of(s@, pos as int, p) == (
                    rest.0,
                    super::variants_view(vs@) + rest.1,
                )
            }),
        decreases s@.len() - i,
    {
        let next = match field_separator(s, i) {
            None => None,
            Some(k) => enum_variant(s, k),
        };
        match next {
            None => {
                assert(super::variants_view(vs@) + seq![] =~= super::variants_view(vs@));
                return (i, vs);
            },
            Some((j, v)) => {
                let ghost before = vs@;
                vs.push(v);
                proof {
                    let rest = grammar::more_of(s@, j as int, p);
                    assert(super::variants_view(before) + (seq![v@] + rest.1)
                        =~= super::variants_view(vs@) + rest.1);
                }
                i = j;
            },
        }
    }
}

/// The variants of an inline enum.
fn variant_list<'a>(s: &'a [u8], pos: usize) -> (r: Option<(usize, Vec<EnumVariant<'a>>)>)
    requires
        pos <= s@.len(),
        valid_utf8(s@),
    ensures
        match r {
            Some((j, vs)) => grammar::variant_list(s@, pos as int) == Some(
                (j as int, super::variants_view(vs@)),
            ) && pos < j <= s@.len(),
            None => grammar::variant_list(s@, pos as int) is None,
        },
{
    match open_list(s, pos) {
        None => None,
        Some(a) => {
            let (b, vs) = enum_variants(s, a);
            match close_list(s, b) {
                Ok(j) => Some((j, vs)),
                Err(_) => None,
            }
        },
    }
}

/// Any type.
fn varlink_type<'a>(s: &'a [u8], pos: usize) -> (r: Option<(usize, Type<'a>)>)
    requires
        pos <= s@.len(),
        valid_utf8(s@),
    ensures
        same(r, grammar::varlink_type(s@, pos as int)),
        r matches Some((j, _)) ==> pos <= j <= s@.len(),
    decreases s@.len() - pos, 3int,
{
    if byte_at(s, pos, '?') {
        if let Some((j, inner)) = non_optional_type(s, pos + 1) {
            return Some((j, Type::Optional(TypeRef::new_owned(inner))));
        }
    }
    non_optional_type(s, pos)
}

/// Any type but an optional one.
fn non_optional_type<'a>(s: &'a [u8], pos: usize) -> (r: Option<(usize, Type<'a>)>)
    requires
        pos <= s@.len(),
        valid_utf8(s@),
    ensures
        same(r, grammar::plain_type(s@, pos as int)),
        r matches Some((j, _)) ==> pos <= j <= s@.len(),
    decreases s@.len() - pos, 2int,
{
    proof {
        grammar::lemma_words();
    }
    if let Some(a) = literal(s, pos, "[]") {
        if let Some((j, inner)) = varlink_type(s, a) {
            return Some((j, Type::Array(TypeRef::new_owned(inner))));
        }
    }
    if let Some(a) = literal(s, pos, "[string]") {
        if let Some((j, inner)) = varlink_type(s, a) {
            return Some((j, Type::Mapping(TypeRef::new_owned(inner))));
        }
    }
    if let Some((j, ty)) = primitive_type(s, pos) {
        return Some((j, ty));
    }
    if let Some((j, name)) = type_ident(s, pos) {
        return Some((j, Type::Custom(name)));
    }
    if let Ok((j, fields)) = parameter_list(s, pos) {
        return Some((j, Type::Object(List::new(fields))));
    }
    if let Some((j, variants)) = variant_list(s, pos) {
        return Some((j, Type::Enum(List::new(variants))));
    }
    None
}

/// A field.
fn field<'a>(s: &'a [u8], pos: usize) -> (r: Option<(usize, Field<'a>)>)
    requires
        pos <= s@.len(),
        valid_utf8(s@),
    ensures
        same(r, grammar::field(s@, pos as int)),
        r matches Some((j, _)) ==> pos < j <= s@.len(),
    decreases s@.len() - pos, 4int,
{
    let (c, comments) = parse_preceding_comments(s, pos);
    let (n, name) = match field_name(s, c) {
        None => {
            return None;
        },
        Some(name) => name,
    };
    match colon(s, n) {
        None => None,
        Some(t) => match varlink_type(s, t) {
            None => None,
            Some((j, ty)) => {
                let ty = TypeRef::new_owned(ty);
                Some((j, Field { name, ty, comments: List::new(comments) }))
            },
        },
    }
}

/// Fields with separators between them.
fn fields<'a>(s: &'a [u8], pos: usize) -> (r: (usize, Vec<Field<'a>>))
    requires
        pos <= s@.len(),
        valid_utf8(s@),
    ensures
        (r.0 as int, super::fields_view(r.1@)) == grammar::fields(s@, pos as int),
        pos <= r.0 <= s@.len(),
    decreases s@.len() - pos, 6int,
{
    let mut fs: Vec<Field<'a>> = Vec::new();
    let (j, f) = match field(s, pos) {
        None => {
            assert(super::fields_view(fs@) =~= seq![]);
            return (pos, fs);
        },
        Some(m) => m,
    };
    proof {
        super::lemma_fields_view_push(fs@, f);
    }
    fs.push(f);
    let mut i: usize = j;
    proof {
        let rest = grammar::more_fields(s@, i as int);
        assert(super::fields_view(fs@) + rest.1 =~= seq![f@] + rest.1);
    }
    loop
        invariant
            pos < i <= s@.len(),
            valid_utf8(s@),
            ({
                let rest = grammar::more_fields(s@, i as int);
                grammar::fields(s@, pos as int) == (rest.0, super::fields_view(fs@) + rest.1)
            }),
        decreases s@.len() - i,
    {
        let next = match field_separator(s, i) {
            None => None,
            Some(k) => field(s, k),
        };
        match next {
            None => {
                assert(super::fields_view(fs@) + seq![] =~= super::fields_view(fs@));
                return (i, fs);
            },
            Some((j, f)) => {
                proof {
                    super::lemma_fields_view_push(fs@, f);
                    let rest = grammar::more_fields(s@, j as int);
                    assert(super::fields_view(fs@) + (seq![f@] + rest.1) =~= super::fields_view(
                        fs@,
                    ).push(f@) + rest.1);
                }
                fs.push(f);
                i = j;
            },
        }
    }
}

/// Fields in brackets. The error is the position at which the list ends without being one.
fn parameter_list<'a>(s: &'a [u8], pos: usize) -> (r: Result<(usize, Vec<Parameter<'a>>), usize>)
    requires
        pos <= s@.len(),
        valid_utf8(s@),
    ensures
        match r {
            Ok((j, fs)) => grammar::field_list(s@, pos as int) == Some(
                (j as int, super::fields_view(fs@)),
            ) && pos < j <= s@.len(),
            Err(e) => grammar::field_list(s@, pos as int) is None && pos <= e <= s@.len() && e == (
            match grammar::open_list(s@, pos as int) {
                None => pos as int,
                Some(a) => grammar::ws(s@, grammar::fields(s@, a).0),
            }),
        },
    decreases s@.len() - pos, 1int,
{
    match open_list(s, pos) {
        None => Err(pos),
        Some(a) => {
            let (b, fs) = fields(s, a);
            match close_list(s, b) {
                Ok(j) => Ok((j, fs)),
                Err(e) => Err(e),
            }
        },
    }
}

/// A method.
fn method_def<'a>(s: &'a [u8], pos: usize) -> (r: Option<(usize, Method<'a>)>)
    requires
        pos <= s@.len(),
        valid_utf8(s@),
    ensures
        same(r, grammar::method_def(s@, pos as int)),
        r matches Some((j, _)) ==> pos < j <= s@.len(),
{
    let (c, comments) = parse_preceding_comments(s, pos);
    let k: usize = match keyword(s, c, "method") {
        Err(_) => {
            return None;
        },
        Ok(k) => k,
    };
    let (n, name) = match type_ident(s, k) {
        None => {
            return None;
        },
        Some(name) => name,
    };
    let (a, inputs) = match parameter_list(s, ws(s, n)) {
        Err(_) => {
            return None;
        },
        Ok(inputs) => inputs,
    };
    let b: usize = match literal(s, ws(s, a), "->") {
        None => {
            return None;
        },
        Some(b) => b,
    };
    match parameter_list(s, ws(s, b)) {
        Err(_) => None,
        Ok((j, outputs)) => Some(
            (
                j,
                Method {
                    name,
                    inputs: List::new(inputs),
                    outputs: List::new(outputs),
                    comments: List::new(comments),
                },
            ),
        ),
    }
}

/// An error. Where there is none, the position that it was followed to.
fn error_def<'a>(s: &'a [u8], pos: usize) -> (r: Result<(usize, Error<'a>), usize>)
    requires
        pos <= s@.len(),
        valid_utf8(s@),
    ensures
        match r {
            Ok((j, e)) => grammar::error_def(s@, pos as int) == Some((j as int, e@)) && pos < j
                <= s@.len(),
            Err(e) => grammar::error_def(s@, pos as int) is None && e == grammar::error_stop(
                s@,
                pos as int,
            ) && pos <= e <= s@.len(),
        },
{
    let (c, comments) = parse_preceding_comments(s, pos);
    let k: usize = match keyword(s, c, "error") {
        Err(e) => {
            return Err(e);
        },
        Ok(k) => k,
    };
    match type_ident(s, k) {
        None => Err(k),
        Some((n, name)) => match parameter_list(s, ws(s, n)) {
            Err(e) => Err(e),
            Ok((j, fields)) => Ok(
                (j, Error { name, fields: List::new(fields), comments: List::new(comments) }),
            ),
        },
    }
}

/// A member of a custom type: a typed field, or a variant that is only named.
enum FieldOrVariant<'a> {
    Field(Field<'a>),
    Variant(EnumVariant<'a>),
}

impl View for FieldOrVariant<'_> {
    type V = MemberView;

    closed spec fn view(&self) -> MemberView {
        match *self {
            FieldOrVariant::Field(f) => MemberView::Field(f@),
            FieldOrVariant::Variant(v) => MemberView::Variant(v@),
        }
    }
}

/// What a list of members says.
spec fn members_view(ms: Seq<FieldOrVariant<'_>>) -> Seq<MemberView> {
    Seq::new(ms.len(), |i: int| ms[i]@)
}

/// A member of a custom type.
fn field_or_variant<'a>(s: &'a [u8], pos: usize) -> (r: Option<(usize, FieldOrVariant<'a>)>)
    requires
        pos <= s@.len(),
        valid_utf8(s@),
    ensures
        same(r, grammar::member(s@, pos as int)),
        r matches Some((j, _)) ==> pos < j <= s@.len(),
{
    let (c, comments) = parse_preceding_comments(s, pos);
    let (n, name) = match field_name(s, c) {
        None => {
            return None;
        },
        Some(name) => name,
    };
    let comments = List::new(comments);
    if let Some(t) = colon(s, n) {
        if let Some((j, ty)) = varlink_type(s, t) {
            let ty = TypeRef::new_owned(ty);
            return Some((j, FieldOrVariant::Field(Field { name, ty, comments })));
        }
    }
    Some((n, FieldOrVariant::Variant(EnumVariant { name, comments })))
}

/// Members with separators between them.
fn members<'a>(s: &'a [u8], pos: usize) -> (r: (usize, Vec<FieldOrVariant<'a>>))
    requires
        pos <= s@.len(),
        valid_utf8(s@),
    ensures
        (r.0 as int, members_view(r.1@)) == grammar::list_of(
            s@,
            pos as int,
            |k: int| grammar::member(s@, k),
        ),
        pos <= r.0 <= s@.len(),
{
    let ghost p = |k: int| grammar::member(s@, k);
    let mut ms: Vec<FieldOrVariant<'a>> = Vec::new();
    let (j, m) = match field_or_variant(s, pos) {
        None => {
            assert(members_view(ms@) =~= seq![]);
            return (pos, ms);
        },
        Some(m) => m,
    };
    ms.push(m);
    let mut i: usize = j;
    proof {
        let rest = grammar::more_of(s@, i as int, p);
        assert(members_view(ms@) + rest.1 =~= seq![m@] + rest.1);
    }
    loop
        invariant
            pos <= i <= s@.len(),
            valid_utf8(s@),
            p == (|k: int| grammar::member(s@, k)),
            ({
                let rest = grammar::more_of(s@, i as int, p);
                grammar::list_of(s@, pos as int, p) == (rest.0, members_view(ms@) + rest.1)
            }),
        decreases s@.len() - i,
    {
        let next = match field_separator(s, i) {
            None => None,
            Some(k) => field_or_variant(s, k),
        };
        match next {
            None => {
                assert(members_view(ms@) + seq![] =~= members_view(ms@));
                return (i, ms);
            },
            Some((j, m)) => {
                let ghost before = ms@;
                ms.push(m);
                proof {
                    let rest = grammar::more_of(s@, j as int, p);
                    assert(members_view(before) + (seq![m@] + rest.1) =~= members_view(ms@)
                        + rest.1);
                }
                i = j;
            },
        }
    }
}

/// The typed members and the named ones, each in order.
fn sort_members<'a>(ms: Vec<FieldOrVariant<'a>>) -> (r: (Vec<Field<'a>>, Vec<EnumVariant<'a>>))
    ensures
        super::fields_view(r.0@) == grammar::typed_members(members_view(ms@)),
        super::variants_view(r.1@) == grammar::named_members(members_view(ms@)),
{
    let mut fields: Vec<Field<'a>> = Vec::new();
    let mut variants: Vec<EnumVariant<'a>> = Vec::new();
    let ghost all = members_view(ms@);
    proof {
        assert(all.take(0) =~= seq![]);
        assert(super::fields_view(fields@) =~= seq![]);
        assert(super::variants_view(variants@) =~= seq![]);
    }
    for m in it: ms
        invariant
            it.seq() == ms@,
            all == members_view(ms@),
            super::fields_view(fields@) == grammar::typed_members(all.take(it.index() as int)),
            super::variants_view(variants@) == grammar::named_members(all.take(it.index() as int)),
    {
        proof {
            let k = it.index() as int;
            assert(all.take(k + 1).drop_last() =~= all.take(k));
            assert(all.take(k + 1).last() == m@);
        }
        match m {
            FieldOrVariant::Field(f) => {
                proof {
                    super::lemma_fields_view_push(fields@, f);
                }
                fields.push(f);
            },
            FieldOrVariant::Variant(v) => {
                assert(super::variants_view(variants@.push(v)) =~= super::variants_view(
                    variants@,
                ).push(v@));
                variants.push(v);
            },
        }
    }
    assert(all.take(all.len() as int) =~= all);
    (fields, variants)
}

/// A custom type.
fn type_def<'a>(s: &'a [u8], pos: usize) -> (r: Option<(usize, CustomType<'a>)>)
    requires
        pos <= s@.len(),
        valid_utf8(s@),
    ensures
        same(r, grammar::type_def(s@, pos as int)),
        r matches Some((j, _)) ==> pos < j <= s@.len(),
{
    let (c, comments) = parse_preceding_comments(s, pos);
    let k: usize = match keyword(s, c, "type") {
        Err(_) => {
            return None;
        },
        Ok(k) => k,
    };
    let (n, name) = match type_ident(s, k) {
        None => {
            return None;
        },
        Some(name) => name,
    };
    let a: usize = match open_list(s, ws(s, n)) {
        None => {
            return None;
        },
        Some(a) => a,
    };
    let (b, ms) = members(s, a);
    let j: usize = match close_list(s, b) {
        Err(_) => {
            return None;
        },
        Ok(j) => j,
    };
    let (fields, variants) = sort_members(ms);
    assert(super::fields_view(fields@).len() == fields@.len());
    assert(super::variants_view(variants@).len() == variants@.len());
    let comments = List::new(comments);
    if variants.len() == 0 {
        let fields = List::new(fields);
        Some((j, CustomType::Object(CustomObject { name, fields, comments })))
    } else if fields.len() == 0 {
        let variants = List::new(variants);
        Some((j, CustomType::Enum(CustomEnum { name, variants, comments })))
    } else {
        None
    }
}

/// An interface. The error is the position at which the text is not that of one.
fn interface_def<'a>(s: &'a [u8], pos: usize) -> (r: Result<(usize, Interface<'a>), usize>)
    requires
        pos <= s@.len(),
        valid_utf8(s@),
    ensures
        match r {
            Ok((j, i)) => grammar::interface_def(s@, pos as int) == Ok::<
                (int, super::InterfaceView),
                int,
            >((j as int, i@))
                && pos <= j <= s@.len(),
            Err(e) => grammar::interface_def(s@, pos as int) == Err::<
                (int, super::InterfaceView),
                int,
            >(e as int) && pos <= e <= s@.len(),
        },
{
    let (c, comments) = parse_preceding_comments(s, pos);
    let k: usize = match keyword(s, c, "interface") {
        Err(e) => {
            return Err(e);
        },
        Ok(k) => k,
    };
    let (n, name) = match interface_name(s, k) {
        None => {
            return Err(k);
        },
        Some(name) => name,
    };
    let mut methods: Vec<Method<'a>> = Vec::new();
    let mut custom_types: Vec<CustomType<'a>> = Vec::new();
    let mut errors: Vec<Error<'a>> = Vec::new();
    let mut i: usize = n;
    let ghost none = grammar::MembersOfInterface {
        methods: seq![],
        custom_types: seq![],
        errors: seq![],
    };
    assert(found(methods@, custom_types@, errors@) == none) by {
        assert(super::methods_view(methods@) =~= seq![]);
        assert(super::custom_types_view(custom_types@) =~= seq![]);
        assert(super::errors_view(errors@) =~= seq![]);
    }
    loop
        invariant_except_break
            grammar::interface_members(s@, i as int, found(methods@, custom_types@, errors@))
                == grammar::interface_members(s@, n as int, none),
        invariant
            pos <= n <= i <= s@.len(),
            valid_utf8(s@),
        ensures
            grammar::interface_members(s@, n as int, none) == (
                i as int,
                found(methods@, custom_types@, errors@),
            ),
        decreases s@.len() - i,
    {
        let ghost before = found(methods@, custom_types@, errors@);
        let a: usize = skip(s, i, Class::Space);
        if a == s.len() {
            i = a;
            break;
        }
        if let Some((j, t)) = type_def(s, a) {
            custom_types.push(t);
            assert(found(methods@, custom_types@, errors@).custom_types
                =~= before.custom_types.push(t@));
            i = j;
        } else if let Some((j, m)) = method_def(s, a) {
            methods.push(m);
            assert(found(methods@, custom_types@, errors@).methods =~= before.methods.push(m@));
            i = j;
        } else {
            match error_def(s, a) {
                Ok((j, e)) => {
                    errors.push(e);
                    assert(found(methods@, custom_types@, errors@).errors =~= before.errors.push(
                        e@,
                    ));
                    i = j;
                },
                Err(e) => {
                    i = e;
                    break;
                },
            }
        }
    }
    Ok(
        (
            i,
            Interface {
                name,
                methods: List::new(methods),
                custom_types: List::new(custom_types),
                errors: List::new(errors),
                comments: List::new(comments),
            },
        ),
    )
}

/// The members found so far.
spec fn found(
    methods: Seq<Method<'_>>,
    custom_types: Seq<CustomType<'_>>,
    errors: Seq<Error<'_>>,
) -> grammar::MembersOfInterface {
    grammar::MembersOfInterface {
        methods: super::methods_view(methods),
        custom_types: super::custom_types_view(custom_types),
        errors: super::errors_view(errors),
    }
}

/// Bytes in decimal.
pub open spec fn decimals(bytes: Seq<u8>) -> Seq<Seq<char>> {
    bytes.map_values(|b: u8| text::decimal(b as nat))
}

/// What winnow says of a parser that backtracked in front of `rest`: the bytes behind that place.
pub open spec fn backtrack_text(rest: Seq<u8>) -> Seq<char> {
    "Parsing Error: InputError { input: ["@ + text::listed(decimals(rest)) + "] }"@
}

/// Calls the `Display` form of [`winnow::error::ErrMode::Backtrack`] on a
/// [`winnow::error::InputError`] at `rest`: it names the error, and lists the bytes in decimal.
#[verifier::external_body]
fn backtrack_message(rest: &[u8]) -> (r: String)
    ensures
        r@ == backtrack_text(rest@),
{
    winnow::error::ErrMode::Backtrack(winnow::error::InputError::at(rest)).to_string()
}

/// The interface that a text describes.
pub fn parse_interface<'a>(input: &'a str) -> (r: Result<Interface<'a>, error::Error>)
    ensures
        match r {
            Ok(i) => grammar::interface(input@) == Ok::<super::InterfaceView, Seq<char>>(i@),
            Err(e) => e is IdlParse && grammar::interface(input@) == Err::<
                super::InterfaceView,
                Seq<char>,
            >(e@),
        },
{
    let s = trim(input).as_bytes();
    proof {
        encode_utf8_valid_utf8(text::trimmed(input@));
    }
    if s.len() == 0 {
        return Err(error::Error::IdlParse("Input is empty".to_string()));
    }
    let n: usize = s.len();
    match interface_def(s, 0) {
        Err(e) => {
            let mut message = "Parse error: ".to_string();
            message.append(backtrack_message(slice_subrange(s, e, n)).as_str());
            Err(error::Error::IdlParse(message))
        },
        Ok((j, interface)) => {
            let k: usize = ws(s, j);
            if k == n {
                return Ok(interface);
            }
            let rest = slice_subrange(s, k, n);
            let said = match from_utf8(rest) {
                Some(t) => {
                    proof {
                        encode_utf8_decode_utf8(t@);
                    }
                    t
                },
                None => "<invalid UTF-8>",
            };
            let mut message = "Unexpected remaining input: ".to_string();
            message.append(debug_str(said).as_str());
            Err(error::Error::IdlParse(message))
        },
    }
}

} // verus!
