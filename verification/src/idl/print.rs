//! How interface descriptions are written, and that what is written is read back as it was.

use vstd::prelude::*;
use vstd::utf8::*;

use super::grammar;
use super::grammar::{Class, MemberView, MembersOfInterface};
use super::laws;
use super::{
    CustomTypeView, EnumVariantView, ErrorView, FieldView, InterfaceView, MembersView, MethodView,
    TypeView,
};
use crate::text;

verus! {

/// A comment that takes one line: it has no end of line in it, and no blank in front.
pub open spec fn is_comment(c: Seq<char>) -> bool {
    &&& forall|k: int| 0 <= k < c.len() ==> (#[trigger] c[k]) != '\n' && c[k] != '\r'
    &&& c.len() > 0 ==> c[0] != ' ' && c[0] != '\t'
}

/// Comments that each take one line.
pub open spec fn are_comments(cs: Seq<Seq<char>>) -> bool {
    forall|k: int| 0 <= k < cs.len() ==> is_comment(#[trigger] cs[k])
}

/// Comments from `k` on, a line for each.
pub open spec fn comments_text(cs: Seq<Seq<char>>, k: int) -> Seq<char>
    decreases cs.len() - k,
{
    if 0 <= k < cs.len() {
        "# "@ + cs[k] + "\n"@ + comments_text(cs, k + 1)
    } else {
        seq![]
    }
}

/// A type.
pub open spec fn type_text(t: TypeView) -> Seq<char>
    decreases t, 0int,
{
    match t {
        TypeView::Bool => "bool"@,
        TypeView::Int => "int"@,
        TypeView::Float => "float"@,
        TypeView::String => "string"@,
        TypeView::ForeignObject => "object"@,
        TypeView::Any => "any"@,
        TypeView::Custom(name) => name,
        TypeView::Optional(inner) => "?"@ + type_text(*inner),
        TypeView::Array(inner) => "[]"@ + type_text(*inner),
        TypeView::Mapping(inner) => "[string]"@ + type_text(*inner),
        TypeView::Enum(vs) => variants_text(vs),
        TypeView::Object(fs) => fields_text(fs),
    }
}

/// Fields in brackets.
pub open spec fn fields_text(fs: Seq<FieldView>) -> Seq<char>
    decreases fs, fs.len() + 1,
{
    if fs.len() == 0 {
        "("@ + ")"@
    } else {
        "("@ + (field_text(fs[0]) + more_fields_text(fs, 1)) + ")"@
    }
}

/// The fields from `k` on, each behind a comma.
pub open spec fn more_fields_text(fs: Seq<FieldView>, k: int) -> Seq<char>
    decreases fs, fs.len() - k,
{
    if 0 <= k < fs.len() {
        ", "@ + (field_text(fs[k]) + more_fields_text(fs, k + 1))
    } else {
        seq![]
    }
}

/// A field.
pub open spec fn field_text(f: FieldView) -> Seq<char>
    decreases f, 0int,
{
    comments_text(f.comments, 0) + (f.name + (": "@ + type_text(f.ty)))
}

/// Texts in brackets, with commas between them.
pub open spec fn bracket_text(items: Seq<Seq<char>>) -> Seq<char> {
    if items.len() == 0 {
        "("@ + ")"@
    } else {
        "("@ + (items[0] + more_text(items, 1)) + ")"@
    }
}

/// The texts from `k` on, each behind a comma.
pub open spec fn more_text(items: Seq<Seq<char>>, k: int) -> Seq<char>
    decreases items.len() - k,
{
    if 0 <= k < items.len() {
        ", "@ + (items[k] + more_text(items, k + 1))
    } else {
        seq![]
    }
}

/// Variants in brackets.
pub open spec fn variants_text(vs: Seq<EnumVariantView>) -> Seq<char> {
    bracket_text(Seq::new(vs.len(), |k: int| variant_text(vs[k])))
}

/// A variant.
pub open spec fn variant_text(v: EnumVariantView) -> Seq<char> {
    comments_text(v.comments, 0) + v.name
}

/// Whether every comment in a type takes one line.
pub open spec fn type_is_plain(t: TypeView) -> bool
    decreases t,
{
    match t {
        TypeView::Optional(inner) => type_is_plain(*inner),
        TypeView::Array(inner) => type_is_plain(*inner),
        TypeView::Mapping(inner) => type_is_plain(*inner),
        TypeView::Enum(vs) => variants_are_plain(vs),
        TypeView::Object(fs) => fields_are_plain(fs),
        _ => true,
    }
}

/// Whether every comment in fields takes one line.
pub open spec fn fields_are_plain(fs: Seq<FieldView>) -> bool
    decreases fs,
{
    forall|k: int|
        #![trigger fs[k]]
        0 <= k < fs.len() ==> are_comments(fs[k].comments) && type_is_plain(fs[k].ty)
}

/// Whether every comment of variants takes one line.
pub open spec fn variants_are_plain(vs: Seq<EnumVariantView>) -> bool {
    forall|k: int| 0 <= k < vs.len() ==> are_comments((#[trigger] vs[k]).comments)
}

/// The encoding of two texts is that of one behind that of the other.
proof fn lemma_encode_concat(a: Seq<char>, b: Seq<char>)
    ensures
        encode_utf8(a + b) == encode_utf8(a) + encode_utf8(b),
    decreases a.len(),
{
    if a.len() == 0 {
        assert(a + b =~= b);
        assert(encode_utf8(a) + encode_utf8(b) =~= encode_utf8(b));
    } else {
        assert((a + b).drop_first() =~= a.drop_first() + b);
        lemma_encode_concat(a.drop_first(), b);
        let x = encode_scalar(a[0] as u32);
        assert(x + (encode_utf8(a.drop_first()) + encode_utf8(b)) =~= (x + encode_utf8(
            a.drop_first(),
        )) + encode_utf8(b));
    }
}

/// A text that stands somewhere stands there part by part.
proof fn lemma_split(s: Seq<u8>, i: int, a: Seq<char>, b: Seq<char>)
    requires
        grammar::word_at(s, i, a + b),
    ensures
        grammar::word_at(s, i, a),
        grammar::word_at(s, grammar::behind(i, a), b),
        grammar::behind(grammar::behind(i, a), b) == grammar::behind(i, a + b),
        i <= grammar::behind(i, a) <= grammar::behind(i, a + b) <= s.len(),
{
    lemma_encode_concat(a, b);
    let x = encode_utf8(a);
    let y = encode_utf8(b);
    let all = s.subrange(i, i + encode_utf8(a + b).len());
    assert(all == x + y);
    assert(s.subrange(i, i + x.len()) =~= all.subrange(0, x.len() as int));
    assert(s.subrange(i, i + x.len()) =~= x);
    assert(s.subrange(i + x.len(), i + x.len() + y.len()) =~= all.subrange(
        x.len() as int,
        (x.len() + y.len()) as int,
    ));
    assert(s.subrange(i + x.len(), i + x.len() + y.len()) =~= y);
}

/// An ASCII text stands somewhere character by character.
proof fn lemma_ascii(s: Seq<u8>, i: int, w: Seq<char>)
    requires
        grammar::word_at(s, i, w),
        is_ascii_chars(w),
    ensures
        grammar::behind(i, w) == i + w.len(),
        0 <= i <= i + w.len() <= s.len(),
        forall|k: int| 0 <= k < w.len() ==> s[i + k] as char == #[trigger] w[k],
        grammar::text_of(s, i, i + w.len()) == w,
{
    is_ascii_chars_encode_utf8(w);
    let e = encode_utf8(w);
    assert forall|k: int| 0 <= k < w.len() implies s[i + k] as char == #[trigger] w[k] by {
        assert(s.subrange(i, i + e.len())[k] == e[k]);
        assert(e[k] == w[k] as u8);
    }
    encode_utf8_decode_utf8(w);
}

/// A span goes as far as its class does.
proof fn lemma_span_to(s: Seq<u8>, i: int, j: int, class: Class)
    requires
        0 <= i <= j <= s.len(),
        forall|k: int| i <= k < j ==> grammar::in_class(#[trigger] s[k], class),
        j < s.len() ==> !grammar::in_class(s[j], class),
    ensures
        grammar::span(s, i, class) == j,
    decreases j - i,
{
    if i < j {
        lemma_span_to(s, i + 1, j, class);
    }
}

/// Whether a byte is neither white space nor the start of a comment.
pub open spec fn is_solid(s: Seq<u8>, i: int) -> bool {
    0 <= i < s.len() && !grammar::is_space(s[i]) && s[i] as char != '#'
}

/// Nothing is skipped in front of something solid.
proof fn lemma_solid(s: Seq<u8>, i: int)
    requires
        is_solid(s, i),
    ensures
        grammar::skip_space(s, i) == i,
        grammar::ws(s, i) == i,
        grammar::comments(s, i) == (i, Seq::<Seq<char>>::empty()),
{
    lemma_span_to(s, i, i, Class::Space);
}

/// One space in front of something solid is skipped.
proof fn lemma_space(s: Seq<u8>, i: int)
    requires
        0 <= i < s.len(),
        grammar::is_space(s[i]),
        is_solid(s, i + 1),
    ensures
        grammar::skip_space(s, i) == i + 1,
        grammar::ws(s, i) == i + 1,
{
    lemma_span_to(s, i, i + 1, Class::Space);
}

/// The bytes of a comment hold no end of line, and no blank in front.
proof fn lemma_comment_bytes(c: Seq<char>)
    ensures
        (forall|k: int| 0 <= k < c.len() ==> (#[trigger] c[k]) != '\n' && c[k] != '\r')
            ==> forall|k: int|
            0 <= k < encode_utf8(c).len() ==> (#[trigger] encode_utf8(c)[k]) as char != '\n'
                && encode_utf8(c)[k] as char != '\r',
        c.len() > 0 && c[0] != ' ' && c[0] != '\t' ==> encode_utf8(c).len() > 0
            && encode_utf8(c)[0] as char != ' ' && encode_utf8(c)[0] as char != '\t',
    decreases c.len(),
{
    if c.len() > 0 {
        let rest = c.drop_first();
        lemma_comment_bytes(rest);
        let v = c[0] as u32;
        let head = encode_scalar(v);
        assert(v <= 0x7f ==> (v & 0x7F) as u8 as u32 == v) by (bit_vector);
        assert((0xC0u8 | ((v >> 6) & 0x1F) as u8) >= 0x80u8) by (bit_vector);
        assert((0xE0u8 | ((v >> 12) & 0x0F) as u8) >= 0x80u8) by (bit_vector);
        assert((0xF0u8 | ((v >> 18) & 0x7) as u8) >= 0x80u8) by (bit_vector);
        assert((0x80u8 | (v & 0x3F) as u8) >= 0x80u8) by (bit_vector);
        assert((0x80u8 | ((v >> 6) & 0x3F) as u8) >= 0x80u8) by (bit_vector);
        assert((0x80u8 | ((v >> 12) & 0x3F) as u8) >= 0x80u8) by (bit_vector);
        assert(v > 0x7f ==> forall|k: int| 0 <= k < head.len() ==> #[trigger] head[k] >= 0x80);
        if v <= 0x7f {
            assert(has_width_1_encoding(v));
            assert(head == seq![leading_byte_width_1(v)]);
            assert(head[0] as u32 == v);
            char_u32_cast(c[0], v);
            assert(head[0] as char == c[0]);
        }
        let all = encode_utf8(c);
        if forall|k: int| 0 <= k < c.len() ==> (#[trigger] c[k]) != '\n' && c[k] != '\r' {
            assert(c[0] != '\n' && c[0] != '\r');
            assert forall|k: int| 0 <= k < rest.len() implies (#[trigger] rest[k]) != '\n' && rest[k]
                != '\r' by {
                assert(rest[k] == c[k + 1]);
            }
            assert forall|k: int| 0 <= k < all.len() implies (#[trigger] all[k]) as char != '\n'
                && all[k] as char != '\r' by {
                if k >= head.len() {
                    assert(all[k] == encode_utf8(rest)[k - head.len()]);
                } else {
                    assert(all[k] == head[k]);
                }
            }
        }
        assert(all[0] == head[0]);
    }
}

/// Comments that are written are read back, by both readings of comments.
proof fn lemma_comments_read(s: Seq<u8>, i: int, cs: Seq<Seq<char>>, k: int)
    requires
        0 <= k <= cs.len(),
        are_comments(cs),
        grammar::word_at(s, i, comments_text(cs, k)),
        is_solid(s, grammar::behind(i, comments_text(cs, k))),
    ensures
        grammar::comments(s, i) == (
            grammar::behind(i, comments_text(cs, k)),
            cs.skip(k),
        ),
        grammar::ws(s, i) == grammar::behind(i, comments_text(cs, k)),
        k < cs.len() ==> grammar::byte_at(s, i, '#'),
    decreases cs.len() - k,
{
    let end = grammar::behind(i, comments_text(cs, k));
    if k == cs.len() {
        assert(encode_utf8(comments_text(cs, k)).len() == 0);
        lemma_solid(s, i);
        assert(cs.skip(k) =~= seq![]);
    } else {
        let c = cs[k];
        assert(is_comment(c));
        let rest = comments_text(cs, k + 1);
        lemma_split(s, i, "# "@ + c + "\n"@, rest);
        lemma_split(s, i, "# "@ + c, "\n"@);
        lemma_split(s, i, "# "@, c);
        reveal_strlit("# ");
        reveal_strlit("\n");
        lemma_ascii(s, i, "# "@);
        let b = i + 2;
        let e = grammar::behind(b, c);
        lemma_ascii(s, e, "\n"@);
        assert(s[i + 0] as char == "# "@[0]);
        assert(s[i + 1] as char == "# "@[1]);
        assert(s[e + 0] as char == "\n"@[0]);
        lemma_comment_bytes(c);
        let bytes = encode_utf8(c);
        assert forall|n: int| b <= n < e implies (#[trigger] s[n]) as char != '\n' && s[n] as char
            != '\r' by {
            assert(s.subrange(b, b + bytes.len())[n - b] == bytes[n - b]);
        }
        if bytes.len() > 0 {
            assert(c.len() > 0);
            assert(s.subrange(b, b + bytes.len())[0] == bytes[0]);
        } else {
            encode_utf8_decode_utf8(c);
        }
        lemma_comments_read(s, e + 1, cs, k + 1);
        lemma_span_to(s, i, i, Class::Space);
        assert(grammar::skip_space(s, i) == i);
        lemma_span_to(s, i + 1, b, Class::Blank);
        lemma_span_to(s, b, e, Class::Line);
        let n = e + 1;
        assert(n < s.len() && !grammar::is_space(s[n])) by {
            if k + 1 < cs.len() {
            } else {
                assert(encode_utf8(comments_text(cs, k + 1)).len() == 0);
            }
        }
        lemma_span_to(s, e, n, Class::Space);
        assert(grammar::text_of(s, b, e) == c) by {
            encode_utf8_decode_utf8(c);
        }
        assert(seq![c] + cs.skip(k + 1) =~= cs.skip(k));
        assert forall|n: int| i + 1 <= n < e implies grammar::in_class(
            #[trigger] s[n],
            Class::Comment,
        ) by {
            if n == i + 1 {
            } else {
                assert(s[n] as char != '\n' && s[n] as char != '\r');
            }
        }
        lemma_span_to(s, i + 1, e, Class::Comment);
        assert(grammar::comment_end(s, i + 1) == e + 1);
    }
}

/// Whether a list goes on or ends somewhere.
pub open spec fn stops(s: Seq<u8>, j: int) -> bool {
    grammar::byte_at(s, j, ',') || grammar::byte_at(s, j, ')')
}

/// A field name that is written is read back.
proof fn lemma_field_name_read(s: Seq<u8>, i: int, name: Seq<char>)
    requires
        laws::is_field_name(name),
        grammar::word_at(s, i, name),
        ({
            let j = grammar::behind(i, name);
            j < s.len() ==> !grammar::in_class(s[j], Class::FieldByte)
        }),
    ensures
        grammar::field_name(s, i) == Some((grammar::behind(i, name), name)),
        is_solid(s, i),
        grammar::is_alpha(s[i]),
        i < grammar::behind(i, name),
{
    assert(is_ascii_chars(name)) by {
        assert forall|k: int| 0 <= k < name.len() implies '\0' <= #[trigger] name[k] <= '\u{7f}' by {
            assert(laws::is_letter_or_digit(name[k]) || name[k] == '_');
        }
    }
    lemma_ascii(s, i, name);
    assert(s[i + 0] as char == name[0]);
    let j = i + name.len();
    assert forall|k: int| i + 1 <= k < j implies grammar::in_class(
        #[trigger] s[k],
        Class::FieldByte,
    ) by {
        assert(s[i + (k - i)] as char == name[k - i]);
    }
    lemma_span_to(s, i + 1, j, Class::FieldByte);
}

/// A type name that is written is read back.
proof fn lemma_type_ident_read(s: Seq<u8>, i: int, name: Seq<char>)
    requires
        laws::is_type_name(name),
        grammar::word_at(s, i, name),
        ({
            let j = grammar::behind(i, name);
            j < s.len() ==> !grammar::in_class(s[j], Class::Alnum)
        }),
    ensures
        grammar::type_ident(s, i) == Some((grammar::behind(i, name), name)),
        is_solid(s, i),
        grammar::is_upper(s[i]),
        i < grammar::behind(i, name),
{
    assert(is_ascii_chars(name)) by {
        assert forall|k: int| 0 <= k < name.len() implies '\0' <= #[trigger] name[k] <= '\u{7f}' by {
            assert(laws::is_letter_or_digit(name[k]));
        }
    }
    lemma_ascii(s, i, name);
    assert(s[i + 0] as char == name[0]);
    let j = i + name.len();
    assert forall|k: int| i + 1 <= k < j implies grammar::in_class(#[trigger] s[k], Class::Alnum) by {
        assert(s[i + (k - i)] as char == name[k - i]);
    }
    lemma_span_to(s, i + 1, j, Class::Alnum);
}

/// What the words of types start with.
proof fn lemma_word_starts(s: Seq<u8>, i: int)
    ensures
        grammar::word_at(s, i, "[]"@) ==> grammar::byte_at(s, i, '[') && grammar::byte_at(
            s,
            i + 1,
            ']',
        ) && grammar::behind(i, "[]"@) == i + 2,
        grammar::word_at(s, i, "[string]"@) ==> grammar::byte_at(s, i, '[') && grammar::byte_at(
            s,
            i + 1,
            's',
        ) && grammar::behind(i, "[string]"@) == i + 8,
        grammar::word_at(s, i, "bool"@) ==> grammar::byte_at(s, i, 'b'),
        grammar::word_at(s, i, "int"@) ==> grammar::byte_at(s, i, 'i'),
        grammar::word_at(s, i, "float"@) ==> grammar::byte_at(s, i, 'f'),
        grammar::word_at(s, i, "string"@) ==> grammar::byte_at(s, i, 's'),
        grammar::word_at(s, i, "object"@) ==> grammar::byte_at(s, i, 'o'),
        grammar::word_at(s, i, "any"@) ==> grammar::byte_at(s, i, 'a'),
        grammar::word_at(s, i, "?"@) ==> grammar::byte_at(s, i, '?') && grammar::behind(i, "?"@)
            == i + 1,
        grammar::word_at(s, i, "("@) ==> grammar::byte_at(s, i, '(') && grammar::behind(i, "("@)
            == i + 1,
        grammar::word_at(s, i, ")"@) ==> grammar::byte_at(s, i, ')') && grammar::behind(i, ")"@)
            == i + 1,
        grammar::word_at(s, i, ", "@) ==> grammar::byte_at(s, i, ',') && grammar::byte_at(
            s,
            i + 1,
            ' ',
        ) && grammar::behind(i, ", "@) == i + 2,
        grammar::word_at(s, i, ": "@) ==> grammar::byte_at(s, i, ':') && grammar::byte_at(
            s,
            i + 1,
            ' ',
        ) && grammar::behind(i, ": "@) == i + 2,
{
    lemma_start(s, i, "[]"@, '[', ']');
    lemma_start(s, i, "[string]"@, '[', 's');
    lemma_start(s, i, "bool"@, 'b', 'o');
    lemma_start(s, i, "int"@, 'i', 'n');
    lemma_start(s, i, "float"@, 'f', 'l');
    lemma_start(s, i, "string"@, 's', 't');
    lemma_start(s, i, "object"@, 'o', 'b');
    lemma_start(s, i, "any"@, 'a', 'n');
    lemma_start(s, i, ", "@, ',', ' ');
    lemma_start(s, i, ": "@, ':', ' ');
    lemma_start(s, i, "?"@, '?', '?');
    lemma_start(s, i, "("@, '(', '(');
    lemma_start(s, i, ")"@, ')', ')');
    reveal_strlit("[]");
    reveal_strlit("[string]");
    reveal_strlit("bool");
    reveal_strlit("int");
    reveal_strlit("float");
    reveal_strlit("string");
    reveal_strlit("object");
    reveal_strlit("any");
    reveal_strlit(", ");
    reveal_strlit(": ");
    reveal_strlit("?");
    reveal_strlit("(");
    reveal_strlit(")");
}

/// What a word starts with.
proof fn lemma_start(s: Seq<u8>, i: int, w: Seq<char>, a: char, b: char)
    ensures
        is_ascii_chars(w) && w.len() > 0 && grammar::word_at(s, i, w) ==> {
            &&& grammar::behind(i, w) == i + w.len()
            &&& w[0] == a ==> grammar::byte_at(s, i, a)
            &&& w.len() > 1 && w[1] == b ==> grammar::byte_at(s, i + 1, b)
        },
{
    if is_ascii_chars(w) && w.len() > 0 && grammar::word_at(s, i, w) {
        lemma_ascii(s, i, w);
        assert(s[i + 0] as char == w[0]);
        if w.len() > 1 {
            assert(s[i + 1] as char == w[1]);
        }
    }
}

/// Items of a list that are written are read back, where each by itself is.
proof fn lemma_more_read<T>(
    s: Seq<u8>,
    i: int,
    p: spec_fn(int) -> Option<(int, T)>,
    items: Seq<Seq<char>>,
    ms: Seq<T>,
    k: int,
)
    requires
        1 <= k <= items.len() == ms.len(),
        forall|n: int, j: int|
            0 <= n < items.len() && #[trigger] grammar::word_at(s, j, #[trigger] items[n]) && stops(
                s,
                grammar::behind(j, items[n]),
            ) ==> p(j) == Some((grammar::behind(j, items[n]), ms[n])) && j < grammar::behind(
                j,
                items[n],
            ) && !grammar::is_space(s[j]),
        grammar::word_at(s, i, more_text(items, k)),
        grammar::byte_at(s, grammar::behind(i, more_text(items, k)), ')'),
    ensures
        grammar::more_of(s, i, p) == (grammar::behind(i, more_text(items, k)), ms.skip(k)),
        stops(s, i),
    decreases items.len() - k,
{
    if k == items.len() {
        assert(encode_utf8(more_text(items, k)).len() == 0);
        lemma_solid(s, i);
        assert(ms.skip(k) =~= seq![]);
    } else {
        let rest = more_text(items, k + 1);
        lemma_split(s, i, ", "@, items[k] + rest);
        lemma_word_starts(s, i);
        lemma_split(s, i + 2, items[k], rest);
        let j = grammar::behind(i + 2, items[k]);
        lemma_more_read(s, j, p, items, ms, k + 1);
        assert(p(i + 2) == Some((j, ms[k])));
        lemma_solid(s, i);
        lemma_span_to(s, i + 1, i + 2, Class::Space);
        assert(seq![ms[k]] + ms.skip(k + 1) =~= ms.skip(k));
    }
}

/// A list that is written is read back, where each of its items by itself is.
proof fn lemma_bracketed_read<T>(
    s: Seq<u8>,
    i: int,
    p: spec_fn(int) -> Option<(int, T)>,
    items: Seq<Seq<char>>,
    ms: Seq<T>,
)
    requires
        items.len() == ms.len(),
        forall|n: int, j: int|
            0 <= n < items.len() && #[trigger] grammar::word_at(s, j, #[trigger] items[n]) && stops(
                s,
                grammar::behind(j, items[n]),
            ) ==> p(j) == Some((grammar::behind(j, items[n]), ms[n])) && j < grammar::behind(
                j,
                items[n],
            ) && !grammar::is_space(s[j]),
        items.len() == 0 ==> forall|j: int| grammar::byte_at(s, j, ')') ==> (#[trigger] p(j)) is None,
        grammar::word_at(s, i, bracket_text(items)),
    ensures
        grammar::bracketed(s, i, p) == Some((grammar::behind(i, bracket_text(items)), ms)),
        grammar::byte_at(s, i, '('),
{
    if items.len() == 0 {
        lemma_split(s, i, "("@, ")"@);
        lemma_word_starts(s, i);
        lemma_word_starts(s, i + 1);
        lemma_solid(s, i + 1);
        assert(p(i + 1) is None);
        assert(ms =~= seq![]);
    } else {
        let inner = items[0] + more_text(items, 1);
        lemma_split(s, i, "("@ + inner, ")"@);
        lemma_split(s, i, "("@, inner);
        lemma_word_starts(s, i);
        lemma_split(s, i + 1, items[0], more_text(items, 1));
        let j = grammar::behind(i + 1, items[0]);
        let e = grammar::behind(j, more_text(items, 1));
        lemma_word_starts(s, e);
        lemma_more_read(s, j, p, items, ms, 1);
        assert(p(i + 1) == Some((j, ms[0])));
        lemma_span_to(s, i + 1, i + 1, Class::Space);
        lemma_solid(s, e);
        assert(seq![ms[0]] + ms.skip(1) =~= ms);
    }
}

/// A variant that is written is read back, and not as a field.
proof fn lemma_variant_read(s: Seq<u8>, i: int, v: EnumVariantView)
    requires
        laws::is_field_name(v.name),
        are_comments(v.comments),
        grammar::word_at(s, i, variant_text(v)),
        stops(s, grammar::behind(i, variant_text(v))),
    ensures
        grammar::variant(s, i) == Some((grammar::behind(i, variant_text(v)), v)),
        grammar::field(s, i) is None,
        i < grammar::behind(i, variant_text(v)),
        !grammar::is_space(s[i]),
        !grammar::byte_at(s, grammar::ws(s, i), ')'),
{
    let cs = comments_text(v.comments, 0);
    lemma_split(s, i, cs, v.name);
    let c = grammar::behind(i, cs);
    lemma_field_name_read(s, c, v.name);
    lemma_comments_read(s, i, v.comments, 0);
    assert(v.comments.skip(0) =~= v.comments);
    let n = grammar::behind(c, v.name);
    lemma_solid(s, n);
    assert(grammar::colon(s, n) is None);
    if v.comments.len() == 0 {
        assert(encode_utf8(cs).len() == 0);
    }
}

/// Variants that are written are read back, and not as fields.
proof fn lemma_variants_read(s: Seq<u8>, i: int, vs: Seq<EnumVariantView>)
    requires
        laws::variants_well_formed(vs),
        variants_are_plain(vs),
        grammar::word_at(s, i, variants_text(vs)),
    ensures
        grammar::variant_list(s, i) == Some((grammar::behind(i, variants_text(vs)), vs)),
        grammar::field_list(s, i) is None,
        grammar::byte_at(s, i, '('),
{
    let items = Seq::new(vs.len(), |k: int| variant_text(vs[k]));
    let p = |k: int| grammar::variant(s, k);
    assert forall|n: int, j: int|
        0 <= n < items.len() && #[trigger] grammar::word_at(s, j, #[trigger] items[n]) && stops(
            s,
            grammar::behind(j, items[n]),
        ) implies p(j) == Some((grammar::behind(j, items[n]), vs[n])) && j < grammar::behind(
        j,
        items[n],
    ) && !grammar::is_space(s[j]) by {
        lemma_variant_read(s, j, vs[n]);
    }
    lemma_bracketed_read(s, i, p, items, vs);
    let inner = items[0] + more_text(items, 1);
    lemma_split(s, i, "("@ + inner, ")"@);
    lemma_split(s, i, "("@, inner);
    lemma_word_starts(s, i);
    lemma_split(s, i + 1, items[0], more_text(items, 1));
    let j = grammar::behind(i + 1, items[0]);
    lemma_word_starts(s, grammar::behind(j, more_text(items, 1)));
    lemma_more_read(s, j, p, items, vs, 1);
    lemma_variant_read(s, i + 1, vs[0]);
    lemma_span_to(s, i + 1, i + 1, Class::Space);
    assert(grammar::fields(s, i + 1) == (i + 1, Seq::<FieldView>::empty()));
}

/// Whether a type is primitive.
pub open spec fn is_primitive(t: TypeView) -> bool {
    t is Bool || t is Int || t is Float || t is String || t is ForeignObject || t is Any
}

/// A primitive type that is written is read back.
proof fn lemma_primitive_read(s: Seq<u8>, i: int, t: TypeView)
    requires
        is_primitive(t),
        grammar::word_at(s, i, type_text(t)),
    ensures
        grammar::plain_type(s, i) == Some((grammar::behind(i, type_text(t)), t)),
        !grammar::byte_at(s, i, '?'),
        is_solid(s, i),
        i < grammar::behind(i, type_text(t)),
{
    lemma_word_starts(s, i);
    reveal_strlit("bool");
    reveal_strlit("int");
    reveal_strlit("float");
    reveal_strlit("string");
    reveal_strlit("object");
    reveal_strlit("any");
    lemma_ascii(s, i, type_text(t));
    assert(grammar::primitive_type(s, i) == Some((grammar::behind(i, type_text(t)), t)));
}

/// A custom type that is written is read back.
proof fn lemma_custom_read(s: Seq<u8>, i: int, name: Seq<char>)
    requires
        laws::is_type_name(name),
        grammar::word_at(s, i, name),
        stops(s, grammar::behind(i, name)),
    ensures
        grammar::plain_type(s, i) == Some((grammar::behind(i, name), TypeView::Custom(name))),
        !grammar::byte_at(s, i, '?'),
        is_solid(s, i),
        i < grammar::behind(i, name),
{
    lemma_word_starts(s, i);
    lemma_type_ident_read(s, i, name);
    assert(grammar::primitive_type(s, i) is None);
}

/// A list or a map of a type that can be read is read.
proof fn lemma_wrapped_read(s: Seq<u8>, i: int, inner: TypeView, j: int)
    requires
        0 <= i < s.len(),
        ({
            ||| grammar::word_at(s, i, "[]"@) && grammar::varlink_type(s, i + 2) == Some(
                (j, inner),
            )
            ||| grammar::word_at(s, i, "[string]"@) && grammar::varlink_type(s, i + 8) == Some(
                (j, inner),
            )
        }),
    ensures
        grammar::word_at(s, i, "[]"@) ==> grammar::plain_type(s, i) == Some(
            (j, TypeView::Array(Box::new(inner))),
        ),
        grammar::word_at(s, i, "[string]"@) ==> grammar::plain_type(s, i) == Some(
            (j, TypeView::Mapping(Box::new(inner))),
        ),
        !grammar::byte_at(s, i, '?'),
        is_solid(s, i),
{
    lemma_word_starts(s, i);
}

/// A type that is written is read back.
#[verifier::spinoff_prover]
proof fn lemma_type_read(s: Seq<u8>, i: int, t: TypeView)
    requires
        laws::type_well_formed(t),
        type_is_plain(t),
        grammar::word_at(s, i, type_text(t)),
        stops(s, grammar::behind(i, type_text(t))),
    ensures
        grammar::varlink_type(s, i) == Some((grammar::behind(i, type_text(t)), t)),
        !(t is Optional) ==> grammar::plain_type(s, i) == Some(
            (grammar::behind(i, type_text(t)), t),
        ),
        is_solid(s, i),
        i < grammar::behind(i, type_text(t)),
    decreases t, 0int,
{
    let j = grammar::behind(i, type_text(t));
    match t {
        TypeView::Custom(name) => {
            lemma_custom_read(s, i, name);
        },
        TypeView::Optional(inner) => {
            lemma_split(s, i, "?"@, type_text(*inner));
            lemma_word_starts(s, i);
            lemma_type_read(s, i + 1, *inner);
            assert(t == TypeView::Optional(Box::new(*inner)));
        },
        TypeView::Array(inner) => {
            lemma_split(s, i, "[]"@, type_text(*inner));
            lemma_word_starts(s, i);
            lemma_type_read(s, i + 2, *inner);
            lemma_wrapped_read(s, i, *inner, j);
            assert(t == TypeView::Array(Box::new(*inner)));
        },
        TypeView::Mapping(inner) => {
            lemma_split(s, i, "[string]"@, type_text(*inner));
            lemma_word_starts(s, i);
            lemma_type_read(s, i + 8, *inner);
            lemma_wrapped_read(s, i, *inner, j);
            assert(t == TypeView::Mapping(Box::new(*inner)));
        },
        TypeView::Enum(vs) => {
            lemma_variants_read(s, i, vs);
            lemma_bracket_end(s, i, Seq::new(vs.len(), |k: int| variant_text(vs[k])));
            laws::lemma_no_word_at_bracket(s, i);
        },
        TypeView::Object(fs) => {
            lemma_fields_read(s, i, fs);
            laws::lemma_no_word_at_bracket(s, i);
        },
        _ => {
            lemma_primitive_read(s, i, t);
        },
    }
}

/// Brackets take something.
proof fn lemma_bracket_end(s: Seq<u8>, i: int, items: Seq<Seq<char>>)
    requires
        grammar::word_at(s, i, bracket_text(items)),
    ensures
        i < grammar::behind(i, bracket_text(items)) <= s.len(),
{
    if items.len() == 0 {
        lemma_split(s, i, "("@, ")"@);
    } else {
        let inner = items[0] + more_text(items, 1);
        lemma_split(s, i, "("@ + inner, ")"@);
        lemma_split(s, i, "("@, inner);
    }
    lemma_word_starts(s, i);
}

/// A field that is written is read back.
proof fn lemma_field_read(s: Seq<u8>, i: int, f: FieldView)
    requires
        laws::field_well_formed(f),
        are_comments(f.comments),
        type_is_plain(f.ty),
        grammar::word_at(s, i, field_text(f)),
        stops(s, grammar::behind(i, field_text(f))),
    ensures
        grammar::field(s, i) == Some((grammar::behind(i, field_text(f)), f)),
        i < grammar::behind(i, field_text(f)),
        !grammar::is_space(s[i]),
    decreases f, 0int,
{
    reveal_with_fuel(laws::field_well_formed, 2);
    reveal_with_fuel(field_text, 2);
    let cs = comments_text(f.comments, 0);
    lemma_split(s, i, cs, f.name + (": "@ + type_text(f.ty)));
    let c = grammar::behind(i, cs);
    lemma_split(s, c, f.name, ": "@ + type_text(f.ty));
    let n = grammar::behind(c, f.name);
    lemma_split(s, n, ": "@, type_text(f.ty));
    lemma_word_starts(s, n);
    lemma_field_name_read(s, c, f.name);
    lemma_comments_read(s, i, f.comments, 0);
    assert(f.comments.skip(0) =~= f.comments);
    lemma_type_read(s, n + 2, f.ty);
    lemma_solid(s, n);
    lemma_space(s, n + 1);
    assert(grammar::colon(s, n) == Some(n + 2));
    if f.comments.len() == 0 {
        assert(encode_utf8(cs).len() == 0);
    }
}

/// Fields that are written, each behind a comma, are read back.
proof fn lemma_more_fields_read(s: Seq<u8>, i: int, fs: Seq<FieldView>, k: int)
    requires
        laws::fields_well_formed(fs),
        fields_are_plain(fs),
        1 <= k <= fs.len(),
        grammar::word_at(s, i, more_fields_text(fs, k)),
        grammar::byte_at(s, grammar::behind(i, more_fields_text(fs, k)), ')'),
    ensures
        grammar::more_fields(s, i) == (grammar::behind(i, more_fields_text(fs, k)), fs.skip(k)),
        stops(s, i),
    decreases fs, fs.len() - k,
{
    reveal_with_fuel(more_fields_text, 2);
    if k == fs.len() {
        assert(encode_utf8(more_fields_text(fs, k)).len() == 0);
        lemma_solid(s, i);
        assert(fs.skip(k) =~= seq![]);
    } else {
        reveal_with_fuel(laws::fields_well_formed, 2);
        reveal_with_fuel(fields_are_plain, 2);
        let f = fs[k];
        assert(laws::field_well_formed(fs[k]));
        assert(decreases_to!(fs => fs[k]));
        let rest = more_fields_text(fs, k + 1);
        lemma_split(s, i, ", "@, field_text(f) + rest);
        lemma_word_starts(s, i);
        lemma_split(s, i + 2, field_text(f), rest);
        let j = grammar::behind(i + 2, field_text(f));
        lemma_more_fields_read(s, j, fs, k + 1);
        lemma_field_read(s, i + 2, f);
        lemma_solid(s, i);
        lemma_span_to(s, i + 1, i + 2, Class::Space);
        assert(grammar::separator(s, i) == Some(i + 2));
        assert(seq![f] + fs.skip(k + 1) =~= fs.skip(k));
    }
}

/// Fields that are written in brackets are read back.
proof fn lemma_fields_read(s: Seq<u8>, i: int, fs: Seq<FieldView>)
    requires
        laws::fields_well_formed(fs),
        fields_are_plain(fs),
        grammar::word_at(s, i, fields_text(fs)),
    ensures
        grammar::field_list(s, i) == Some((grammar::behind(i, fields_text(fs)), fs)),
        grammar::byte_at(s, i, '('),
        i < grammar::behind(i, fields_text(fs)) <= s.len(),
    decreases fs, fs.len() + 1,
{
    reveal_with_fuel(fields_text, 2);
    if fs.len() == 0 {
        lemma_split(s, i, "("@, ")"@);
        lemma_word_starts(s, i);
        lemma_word_starts(s, i + 1);
        lemma_solid(s, i + 1);
        assert(grammar::field(s, i + 1) is None);
        assert(fs =~= seq![]);
        assert(grammar::fields(s, i + 1) == (i + 1, fs));
    } else {
        reveal_with_fuel(laws::fields_well_formed, 2);
        reveal_with_fuel(fields_are_plain, 2);
        let f = fs[0];
        assert(laws::field_well_formed(fs[0]));
        assert(decreases_to!(fs => fs[0]));
        let rest = more_fields_text(fs, 1);
        let inner = field_text(f) + rest;
        lemma_split(s, i, "("@ + inner, ")"@);
        lemma_split(s, i, "("@, inner);
        lemma_word_starts(s, i);
        lemma_split(s, i + 1, field_text(f), rest);
        let j = grammar::behind(i + 1, field_text(f));
        let e = grammar::behind(j, rest);
        lemma_word_starts(s, e);
        lemma_more_fields_read(s, j, fs, 1);
        lemma_field_read(s, i + 1, f);
        lemma_span_to(s, i + 1, i + 1, Class::Space);
        lemma_solid(s, e);
        assert(seq![f] + fs.skip(1) =~= fs);
        assert(grammar::fields(s, i + 1) == (e, fs));
    }
}

/// A method.
pub open spec fn method_text(m: MethodView) -> Seq<char> {
    comments_text(m.comments, 0) + ("method "@ + (m.name + (fields_text(m.inputs) + (" -> "@
        + fields_text(m.outputs)))))
}

/// An error.
pub open spec fn error_text(e: ErrorView) -> Seq<char> {
    comments_text(e.comments, 0) + ("error "@ + (e.name + fields_text(e.fields)))
}

/// The members of a custom type.
pub open spec fn members_text(ms: MembersView) -> Seq<char> {
    match ms {
        MembersView::Object(fs) => fields_text(fs),
        MembersView::Enum(vs) => variants_text(vs),
    }
}

/// A custom type.
pub open spec fn custom_type_text(t: CustomTypeView) -> Seq<char> {
    comments_text(t.comments, 0) + ("type "@ + (t.name + members_text(t.members)))
}

/// Texts from `k` on, each on a new line.
pub open spec fn lines_text(items: Seq<Seq<char>>, k: int) -> Seq<char>
    decreases items.len() - k,
{
    if 0 <= k < items.len() {
        "\n"@ + (items[k] + lines_text(items, k + 1))
    } else {
        seq![]
    }
}

/// Custom types, one by one.
pub open spec fn custom_type_texts(ts: Seq<CustomTypeView>) -> Seq<Seq<char>> {
    Seq::new(ts.len(), |k: int| custom_type_text(ts[k]))
}

/// Methods, one by one.
pub open spec fn method_texts(ms: Seq<MethodView>) -> Seq<Seq<char>> {
    Seq::new(ms.len(), |k: int| method_text(ms[k]))
}

/// Errors, one by one.
pub open spec fn error_texts(es: Seq<ErrorView>) -> Seq<Seq<char>> {
    Seq::new(es.len(), |k: int| error_text(es[k]))
}

/// An interface.
pub open spec fn interface_text(i: InterfaceView) -> Seq<char> {
    comments_text(i.comments, 0) + ("interface "@ + (i.name + (lines_text(
        custom_type_texts(i.custom_types),
        0,
    ) + (lines_text(method_texts(i.methods), 0) + lines_text(error_texts(i.errors), 0)))))
}

/// Whether every comment in an interface takes one line.
pub open spec fn interface_is_plain(i: InterfaceView) -> bool {
    &&& are_comments(i.comments)
    &&& forall|k: int|
        0 <= k < i.methods.len() ==> are_comments((#[trigger] i.methods[k]).comments)
            && fields_are_plain(i.methods[k].inputs) && fields_are_plain(i.methods[k].outputs)
    &&& forall|k: int|
        0 <= k < i.errors.len() ==> are_comments((#[trigger] i.errors[k]).comments)
            && fields_are_plain(i.errors[k].fields)
    &&& forall|k: int|
        0 <= k < i.custom_types.len() ==> are_comments((#[trigger] i.custom_types[k]).comments)
            && match i.custom_types[k].members {
            MembersView::Object(fs) => fields_are_plain(fs),
            MembersView::Enum(vs) => variants_are_plain(vs),
        }
}

/// Whether a member of an interface ends somewhere.
pub open spec fn line_ends(s: Seq<u8>, j: int) -> bool {
    j == s.len() || grammar::byte_at(s, j, '\n')
}

/// A keyword that is written with a space behind it is read back, and no keyword with another start.
proof fn lemma_keyword_read(s: Seq<u8>, i: int, spaced: Seq<char>, word: Seq<char>)
    requires
        grammar::word_at(s, i, spaced),
        is_ascii_chars(spaced),
        word.len() > 0,
        spaced == word + " "@,
        is_solid(s, grammar::behind(i, spaced)),
        s[grammar::behind(i, spaced)] as char != '\u{c}',
    ensures
        grammar::keyword(s, i, word) == Some(grammar::behind(i, spaced)),
        s[i] as char == word[0],
        is_solid(s, i) || word[0] == '#' || grammar::is_space(s[i]),
{
    reveal_strlit(" ");
    lemma_split(s, i, word, " "@);
    lemma_ascii(s, i, spaced);
    assert(s[i + 0] as char == spaced[0]);
    assert(s[i + (spaced.len() - 1)] as char == spaced[spaced.len() - 1]);
    let a = grammar::behind(i, word);
    lemma_start(s, a, " "@, ' ', ' ');
    lemma_span_to(s, a, a + 1, Class::KeywordSpace);
}

/// What the keywords start with.
proof fn lemma_keyword_starts(s: Seq<u8>, i: int)
    ensures
        grammar::word_at(s, i, "method"@) ==> grammar::byte_at(s, i, 'm'),
        grammar::word_at(s, i, "error"@) ==> grammar::byte_at(s, i, 'e'),
        grammar::word_at(s, i, "type"@) ==> grammar::byte_at(s, i, 't'),
        is_ascii_chars("method "@),
        is_ascii_chars("error "@),
        is_ascii_chars("type "@),
        is_ascii_chars("interface "@),
        "method "@ == "method"@ + " "@,
        "error "@ == "error"@ + " "@,
        "type "@ == "type"@ + " "@,
        "interface "@ == "interface"@ + " "@,
        "method"@.len() > 0 && "method"@[0] == 'm',
        "error"@.len() > 0 && "error"@[0] == 'e',
        "type"@.len() > 0 && "type"@[0] == 't',
        "interface"@.len() > 0 && "interface"@[0] == 'i',
{
    reveal_strlit("method");
    reveal_strlit("error");
    reveal_strlit("type");
    reveal_strlit("interface");
    reveal_strlit("method ");
    reveal_strlit("error ");
    reveal_strlit("type ");
    reveal_strlit("interface ");
    reveal_strlit(" ");
    assert("method "@ =~= "method"@ + " "@);
    assert("error "@ =~= "error"@ + " "@);
    assert("type "@ =~= "type"@ + " "@);
    assert("interface "@ =~= "interface"@ + " "@);
    lemma_start(s, i, "method"@, 'm', 'e');
    lemma_start(s, i, "error"@, 'e', 'r');
    lemma_start(s, i, "type"@, 't', 'y');
}

/// The comments, the keyword and the name that a member starts with are read back.
proof fn lemma_head_read(
    s: Seq<u8>,
    i: int,
    cs: Seq<Seq<char>>,
    spaced: Seq<char>,
    word: Seq<char>,
    name: Seq<char>,
    rest: Seq<char>,
) -> (r: (int, int))
    requires
        are_comments(cs),
        laws::is_type_name(name),
        is_ascii_chars(spaced),
        word.len() > 0,
        'a' <= word[0] <= 'z',
        spaced == word + " "@,
        grammar::word_at(s, i, comments_text(cs, 0) + (spaced + (name + rest))),
        ({
            let j = i + encode_utf8(comments_text(cs, 0)).len() + encode_utf8(spaced).len()
                + encode_utf8(name).len();
            grammar::byte_at(s, j, '(')
        }),
    ensures
        0 <= i,
        grammar::comments(s, i) == (r.0, cs),
        s[r.0] as char == word[0],
        grammar::keyword(s, r.0, word) is Some,
        grammar::type_ident(s, grammar::keyword(s, r.0, word)->0) == Some((r.1, name)),
        grammar::ws(s, r.1) == r.1,
        grammar::word_at(s, r.1, rest),
        grammar::behind(r.1, rest) == grammar::behind(
            i,
            comments_text(cs, 0) + (spaced + (name + rest)),
        ),
        i <= r.0 < r.1 < s.len(),
        !grammar::is_space(s[i]),
{
    let head = comments_text(cs, 0);
    lemma_split(s, i, head, spaced + (name + rest));
    let c = grammar::behind(i, head);
    lemma_split(s, c, spaced, name + rest);
    let k = grammar::behind(c, spaced);
    lemma_split(s, k, name, rest);
    let n = grammar::behind(k, name);
    lemma_type_ident_read(s, k, name);
    lemma_keyword_read(s, c, spaced, word);
    lemma_comments_read(s, i, cs, 0);
    assert(cs.skip(0) =~= cs);
    lemma_solid(s, n);
    if cs.len() == 0 {
        assert(encode_utf8(head).len() == 0);
    }
    (c, n)
}

/// Brackets start with one.
proof fn lemma_fields_start(s: Seq<u8>, i: int, fs: Seq<FieldView>)
    requires
        grammar::word_at(s, i, fields_text(fs)),
    ensures
        grammar::byte_at(s, i, '('),
{
    reveal_with_fuel(fields_text, 2);
    if fs.len() == 0 {
        lemma_split(s, i, "("@, ")"@);
    } else {
        let inner = field_text(fs[0]) + more_fields_text(fs, 1);
        lemma_split(s, i, "("@ + inner, ")"@);
        lemma_split(s, i, "("@, inner);
    }
    lemma_word_starts(s, i);
}

/// An arrow that is written is read back.
proof fn lemma_arrow_read(s: Seq<u8>, a: int)
    requires
        grammar::word_at(s, a, " -> "@),
        grammar::byte_at(s, a + 4, '('),
    ensures
        grammar::ws(s, a) == a + 1,
        grammar::word_at(s, a + 1, "->"@),
        grammar::behind(a + 1, "->"@) == a + 3,
        grammar::ws(s, a + 3) == a + 4,
{
    reveal_strlit(" -> ");
    reveal_strlit("->");
    lemma_ascii(s, a, " -> "@);
    assert(s[a + 0] as char == " -> "@[0]);
    assert(s[a + 1] as char == " -> "@[1]);
    assert(s[a + 2] as char == " -> "@[2]);
    assert(s[a + 3] as char == " -> "@[3]);
    lemma_space(s, a);
    lemma_space(s, a + 3);
    is_ascii_chars_encode_utf8("->"@);
    assert(s.subrange(a + 1, a + 3) =~= encode_utf8("->"@)) by {
        assert(encode_utf8("->"@)[0] == "->"@[0] as u8);
        assert(encode_utf8("->"@)[1] == "->"@[1] as u8);
    }
}

/// A method that is written is read back, and not as a custom type.
#[verifier::spinoff_prover]
#[verifier::rlimit(40)]
proof fn lemma_method_read(s: Seq<u8>, i: int, m: MethodView)
    requires
        laws::method_well_formed(m),
        are_comments(m.comments),
        fields_are_plain(m.inputs),
        fields_are_plain(m.outputs),
        grammar::word_at(s, i, method_text(m)),
    ensures
        grammar::method_def(s, i) == Some((grammar::behind(i, method_text(m)), m)),
        grammar::type_def(s, i) is None,
        i < grammar::behind(i, method_text(m)) <= s.len(),
        !grammar::is_space(s[i]),
{
    lemma_keyword_starts(s, i);
    let outputs = fields_text(m.outputs);
    let rest = fields_text(m.inputs) + (" -> "@ + outputs);
    let head = comments_text(m.comments, 0);
    lemma_split(s, i, head, "method "@ + (m.name + rest));
    let c0 = grammar::behind(i, head);
    lemma_split(s, c0, "method "@, m.name + rest);
    lemma_split(s, grammar::behind(c0, "method "@), m.name, rest);
    let n0 = grammar::behind(grammar::behind(c0, "method "@), m.name);
    lemma_split(s, n0, fields_text(m.inputs), " -> "@ + outputs);
    lemma_fields_start(s, n0, m.inputs);
    let (c, n) = lemma_head_read(s, i, m.comments, "method "@, "method"@, m.name, rest);
    lemma_fields_read(s, n, m.inputs);
    let a = grammar::behind(n, fields_text(m.inputs));
    lemma_split(s, a, " -> "@, outputs);
    reveal_strlit(" -> ");
    lemma_start(s, a, " -> "@, ' ', '-');
    lemma_fields_read(s, a + 4, m.outputs);
    lemma_arrow_read(s, a);
    lemma_keyword_starts(s, c);
    assert(grammar::keyword(s, c, "type"@) is None);
}

/// An error that is written is read back, and not as a custom type or a method.
proof fn lemma_error_read(s: Seq<u8>, i: int, e: ErrorView)
    requires
        laws::error_well_formed(e),
        are_comments(e.comments),
        fields_are_plain(e.fields),
        grammar::word_at(s, i, error_text(e)),
    ensures
        grammar::error_def(s, i) == Some((grammar::behind(i, error_text(e)), e)),
        grammar::type_def(s, i) is None,
        grammar::method_def(s, i) is None,
        i < grammar::behind(i, error_text(e)) <= s.len(),
        !grammar::is_space(s[i]),
{
    lemma_keyword_starts(s, i);
    let rest = fields_text(e.fields);
    let head = comments_text(e.comments, 0);
    lemma_split(s, i, head, "error "@ + (e.name + rest));
    let c0 = grammar::behind(i, head);
    lemma_split(s, c0, "error "@, e.name + rest);
    lemma_split(s, grammar::behind(c0, "error "@), e.name, rest);
    let n0 = grammar::behind(grammar::behind(c0, "error "@), e.name);
    lemma_fields_start(s, n0, e.fields);
    let (c, n) = lemma_head_read(s, i, e.comments, "error "@, "error"@, e.name, rest);
    lemma_fields_read(s, n, e.fields);
    lemma_keyword_starts(s, c);
    assert(grammar::keyword(s, c, "type"@) is None);
    assert(grammar::keyword(s, c, "method"@) is None);
}

/// Fields in brackets are their texts in brackets.
proof fn lemma_fields_are_items(fs: Seq<FieldView>, k: int)
    requires
        1 <= k,
    ensures
        ({
            let items = Seq::new(fs.len(), |n: int| field_text(fs[n]));
            more_fields_text(fs, k) == more_text(items, k) && fields_text(fs) == bracket_text(items)
        }),
    decreases fs.len() - k,
{
    reveal_with_fuel(fields_text, 2);
    reveal_with_fuel(more_fields_text, 2);
    reveal_with_fuel(more_text, 2);
    let items = Seq::new(fs.len(), |n: int| field_text(fs[n]));
    if k < fs.len() {
        lemma_fields_are_items(fs, k + 1);
        assert(items[k] == field_text(fs[k]));
    }
    if k > 1 {
        lemma_more_are_items(fs, 1);
    }
    if fs.len() > 0 {
        assert(items[0] == field_text(fs[0]));
        lemma_more_are_items(fs, 1);
    }
}

proof fn lemma_more_are_items(fs: Seq<FieldView>, k: int)
    ensures
        more_fields_text(fs, k) == more_text(Seq::new(fs.len(), |n: int| field_text(fs[n])), k),
    decreases fs.len() - k,
{
    reveal_with_fuel(more_fields_text, 2);
    reveal_with_fuel(more_text, 2);
    let items = Seq::new(fs.len(), |n: int| field_text(fs[n]));
    if 0 <= k < fs.len() {
        lemma_more_are_items(fs, k + 1);
        assert(items[k] == field_text(fs[k]));
    }
}

/// Members that are all typed are the typed ones.
proof fn lemma_all_typed(fs: Seq<FieldView>)
    ensures
        ({
            let ms = Seq::new(fs.len(), |n: int| MemberView::Field(fs[n]));
            grammar::typed_members(ms) == fs && grammar::named_members(ms).len() == 0
        }),
    decreases fs.len(),
{
    let ms = Seq::new(fs.len(), |n: int| MemberView::Field(fs[n]));
    if fs.len() == 0 {
        assert(grammar::typed_members(ms) =~= fs);
    } else {
        let before = fs.drop_last();
        lemma_all_typed(before);
        assert(ms.drop_last() =~= Seq::new(before.len(), |n: int| MemberView::Field(before[n])));
        assert(grammar::typed_members(ms) =~= before.push(fs.last()));
        assert(before.push(fs.last()) =~= fs);
    }
}

/// Members that are all only named are the named ones.
proof fn lemma_all_named(vs: Seq<EnumVariantView>)
    ensures
        ({
            let ms = Seq::new(vs.len(), |n: int| MemberView::Variant(vs[n]));
            grammar::named_members(ms) == vs && grammar::typed_members(ms).len() == 0
        }),
    decreases vs.len(),
{
    let ms = Seq::new(vs.len(), |n: int| MemberView::Variant(vs[n]));
    if vs.len() == 0 {
        assert(grammar::named_members(ms) =~= vs);
    } else {
        let before = vs.drop_last();
        lemma_all_named(before);
        assert(ms.drop_last() =~= Seq::new(before.len(), |n: int| MemberView::Variant(before[n])));
        assert(grammar::named_members(ms) =~= before.push(vs.last()));
        assert(before.push(vs.last()) =~= vs);
    }
}

/// The members of a custom type that are written are read back.
proof fn lemma_members_read(s: Seq<u8>, i: int, members: MembersView)
    requires
        match members {
            MembersView::Object(fs) => laws::fields_well_formed(fs) && fields_are_plain(fs),
            MembersView::Enum(vs) => laws::variants_well_formed(vs) && variants_are_plain(vs),
        },
        grammar::word_at(s, i, members_text(members)),
    ensures
        grammar::bracketed(s, i, |k: int| grammar::member(s, k)) == Some(
            (
                grammar::behind(i, members_text(members)),
                match members {
                    MembersView::Object(fs) => Seq::new(
                        fs.len(),
                        |n: int| MemberView::Field(fs[n]),
                    ),
                    MembersView::Enum(vs) => Seq::new(
                        vs.len(),
                        |n: int| MemberView::Variant(vs[n]),
                    ),
                },
            ),
        ),
        i < grammar::behind(i, members_text(members)) <= s.len(),
{
    let p = |k: int| grammar::member(s, k);
    match members {
        MembersView::Object(fs) => {
            let items = Seq::new(fs.len(), |n: int| field_text(fs[n]));
            let ms = Seq::new(fs.len(), |n: int| MemberView::Field(fs[n]));
            lemma_fields_are_items(fs, 1);
            reveal_with_fuel(laws::fields_well_formed, 2);
            reveal_with_fuel(fields_are_plain, 2);
            assert forall|n: int, j: int|
                0 <= n < items.len() && #[trigger] grammar::word_at(s, j, #[trigger] items[n])
                    && stops(s, grammar::behind(j, items[n])) implies p(j) == Some(
                (grammar::behind(j, items[n]), ms[n]),
            ) && j < grammar::behind(j, items[n]) && !grammar::is_space(s[j]) by {
                assert(laws::field_well_formed(fs[n]));
                lemma_field_read(s, j, fs[n]);
            }
            assert forall|j: int| grammar::byte_at(s, j, ')') implies (#[trigger] p(j)) is None by {
                lemma_solid(s, j);
            }
            lemma_bracketed_read(s, i, p, items, ms);
            lemma_bracket_end(s, i, items);
        },
        MembersView::Enum(vs) => {
            let items = Seq::new(vs.len(), |n: int| variant_text(vs[n]));
            let ms = Seq::new(vs.len(), |n: int| MemberView::Variant(vs[n]));
            assert forall|n: int, j: int|
                0 <= n < items.len() && #[trigger] grammar::word_at(s, j, #[trigger] items[n])
                    && stops(s, grammar::behind(j, items[n])) implies p(j) == Some(
                (grammar::behind(j, items[n]), ms[n]),
            ) && j < grammar::behind(j, items[n]) && !grammar::is_space(s[j]) by {
                lemma_variant_read(s, j, vs[n]);
            }
            lemma_bracketed_read(s, i, p, items, ms);
            lemma_bracket_end(s, i, items);
        },
    }
}

/// A custom type that is written is read back.
proof fn lemma_custom_type_read(s: Seq<u8>, i: int, t: CustomTypeView)
    requires
        laws::custom_type_well_formed(t),
        are_comments(t.comments),
        match t.members {
            MembersView::Object(fs) => fields_are_plain(fs),
            MembersView::Enum(vs) => variants_are_plain(vs),
        },
        grammar::word_at(s, i, custom_type_text(t)),
    ensures
        grammar::type_def(s, i) == Some((grammar::behind(i, custom_type_text(t)), t)),
        i < grammar::behind(i, custom_type_text(t)) <= s.len(),
        !grammar::is_space(s[i]),
{
    lemma_keyword_starts(s, i);
    let rest = members_text(t.members);
    let head = comments_text(t.comments, 0);
    lemma_split(s, i, head, "type "@ + (t.name + rest));
    let c0 = grammar::behind(i, head);
    lemma_split(s, c0, "type "@, t.name + rest);
    lemma_split(s, grammar::behind(c0, "type "@), t.name, rest);
    let n0 = grammar::behind(grammar::behind(c0, "type "@), t.name);
    lemma_members_read(s, n0, t.members);
    assert(grammar::open_list(s, n0) is Some);
    let (c, n) = lemma_head_read(s, i, t.comments, "type "@, "type"@, t.name, rest);
    assert(n == n0);
    match t.members {
        MembersView::Object(fs) => {
            lemma_all_typed(fs);
        },
        MembersView::Enum(vs) => {
            lemma_all_named(vs);
        },
    }
}

/// A new line in front of a member is skipped.
proof fn lemma_line(s: Seq<u8>, i: int)
    requires
        grammar::byte_at(s, i, '\n'),
        i + 1 < s.len(),
        !grammar::is_space(s[i + 1]),
    ensures
        grammar::skip_space(s, i) == i + 1,
{
    lemma_span_to(s, i, i + 1, Class::Space);
}

/// Lines end where a line starts or the text ends.
proof fn lemma_lines_end(s: Seq<u8>, i: int, items: Seq<Seq<char>>, k: int)
    requires
        0 <= k,
        grammar::word_at(s, i, lines_text(items, k)),
        line_ends(s, grammar::behind(i, lines_text(items, k))),
    ensures
        line_ends(s, i),
{
    if k < items.len() {
        lemma_split(s, i, "\n"@, items[k] + lines_text(items, k + 1));
        reveal_strlit("\n");
        lemma_start(s, i, "\n"@, '\n', '\n');
    } else {
        assert(encode_utf8(lines_text(items, k)).len() == 0);
    }
}

/// Custom types that are written are read back.
proof fn lemma_custom_types_read(
    s: Seq<u8>,
    i: int,
    ts: Seq<CustomTypeView>,
    k: int,
    m: MembersOfInterface,
)
    requires
        0 <= k <= ts.len(),
        forall|n: int|
            0 <= n < ts.len() ==> laws::custom_type_well_formed(#[trigger] ts[n]) && are_comments(
                ts[n].comments,
            ) && match ts[n].members {
                MembersView::Object(fs) => fields_are_plain(fs),
                MembersView::Enum(vs) => variants_are_plain(vs),
            },
        grammar::word_at(s, i, lines_text(custom_type_texts(ts), k)),
        line_ends(s, grammar::behind(i, lines_text(custom_type_texts(ts), k))),
    ensures
        grammar::interface_members(s, i, m) == grammar::interface_members(
            s,
            grammar::behind(i, lines_text(custom_type_texts(ts), k)),
            MembersOfInterface { custom_types: m.custom_types + ts.skip(k), ..m },
        ),
    decreases ts.len() - k,
{
    let items = custom_type_texts(ts);
    if k == ts.len() {
        assert(encode_utf8(lines_text(items, k)).len() == 0);
        assert(m.custom_types + ts.skip(k) =~= m.custom_types);
    } else {
        let rest = lines_text(items, k + 1);
        lemma_split(s, i, "\n"@, items[k] + rest);
        reveal_strlit("\n");
        lemma_start(s, i, "\n"@, '\n', '\n');
        lemma_split(s, i + 1, items[k], rest);
        let j = grammar::behind(i + 1, items[k]);
        lemma_custom_type_read(s, i + 1, ts[k]);
        lemma_line(s, i);
        let next = MembersOfInterface { custom_types: m.custom_types.push(ts[k]), ..m };
        assert(grammar::interface_members(s, i, m) == grammar::interface_members(s, j, next));
        lemma_custom_types_read(s, j, ts, k + 1, next);
        assert(next.custom_types + ts.skip(k + 1) =~= m.custom_types + ts.skip(k));
    }
}

/// Methods that are written are read back.
proof fn lemma_methods_read(
    s: Seq<u8>,
    i: int,
    ms: Seq<MethodView>,
    k: int,
    m: MembersOfInterface,
)
    requires
        0 <= k <= ms.len(),
        forall|n: int|
            0 <= n < ms.len() ==> laws::method_well_formed(#[trigger] ms[n]) && are_comments(
                ms[n].comments,
            ) && fields_are_plain(ms[n].inputs) && fields_are_plain(ms[n].outputs),
        grammar::word_at(s, i, lines_text(method_texts(ms), k)),
        line_ends(s, grammar::behind(i, lines_text(method_texts(ms), k))),
    ensures
        grammar::interface_members(s, i, m) == grammar::interface_members(
            s,
            grammar::behind(i, lines_text(method_texts(ms), k)),
            MembersOfInterface { methods: m.methods + ms.skip(k), ..m },
        ),
    decreases ms.len() - k,
{
    let items = method_texts(ms);
    if k == ms.len() {
        assert(encode_utf8(lines_text(items, k)).len() == 0);
        assert(m.methods + ms.skip(k) =~= m.methods);
    } else {
        let rest = lines_text(items, k + 1);
        lemma_split(s, i, "\n"@, items[k] + rest);
        reveal_strlit("\n");
        lemma_start(s, i, "\n"@, '\n', '\n');
        lemma_split(s, i + 1, items[k], rest);
        let j = grammar::behind(i + 1, items[k]);
        lemma_method_read(s, i + 1, ms[k]);
        lemma_line(s, i);
        let next = MembersOfInterface { methods: m.methods.push(ms[k]), ..m };
        assert(grammar::interface_members(s, i, m) == grammar::interface_members(s, j, next));
        lemma_methods_read(s, j, ms, k + 1, next);
        assert(next.methods + ms.skip(k + 1) =~= m.methods + ms.skip(k));
    }
}

/// Errors that are written are read back.
proof fn lemma_errors_read(
    s: Seq<u8>,
    i: int,
    es: Seq<ErrorView>,
    k: int,
    m: MembersOfInterface,
)
    requires
        0 <= k <= es.len(),
        forall|n: int|
            0 <= n < es.len() ==> laws::error_well_formed(#[trigger] es[n]) && are_comments(
                es[n].comments,
            ) && fields_are_plain(es[n].fields),
        grammar::word_at(s, i, lines_text(error_texts(es), k)),
        line_ends(s, grammar::behind(i, lines_text(error_texts(es), k))),
    ensures
        grammar::interface_members(s, i, m) == grammar::interface_members(
            s,
            grammar::behind(i, lines_text(error_texts(es), k)),
            MembersOfInterface { errors: m.errors + es.skip(k), ..m },
        ),
    decreases es.len() - k,
{
    let items = error_texts(es);
    if k == es.len() {
        assert(encode_utf8(lines_text(items, k)).len() == 0);
        assert(m.errors + es.skip(k) =~= m.errors);
    } else {
        let rest = lines_text(items, k + 1);
        lemma_split(s, i, "\n"@, items[k] + rest);
        reveal_strlit("\n");
        lemma_start(s, i, "\n"@, '\n', '\n');
        lemma_split(s, i + 1, items[k], rest);
        let j = grammar::behind(i + 1, items[k]);
        lemma_error_read(s, i + 1, es[k]);
        lemma_line(s, i);
        let next = MembersOfInterface { errors: m.errors.push(es[k]), ..m };
        assert(grammar::interface_members(s, i, m) == grammar::interface_members(s, j, next));
        lemma_errors_read(s, j, es, k + 1, next);
        assert(next.errors + es.skip(k + 1) =~= m.errors + es.skip(k));
    }
}

/// Whether what stands between two positions is an interface name.
spec fn is_name_at(s: Seq<u8>, i: int, j: int) -> bool {
    &&& 0 <= i < j <= s.len()
    &&& grammar::is_alpha(s[i])
    &&& grammar::is_alnum(s[j - 1])
    &&& forall|k: int|
        i <= k < j ==> grammar::is_alnum(#[trigger] s[k]) || s[k] as char == '-' || s[k] as char
            == '.'
    &&& forall|k: int|
        i <= k < j && #[trigger] s[k] as char == '.' ==> i < k < j - 1 && grammar::is_alnum(
            s[k - 1],
        ) && grammar::is_alnum(s[k + 1])
}

/// A segment of a name ends at the next dot or at the end.
proof fn lemma_segment_read(s: Seq<u8>, i: int, j: int, a: int) -> (e: int)
    requires
        is_name_at(s, i, j),
        line_ends(s, j),
        i < a <= j,
        grammar::is_alnum(s[a - 1]),
    ensures
        grammar::segment_end(s, a) == e,
        a <= e <= j,
        e == j || s[e] as char == '.',
        grammar::is_alnum(s[e - 1]),
        forall|k: int| a <= k < e ==> (#[trigger] s[k]) as char != '.',
{
    let e = grammar::span(s, a, Class::SegmentByte);
    grammar::lemma_span(s, a, Class::SegmentByte);
    if e > j {
        assert(grammar::in_class(s[j], Class::SegmentByte));
    }
    assert forall|k: int| a <= k < e implies (#[trigger] s[k]) as char != '.' by {
        assert(grammar::in_class(s[k], Class::SegmentByte));
    }
    if e < j {
        assert(grammar::is_alnum(s[e]) || s[e] as char == '-' || s[e] as char == '.');
        assert(s[e] as char == '.');
    }
    assert(grammar::without_dashes(s, a, e) == e);
    e
}

/// The segments of a name end with it.
proof fn lemma_segments_read(s: Seq<u8>, i: int, j: int, a: int)
    requires
        is_name_at(s, i, j),
        line_ends(s, j),
        i < a <= j,
        a == j || s[a] as char == '.',
    ensures
        grammar::segments(s, a) == Some(j),
    decreases j - a,
{
    if a < j {
        assert(s[a] as char == '.');
        let e = lemma_segment_read(s, i, j, a + 2);
        grammar::lemma_segment_end(s, a + 2);
        lemma_segments_read(s, i, j, e);
    }
}

/// An interface name that is written is read back.
proof fn lemma_interface_name_read(s: Seq<u8>, i: int, name: Seq<char>)
    requires
        laws::is_interface_name(name),
        grammar::word_at(s, i, name),
        line_ends(s, grammar::behind(i, name)),
    ensures
        grammar::interface_name(s, i) == Some((grammar::behind(i, name), name)),
        is_solid(s, i),
        grammar::is_alpha(s[i]),
{
    assert(is_ascii_chars(name)) by {
        assert forall|k: int| 0 <= k < name.len() implies '\0' <= #[trigger] name[k] <= '\u{7f}' by {
            assert(laws::is_letter_or_digit(name[k]) || name[k] == '-' || name[k] == '.');
        }
    }
    lemma_ascii(s, i, name);
    let j = i + name.len();
    assert(s[i + 0] as char == name[0]);
    assert(s[i + (name.len() - 1)] as char == name[name.len() - 1]);
    assert forall|k: int| i <= k < j implies grammar::is_alnum(#[trigger] s[k]) || s[k] as char
        == '-' || s[k] as char == '.' by {
        assert(s[i + (k - i)] as char == name[k - i]);
    }
    assert forall|k: int| i <= k < j && #[trigger] s[k] as char == '.' implies i < k < j - 1
        && grammar::is_alnum(s[k - 1]) && grammar::is_alnum(s[k + 1]) by {
        assert(s[i + (k - i)] as char == name[k - i]);
        assert(name[k - i] == '.');
        assert(s[i + (k - i - 1)] as char == name[k - i - 1]);
        assert(s[i + (k - i + 1)] as char == name[k - i + 1]);
    }
    assert(is_name_at(s, i, j));
    let e = lemma_segment_read(s, i, j, i + 1);
    let d = choose|d: int| 0 <= d < name.len() && name[d] == '.';
    assert(s[i + d] as char == name[d]);
    assert(e < j);
    lemma_segments_read(s, i, j, e);
}

/// Whether a text starts and ends with something that is no white space.
pub open spec fn is_trim(t: Seq<char>) -> bool {
    t.len() > 0 && !text::is_white_space(t[0]) && !text::is_white_space(t.last())
}

/// Fields in brackets end with one.
proof fn lemma_fields_last(fs: Seq<FieldView>)
    ensures
        fields_text(fs).len() > 0 && fields_text(fs).last() == ')',
{
    reveal_with_fuel(fields_text, 2);
    reveal_strlit(")");
}

/// Lines end with what their items do.
proof fn lemma_lines_last(before: Seq<char>, items: Seq<Seq<char>>, k: int)
    requires
        0 <= k,
        before.len() > 0,
        !text::is_white_space(before.last()),
        forall|n: int|
            0 <= n < items.len() ==> (#[trigger] items[n]).len() > 0 && !text::is_white_space(
                items[n].last(),
            ),
    ensures
        ({
            let all = before + lines_text(items, k);
            all.len() > 0 && !text::is_white_space(all.last()) && all[0] == before[0]
        }),
    decreases items.len() - k,
{
    if k < items.len() {
        let next = before + "\n"@ + items[k];
        assert(next.last() == items[k].last());
        lemma_lines_last(next, items, k + 1);
        assert(before + lines_text(items, k) =~= next + lines_text(items, k + 1));
    } else {
        assert(before + lines_text(items, k) =~= before);
    }
}

/// A text that starts and ends with something that is no white space is not trimmed.
proof fn lemma_trim(t: Seq<char>)
    requires
        is_trim(t),
    ensures
        text::trimmed(t) == t,
{
}

/// A custom type ends with a bracket.
proof fn lemma_custom_type_last(t: CustomTypeView)
    ensures
        custom_type_text(t).len() > 0 && custom_type_text(t).last() == ')',
{
    let members = members_text(t.members);
    match t.members {
        MembersView::Object(fs) => {
            lemma_fields_last(fs);
        },
        MembersView::Enum(vs) => {
            reveal_strlit(")");
        },
    }
    assert(members.len() > 0 && members.last() == ')');
    lemma_last_of(t.name, members);
    lemma_last_of("type "@, t.name + members);
    lemma_last_of(comments_text(t.comments, 0), "type "@ + (t.name + members));
}

/// A method ends with a bracket.
proof fn lemma_method_last(m: MethodView)
    ensures
        method_text(m).len() > 0 && method_text(m).last() == ')',
{
    let outputs = fields_text(m.outputs);
    let inputs = fields_text(m.inputs);
    lemma_fields_last(m.outputs);
    lemma_last_of(" -> "@, outputs);
    lemma_last_of(inputs, " -> "@ + outputs);
    lemma_last_of(m.name, inputs + (" -> "@ + outputs));
    lemma_last_of("method "@, m.name + (inputs + (" -> "@ + outputs)));
    lemma_last_of(
        comments_text(m.comments, 0),
        "method "@ + (m.name + (inputs + (" -> "@ + outputs))),
    );
}

/// An error ends with a bracket.
proof fn lemma_error_last(e: ErrorView)
    ensures
        error_text(e).len() > 0 && error_text(e).last() == ')',
{
    let fields = fields_text(e.fields);
    lemma_fields_last(e.fields);
    lemma_last_of(e.name, fields);
    lemma_last_of("error "@, e.name + fields);
    lemma_last_of(comments_text(e.comments, 0), "error "@ + (e.name + fields));
}

proof fn lemma_last_of(a: Seq<char>, b: Seq<char>)
    requires
        b.len() > 0,
    ensures
        (a + b).len() > 0,
        (a + b).last() == b.last(),
{
}

/// An interface starts with a comment or its keyword, and its head ends with its name.
proof fn lemma_head_trim(i: InterfaceView)
    requires
        laws::is_interface_name(i.name),
    ensures
        is_trim(comments_text(i.comments, 0) + ("interface "@ + i.name)),
{
    let head = comments_text(i.comments, 0);
    reveal_strlit("interface ");
    reveal_strlit("# ");
    lemma_last_of("interface "@, i.name);
    lemma_last_of(head, "interface "@ + i.name);
    if i.comments.len() > 0 {
        let line = "# "@ + i.comments[0] + "\n"@;
        assert(head == line + comments_text(i.comments, 1));
        assert(head[0] == "# "@[0]);
    } else {
        assert(head.len() == 0);
        assert((head + ("interface "@ + i.name))[0] == "interface "@[0]);
    }
    assert(laws::is_letter_or_digit(i.name.last()));
}

/// An interface as it is written starts and ends with something that is no white space.
proof fn lemma_interface_trim(i: InterfaceView)
    requires
        laws::is_interface_name(i.name),
    ensures
        is_trim(interface_text(i)),
{
    let ts = custom_type_texts(i.custom_types);
    let ms = method_texts(i.methods);
    let es = error_texts(i.errors);
    let types = lines_text(ts, 0);
    let methods = lines_text(ms, 0);
    let errors = lines_text(es, 0);
    let comments = comments_text(i.comments, 0);
    let head = comments + ("interface "@ + i.name);
    lemma_head_trim(i);
    assert forall|n: int| 0 <= n < ts.len() implies (#[trigger] ts[n]).len() > 0
        && !text::is_white_space(ts[n].last()) by {
        lemma_custom_type_last(i.custom_types[n]);
    }
    assert forall|n: int| 0 <= n < ms.len() implies (#[trigger] ms[n]).len() > 0
        && !text::is_white_space(ms[n].last()) by {
        lemma_method_last(i.methods[n]);
    }
    assert forall|n: int| 0 <= n < es.len() implies (#[trigger] es[n]).len() > 0
        && !text::is_white_space(es[n].last()) by {
        lemma_error_last(i.errors[n]);
    }
    lemma_lines_last(head, ts, 0);
    lemma_lines_last(head + types, ms, 0);
    lemma_lines_last(head + types + methods, es, 0);
    lemma_regroup(comments, "interface "@, i.name, types, methods, errors);
}

proof fn lemma_regroup(
    a: Seq<char>,
    b: Seq<char>,
    c: Seq<char>,
    d: Seq<char>,
    e: Seq<char>,
    f: Seq<char>,
)
    ensures
        a + (b + (c + (d + (e + f)))) == a + (b + c) + d + e + f,
{
    assert(a + (b + (c + (d + (e + f)))) =~= a + (b + c) + d + e + f);
}

/// The members of an interface that are written are read back.
#[verifier::spinoff_prover]
proof fn lemma_all_members_read(s: Seq<u8>, n: int, i: InterfaceView)
    requires
        laws::interface_well_formed(i),
        interface_is_plain(i),
        ({
            let rest = lines_text(custom_type_texts(i.custom_types), 0) + (lines_text(
                method_texts(i.methods),
                0,
            ) + lines_text(error_texts(i.errors), 0));
            grammar::word_at(s, n, rest) && grammar::behind(n, rest) == s.len()
        }),
    ensures
        line_ends(s, n),
        grammar::interface_members(
            s,
            n,
            (MembersOfInterface { methods: seq![], custom_types: seq![], errors: seq![] }),
        ) == (
            s.len() as int,
            (MembersOfInterface {
                methods: i.methods,
                custom_types: i.custom_types,
                errors: i.errors,
            }),
        ),
{
    let types = lines_text(custom_type_texts(i.custom_types), 0);
    let methods = lines_text(method_texts(i.methods), 0);
    let errors = lines_text(error_texts(i.errors), 0);
    lemma_split(s, n, types, methods + errors);
    let a = grammar::behind(n, types);
    lemma_split(s, a, methods, errors);
    let b = grammar::behind(a, methods);
    lemma_lines_end(s, b, error_texts(i.errors), 0);
    lemma_lines_end(s, a, method_texts(i.methods), 0);
    lemma_lines_end(s, n, custom_type_texts(i.custom_types), 0);
    let none = MembersOfInterface { methods: seq![], custom_types: seq![], errors: seq![] };
    let m = MembersOfInterface {
        methods: i.methods,
        custom_types: i.custom_types,
        errors: i.errors,
    };
    assert(laws::members_well_formed(m));
    assert forall|k: int| 0 <= k < i.custom_types.len() implies laws::custom_type_well_formed(
        #[trigger] i.custom_types[k],
    ) by {
        assert(laws::custom_type_well_formed(m.custom_types[k]));
    }
    assert forall|k: int| 0 <= k < i.methods.len() implies laws::method_well_formed(
        #[trigger] i.methods[k],
    ) by {
        assert(laws::method_well_formed(m.methods[k]));
    }
    assert forall|k: int| 0 <= k < i.errors.len() implies laws::error_well_formed(
        #[trigger] i.errors[k],
    ) by {
        assert(laws::error_well_formed(m.errors[k]));
    }
    lemma_custom_types_read(s, n, i.custom_types, 0, none);
    let m1 = MembersOfInterface { custom_types: none.custom_types + i.custom_types.skip(0), ..none };
    lemma_methods_read(s, a, i.methods, 0, m1);
    let m2 = MembersOfInterface { methods: m1.methods + i.methods.skip(0), ..m1 };
    lemma_errors_read(s, b, i.errors, 0, m2);
    let m3 = MembersOfInterface { errors: m2.errors + i.errors.skip(0), ..m2 };
    assert(m3.custom_types =~= i.custom_types);
    assert(m3.methods =~= i.methods);
    assert(m3.errors =~= i.errors);
    lemma_span_to(s, s.len() as int, s.len() as int, Class::Space);
    assert(grammar::interface_members(s, s.len() as int, m3) == (s.len() as int, m3));
}

/// An interface that is written and read is the same interface: its name, its methods with what they
/// take and give back, its custom types, its errors and all comments, each in their order.
#[verifier::spinoff_prover]
pub proof fn law_written_interfaces_are_read_back(i: InterfaceView)
    requires
        laws::interface_well_formed(i),
        interface_is_plain(i),
    ensures
        grammar::interface(interface_text(i)) == Ok::<InterfaceView, Seq<char>>(i),
{
    let t = interface_text(i);
    lemma_interface_trim(i);
    lemma_trim(t);
    let s = encode_utf8(t);
    assert(s.subrange(0, s.len() as int) =~= s);
    assert(grammar::word_at(s, 0, t));
    let rest = lines_text(custom_type_texts(i.custom_types), 0) + (lines_text(
        method_texts(i.methods),
        0,
    ) + lines_text(error_texts(i.errors), 0));
    let head = comments_text(i.comments, 0);
    lemma_split(s, 0, head, "interface "@ + (i.name + rest));
    let c = grammar::behind(0, head);
    lemma_split(s, c, "interface "@, i.name + rest);
    let k = grammar::behind(c, "interface "@);
    lemma_split(s, k, i.name, rest);
    let n = grammar::behind(k, i.name);
    lemma_all_members_read(s, n, i);
    lemma_interface_name_read(s, k, i.name);
    lemma_keyword_starts(s, c);
    lemma_keyword_read(s, c, "interface "@, "interface"@);
    lemma_comments_read(s, 0, i.comments, 0);
    assert(i.comments.skip(0) =~= i.comments);
    lemma_span_to(s, s.len() as int, s.len() as int, Class::Space);
    assert(grammar::ws(s, s.len() as int) == s.len());
    assert(grammar::interface_def(s, 0) == Ok::<(int, InterfaceView), int>((s.len() as int, i)));
}

} // verus!
