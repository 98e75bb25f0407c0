//! What the texts look like that the parser accepts.

use vstd::prelude::*;
use vstd::utf8::*;

use super::grammar;
use super::grammar::{Class, MemberView, MembersOfInterface};
use super::{
    CustomTypeView, EnumVariantView, ErrorView, FieldView, InterfaceView, MembersView, MethodView,
    TypeView,
};
use crate::text;

verus! {

/// The bytes of each class, by their numbers.
pub proof fn law_classes_hold_these_bytes(b: u8)
    ensures
        grammar::in_class(b, Class::Space) <==> b == 32 || b == 9 || b == 13 || b == 10,
        grammar::in_class(b, Class::KeywordSpace) <==> b == 32 || b == 9 || b == 13 || b == 10 || b
            == 12,
        grammar::in_class(b, Class::Blank) <==> b == 32 || b == 9,
        grammar::in_class(b, Class::Line) <==> b != 10,
        grammar::in_class(b, Class::Comment) <==> b != 10 && b != 13,
        grammar::in_class(b, Class::Alnum) <==> 65 <= b <= 90 || 97 <= b <= 122 || 48 <= b <= 57,
        grammar::in_class(b, Class::FieldByte) <==> 65 <= b <= 90 || 97 <= b <= 122 || 48 <= b <= 57
            || b == 95,
        grammar::in_class(b, Class::SegmentByte) <==> 65 <= b <= 90 || 97 <= b <= 122 || 48 <= b
            <= 57 || b == 45,
        grammar::is_upper(b) <==> 65 <= b <= 90,
        grammar::is_alpha(b) <==> 65 <= b <= 90 || 97 <= b <= 122,
        grammar::is_alnum(b) <==> 65 <= b <= 90 || 97 <= b <= 122 || 48 <= b <= 57,
{
}

/// Bytes of a class are taken as long as there are some, and no further.
pub proof fn law_classes_are_taken_whole(s: Seq<u8>, i: int, j: int, class: Class)
    requires
        0 <= i <= j <= s.len(),
        forall|k: int| i <= k < j ==> grammar::in_class(#[trigger] s[k], class),
        j < s.len() ==> !grammar::in_class(s[j], class),
    ensures
        grammar::span(s, i, class) == j,
    decreases j - i,
{
    if i < j {
        assert(grammar::in_class(s[i], class));
        law_classes_are_taken_whole(s, i + 1, j, class);
    }
}

/// Whether bytes may stand between two tokens, or at the end of the text: white space and comments,
/// which begin with `#` and end with the line.
pub open spec fn is_gap(g: Seq<u8>, at_end: bool) -> bool
    decreases g.len(),
{
    ||| g.len() == 0
    ||| (g[0] == 32 || g[0] == 9 || g[0] == 13 || g[0] == 10) && is_gap(g.skip(1), at_end)
    ||| g[0] == 35 && exists|e: int| #[trigger] is_comment(g, e, at_end) && is_gap(
        g.skip(e),
        at_end,
    )
}

/// Whether the first `e` bytes are a comment with the end of its line. At the end of the text that may
/// be missing.
pub open spec fn is_comment(g: Seq<u8>, e: int, at_end: bool) -> bool {
    &&& 0 < e <= g.len()
    &&& g[0] == 35
    &&& forall|k: int| 0 < k < e - 1 ==> #[trigger] g[k] != 10 && g[k] != 13
    &&& g[e - 1] == 10 || g[e - 1] == 13 || (at_end && e == g.len())
}

/// White space and comments are skipped, and nothing else is: what stands behind them is neither.
pub proof fn law_gaps_are_skipped(s: Seq<u8>, i: int)
    requires
        0 <= i <= s.len(),
    ensures
        i <= grammar::ws(s, i) <= s.len(),
        is_gap(s.subrange(i, grammar::ws(s, i)), grammar::ws(s, i) == s.len()),
        grammar::ws(s, i) < s.len() ==> {
            let b = s[grammar::ws(s, i)];
            b != 32 && b != 9 && b != 13 && b != 10 && b != 35
        },
    decreases s.len() - i,
{
    grammar::lemma_ws(s, i);
    let r = grammar::ws(s, i);
    let a = grammar::skip_space(s, i);
    grammar::lemma_span(s, i, Class::Space);
    if grammar::byte_at(s, a, '#') {
        let e = grammar::span(s, a + 1, Class::Comment);
        let n = grammar::comment_end(s, a + 1);
        grammar::lemma_span(s, a + 1, Class::Comment);
        grammar::lemma_ws(s, n);
        law_gaps_are_skipped(s, n);
        let g = s.subrange(a, r);
        assert(g.skip(n - a) =~= s.subrange(n, r));
        if grammar::byte_at(s, e, '\r') && grammar::byte_at(s, e + 1, '\n') {
            let f = e + 1 - a;
            assert(g[f - 1] == s[e]);
            assert forall|k: int| 0 < k < f - 1 implies #[trigger] g[k] != 10 && g[k] != 13 by {
                assert(g[k] == s[a + k]);
                assert(grammar::in_class(s[a + k], Class::Comment));
            }
            assert(is_comment(g, f, r == s.len()));
            let h = g.skip(f);
            assert(h[0] == s[e + 1]);
            assert(h.skip(1) =~= g.skip(n - a));
            assert(is_gap(h, r == s.len()));
        } else {
            let f = n - a;
            assert forall|k: int| 0 < k < f - 1 implies #[trigger] g[k] != 10 && g[k] != 13 by {
                assert(g[k] == s[a + k]);
                assert(grammar::in_class(s[a + k], Class::Comment));
            }
            if e < s.len() {
                assert(g[f - 1] == s[e]);
                assert(!grammar::in_class(s[e], Class::Comment));
            } else {
                assert(r == n);
                assert(f == g.len());
            }
            assert(is_comment(g, f, r == s.len()));
        }
        assert(is_gap(g, r == s.len()));
    } else {
        assert(s.subrange(a, r) =~= seq![]);
    }
    lemma_spaces_in_front(s, i, a, r);
}

proof fn lemma_spaces_in_front(s: Seq<u8>, i: int, a: int, r: int)
    requires
        0 <= i <= a <= r <= s.len(),
        forall|k: int| i <= k < a ==> grammar::in_class(#[trigger] s[k], Class::Space),
        is_gap(s.subrange(a, r), r == s.len()),
    ensures
        is_gap(s.subrange(i, r), r == s.len()),
    decreases a - i,
{
    if i < a {
        lemma_spaces_in_front(s, i + 1, a, r);
        let g = s.subrange(i, r);
        assert(grammar::in_class(s[i], Class::Space));
        assert(g[0] == s[i]);
        assert(g.skip(1) =~= s.subrange(i + 1, r));
    }
}

/// Comments are collected one behind the other, each without the `#`, the blanks behind that and the
/// end of the line. Where none is left, the text goes on where the last line of them ended.
pub proof fn law_comments_are_collected(s: Seq<u8>, i: int, a: int, b: int, e: int)
    requires
        0 <= i <= a < b <= e <= s.len(),
        forall|k: int| i <= k < a ==> grammar::in_class(#[trigger] s[k], Class::Space),
        s[a] == 35,
        forall|k: int| a < k < b ==> grammar::in_class(#[trigger] s[k], Class::Blank),
        b < e ==> s[b] != 32 && s[b] != 9,
        b == e && e < s.len() ==> s[e] == 10,
        forall|k: int| b <= k < e ==> #[trigger] s[k] != 10,
        e < s.len() ==> s[e] == 10,
    ensures
        grammar::comments(s, i).1 == seq![decode_utf8(s.subrange(b, e))] + grammar::comments(
            s,
            grammar::skip_space(s, e),
        ).1,
        grammar::comments(s, i).0 == grammar::comments(s, grammar::skip_space(s, e)).0,
{
    law_classes_are_taken_whole(s, i, a, Class::Space);
    law_classes_are_taken_whole(s, a + 1, b, Class::Blank);
    law_classes_are_taken_whole(s, b, e, Class::Line);
}

/// Where no comment stands, none is collected and nothing is taken.
pub proof fn law_without_comments_nothing_is_taken(s: Seq<u8>, i: int, a: int)
    requires
        0 <= i <= a < s.len(),
        forall|k: int| i <= k < a ==> grammar::in_class(#[trigger] s[k], Class::Space),
        !grammar::in_class(s[a], Class::Space),
        s[a] != 35,
    ensures
        grammar::comments(s, i) == (i, Seq::<Seq<char>>::empty()),
{
    law_classes_are_taken_whole(s, i, a, Class::Space);
}

/// A keyword is its letters and white space behind them.
pub proof fn law_keywords_have_space_behind_them(s: Seq<u8>, i: int, word: Seq<char>)
    requires
        0 <= i,
    ensures
        ({
            let a = i + encode_utf8(word).len();
            let whole = a < s.len() && s.subrange(i, a) == encode_utf8(word)
                && grammar::in_class(s[a], Class::KeywordSpace);
            &&& grammar::keyword(s, i, word) is Some <==> whole
            &&& whole ==> grammar::keyword(s, i, word) == Some(
                grammar::span(s, a, Class::KeywordSpace),
            )
        }),
{
    let a = i + encode_utf8(word).len();
    grammar::lemma_span(s, a, Class::KeywordSpace);
    if a < s.len() && grammar::in_class(s[a], Class::KeywordSpace) {
        grammar::lemma_span(s, a + 1, Class::KeywordSpace);
    }
}

/// A field name is a letter and the letters, digits and underscores behind it; the name of a type is a
/// capital letter and the letters and digits behind it.
pub proof fn law_names_are_taken_whole(s: Seq<u8>, i: int)
    ensures
        grammar::field_name(s, i) is Some <==> 0 <= i < s.len() && grammar::is_alpha(s[i]),
        grammar::field_name(s, i) matches Some((j, name)) ==> {
            &&& i < j <= s.len()
            &&& name == decode_utf8(s.subrange(i, j))
            &&& forall|k: int| i <= k < j ==> grammar::in_class(#[trigger] s[k], Class::FieldByte)
            &&& j < s.len() ==> !grammar::in_class(s[j], Class::FieldByte)
        },
        grammar::type_ident(s, i) is Some <==> 0 <= i < s.len() && grammar::is_upper(s[i]),
        grammar::type_ident(s, i) matches Some((j, name)) ==> {
            &&& i < j <= s.len()
            &&& name == decode_utf8(s.subrange(i, j))
            &&& forall|k: int| i <= k < j ==> grammar::in_class(#[trigger] s[k], Class::Alnum)
            &&& j < s.len() ==> !grammar::in_class(s[j], Class::Alnum)
        },
{
    grammar::lemma_span(s, i + 1, Class::FieldByte);
    grammar::lemma_span(s, i + 1, Class::Alnum);
}

/// Where something ends that was read.
pub open spec fn end_of<T>(r: Option<(int, T)>) -> int {
    match r {
        Some((end, _)) => end,
        None => 0,
    }
}

/// What was read.
pub open spec fn read_of<T>(r: Option<(int, T)>) -> T {
    match r {
        Some((_, read)) => read,
        None => arbitrary(),
    }
}

/// Whether a word stands at a place.
pub open spec fn stands_at(s: Seq<u8>, i: int, word: Seq<char>) -> bool {
    0 <= i && i + encode_utf8(word).len() <= s.len() && s.subrange(
        i,
        i + encode_utf8(word).len(),
    ) == encode_utf8(word)
}

/// Whether a character stands at a place.
pub open spec fn char_at(s: Seq<u8>, i: int, c: char) -> bool {
    0 <= i < s.len() && s[i] as char == c
}

/// A field is its comments, its name, a colon and its type.
pub open spec fn is_field(s: Seq<u8>, i: int, j: int, f: FieldView, n: int) -> bool {
    let c = grammar::comments(s, i);
    let colon = grammar::ws(s, n);
    &&& f.comments == c.1
    &&& grammar::field_name(s, c.0) == Some((n, f.name))
    &&& char_at(s, colon, ':')
    &&& grammar::varlink_type(s, grammar::ws(s, colon + 1)) == Some((j, f.ty))
}

/// A field is accepted exactly where its parts are, and it has those parts.
pub proof fn law_fields_have_their_parts(s: Seq<u8>, i: int, j: int, f: FieldView, n: int)
    ensures
        is_field(s, i, j, f, n) ==> grammar::field(s, i) == Some((j, f)),
        grammar::field(s, i) == Some((j, f)) ==> exists|n: int| #[trigger] is_field(s, i, j, f, n),
{
    let c = grammar::comments(s, i);
    if let Some((m, name)) = grammar::field_name(s, c.0) {
        if grammar::field(s, i) == Some((j, f)) {
            assert(is_field(s, i, j, f, m));
        }
    }
}

/// A method is its comments, the word `method`, its name, its inputs, an arrow and its outputs.
pub open spec fn is_method(s: Seq<u8>, i: int, j: int, m: MethodView, k: int, n: int, a: int) -> bool {
    let c = grammar::comments(s, i);
    let arrow = grammar::ws(s, a);
    &&& m.comments == c.1
    &&& grammar::keyword(s, c.0, "method"@) == Some(k)
    &&& grammar::type_ident(s, k) == Some((n, m.name))
    &&& grammar::field_list(s, grammar::ws(s, n)) == Some((a, m.inputs))
    &&& stands_at(s, arrow, "->"@)
    &&& grammar::field_list(s, grammar::ws(s, arrow + encode_utf8("->"@).len())) == Some(
        (j, m.outputs),
    )
}

/// A method is accepted exactly where its parts are, and it has those parts.
pub proof fn law_methods_have_their_parts(
    s: Seq<u8>,
    i: int,
    j: int,
    m: MethodView,
    k: int,
    n: int,
    a: int,
)
    ensures
        is_method(s, i, j, m, k, n, a) ==> grammar::method_def(s, i) == Some((j, m)),
        grammar::method_def(s, i) == Some((j, m)) ==> exists|k: int, n: int, a: int| #[trigger]
            is_method(s, i, j, m, k, n, a),
{
    let c = grammar::comments(s, i);
    if grammar::method_def(s, i) == Some((j, m)) {
        let k = grammar::keyword(s, c.0, "method"@)->0;
        let n = end_of(grammar::type_ident(s, k));
        let a = end_of(grammar::field_list(s, grammar::ws(s, n)));
        assert(is_method(s, i, j, m, k, n, a));
    }
}

/// An error is its comments, the word `error`, its name and its fields.
pub open spec fn is_error(s: Seq<u8>, i: int, j: int, e: ErrorView, k: int, n: int) -> bool {
    let c = grammar::comments(s, i);
    &&& e.comments == c.1
    &&& grammar::keyword(s, c.0, "error"@) == Some(k)
    &&& grammar::type_ident(s, k) == Some((n, e.name))
    &&& grammar::field_list(s, grammar::ws(s, n)) == Some((j, e.fields))
}

/// An error is accepted exactly where its parts are, and it has those parts.
pub proof fn law_errors_have_their_parts(s: Seq<u8>, i: int, j: int, e: ErrorView, k: int, n: int)
    ensures
        is_error(s, i, j, e, k, n) ==> grammar::error_def(s, i) == Some((j, e)),
        grammar::error_def(s, i) == Some((j, e)) ==> exists|k: int, n: int| #[trigger]
            is_error(s, i, j, e, k, n),
{
    let c = grammar::comments(s, i);
    if grammar::error_def(s, i) == Some((j, e)) {
        let k = grammar::keyword(s, c.0, "error"@)->0;
        let n = end_of(grammar::type_ident(s, k));
        assert(is_error(s, i, j, e, k, n));
    }
}

/// The members of a custom type: fields alone make an object, variants alone an enumeration.
pub open spec fn are_members(ms: Seq<MemberView>, members: MembersView) -> bool {
    match members {
        MembersView::Object(fields) => {
            &&& fields.len() == ms.len()
            &&& forall|k: int| 0 <= k < ms.len() ==> #[trigger] ms[k] == MemberView::Field(fields[k])
        },
        MembersView::Enum(variants) => {
            &&& variants.len() == ms.len() > 0
            &&& forall|k: int| 0 <= k < ms.len() ==> #[trigger] ms[k] == MemberView::Variant(
                variants[k],
            )
        },
    }
}

/// A custom type is its comments, the word `type`, its name and its members.
pub open spec fn is_type(
    s: Seq<u8>,
    i: int,
    j: int,
    t: CustomTypeView,
    k: int,
    n: int,
    ms: Seq<MemberView>,
) -> bool {
    let c = grammar::comments(s, i);
    &&& t.comments == c.1
    &&& grammar::keyword(s, c.0, "type"@) == Some(k)
    &&& grammar::type_ident(s, k) == Some((n, t.name))
    &&& grammar::bracketed(s, grammar::ws(s, n), |k: int| grammar::member(s, k)) == Some((j, ms))
    &&& are_members(ms, t.members)
}

proof fn lemma_typed(ms: Seq<MemberView>)
    ensures
        grammar::typed_members(ms).len() + grammar::named_members(ms).len() == ms.len(),
        grammar::named_members(ms).len() == 0 <==> are_members(
            ms,
            MembersView::Object(grammar::typed_members(ms)),
        ),
        ms.len() > 0 ==> (grammar::typed_members(ms).len() == 0 <==> are_members(
            ms,
            MembersView::Enum(grammar::named_members(ms)),
        )),
    decreases ms.len(),
{
    if ms.len() > 0 {
        let before = ms.drop_last();
        lemma_typed(before);
        assert(ms =~= before.push(ms.last()));
        if grammar::named_members(ms).len() == 0 {
            assert forall|k: int| 0 <= k < ms.len() implies #[trigger] ms[k] == MemberView::Field(
                grammar::typed_members(ms)[k],
            ) by {
                if k < before.len() {
                    assert(ms[k] == before[k]);
                }
            }
        }
        if grammar::typed_members(ms).len() == 0 {
            assert forall|k: int| 0 <= k < ms.len() implies #[trigger] ms[k] == MemberView::Variant(
                grammar::named_members(ms)[k],
            ) by {
                if k < before.len() {
                    assert(ms[k] == before[k]);
                    assert(before.len() > 0);
                }
            }
        }
    }
}

/// A custom type is accepted exactly where its parts are, and it has those parts. One that has fields
/// and variants alike is none.
pub proof fn law_custom_types_have_their_parts(
    s: Seq<u8>,
    i: int,
    j: int,
    t: CustomTypeView,
    k: int,
    n: int,
    ms: Seq<MemberView>,
)
    ensures
        is_type(s, i, j, t, k, n, ms) ==> grammar::type_def(s, i) == Some((j, t)),
        grammar::type_def(s, i) == Some((j, t)) ==> exists|k: int, n: int, ms: Seq<MemberView>|
            #[trigger] is_type(s, i, j, t, k, n, ms),
{
    let c = grammar::comments(s, i);
    lemma_typed(ms);
    if is_type(s, i, j, t, k, n, ms) {
        match t.members {
            MembersView::Object(fields) => {
                assert(grammar::typed_members(ms) =~= fields) by {
                    lemma_all_fields(ms, fields);
                }
            },
            MembersView::Enum(variants) => {
                assert(grammar::named_members(ms) =~= variants) by {
                    lemma_all_variants(ms, variants);
                }
            },
        }
    }
    if grammar::type_def(s, i) == Some((j, t)) {
        let k = grammar::keyword(s, c.0, "type"@)->0;
        let n = end_of(grammar::type_ident(s, k));
        let ms = read_of(grammar::bracketed(s, grammar::ws(s, n), |k: int| grammar::member(s, k)));
        lemma_typed(ms);
        assert(is_type(s, i, j, t, k, n, ms));
    }
}

proof fn lemma_all_fields(ms: Seq<MemberView>, fields: Seq<FieldView>)
    requires
        are_members(ms, MembersView::Object(fields)),
    ensures
        grammar::typed_members(ms) == fields,
        grammar::named_members(ms).len() == 0,
    decreases ms.len(),
{
    if ms.len() > 0 {
        let before = ms.drop_last();
        assert forall|k: int| 0 <= k < before.len() implies #[trigger] before[k]
            == MemberView::Field(fields.drop_last()[k]) by {
            assert(before[k] == ms[k]);
        }
        lemma_all_fields(before, fields.drop_last());
        assert(ms[ms.len() - 1] == MemberView::Field(fields[ms.len() - 1]));
        assert(grammar::typed_members(ms) =~= fields);
    } else {
        assert(grammar::typed_members(ms) =~= fields);
    }
}

proof fn lemma_all_variants(ms: Seq<MemberView>, variants: Seq<EnumVariantView>)
    requires
        variants.len() == ms.len(),
        forall|k: int| 0 <= k < ms.len() ==> #[trigger] ms[k] == MemberView::Variant(variants[k]),
    ensures
        grammar::named_members(ms) == variants,
        grammar::typed_members(ms).len() == 0,
    decreases ms.len(),
{
    if ms.len() > 0 {
        let before = ms.drop_last();
        assert forall|k: int| 0 <= k < before.len() implies #[trigger] before[k]
            == MemberView::Variant(variants.drop_last()[k]) by {
            assert(before[k] == ms[k]);
        }
        lemma_all_variants(before, variants.drop_last());
        assert(ms[ms.len() - 1] == MemberView::Variant(variants[ms.len() - 1]));
        assert(grammar::named_members(ms) =~= variants);
    } else {
        assert(grammar::named_members(ms) =~= variants);
    }
}

/// A variant is its comments and its name; a member is a field or, failing that, a variant.
pub proof fn law_variants_have_their_parts(s: Seq<u8>, i: int, j: int, v: EnumVariantView)
    ensures
        grammar::variant(s, i) == Some((j, v)) <==> grammar::comments(s, i).1 == v.comments
            && grammar::field_name(s, grammar::comments(s, i).0) == Some((j, v.name)),
        grammar::field(s, i) matches Some((e, f)) ==> grammar::member(s, i) == Some(
            (e, MemberView::Field(f)),
        ),
        grammar::field(s, i) is None && grammar::variant(s, i) == Some((j, v))
            ==> grammar::member(s, i) == Some((j, MemberView::Variant(v))),
        grammar::field(s, i) is None && grammar::variant(s, i) is None ==> grammar::member(
            s,
            i,
        ) is None,
{
}

/// An optional type is a question mark and a type that is not optional, an array is `[]` and a type, a
/// map is `[string]` and a type.
pub proof fn law_types_are_read_by_their_marks(s: Seq<u8>, i: int)
    requires
        0 <= i < s.len(),
    ensures
        char_at(s, i, '?') && grammar::plain_type(s, i + 1) is Some ==> grammar::varlink_type(s, i)
            == Some(
            (
                end_of(grammar::plain_type(s, i + 1)),
                TypeView::Optional(Box::new(read_of(grammar::plain_type(s, i + 1)))),
            ),
        ),
        !char_at(s, i, '?') ==> grammar::varlink_type(s, i) == grammar::plain_type(s, i),
        stands_at(s, i, "[]"@) && grammar::varlink_type(s, i + encode_utf8("[]"@).len()) is Some
            ==> grammar::plain_type(s, i) == Some(
            (
                end_of(grammar::varlink_type(s, i + encode_utf8("[]"@).len())),
                TypeView::Array(
                    Box::new(read_of(grammar::varlink_type(s, i + encode_utf8("[]"@).len()))),
                ),
            ),
        ),
        !stands_at(s, i, "[]"@) && stands_at(s, i, "[string]"@) && grammar::varlink_type(
            s,
            i + encode_utf8("[string]"@).len(),
        ) is Some ==> grammar::plain_type(s, i) == Some(
            (
                end_of(grammar::varlink_type(s, i + encode_utf8("[string]"@).len())),
                TypeView::Mapping(
                    Box::new(read_of(grammar::varlink_type(s, i + encode_utf8("[string]"@).len()))),
                ),
            ),
        ),
{
    grammar::lemma_words();
    reveal_with_fuel(grammar::varlink_type, 2);
    reveal_with_fuel(grammar::plain_type, 2);
}

/// A type without a mark in front is a primitive type, a custom type, an object or an enumeration: by
/// its word, by its name, and by what is in its brackets.
pub proof fn law_other_types_are_read_by_what_they_hold(s: Seq<u8>, i: int)
    requires
        0 <= i < s.len(),
        !stands_at(s, i, "[]"@),
        !stands_at(s, i, "[string]"@),
    ensures
        grammar::primitive_type(s, i) is Some ==> grammar::plain_type(s, i)
            == grammar::primitive_type(s, i),
        grammar::primitive_type(s, i) is None && grammar::is_upper(s[i]) ==> grammar::plain_type(
            s,
            i,
        ) == Some(
            (
                end_of(grammar::type_ident(s, i)),
                TypeView::Custom(read_of(grammar::type_ident(s, i))),
            ),
        ),
        grammar::primitive_type(s, i) is None && !grammar::is_upper(s[i]) ==> match (
            grammar::field_list(s, i),
            grammar::variant_list(s, i),
        ) {
            (Some((j, fields)), _) => grammar::plain_type(s, i) == Some(
                (j, TypeView::Object(fields)),
            ),
            (None, Some((j, variants))) => grammar::plain_type(s, i) == Some(
                (j, TypeView::Enum(variants)),
            ),
            (None, None) => grammar::plain_type(s, i) is None,
        },
{
    grammar::lemma_words();
    reveal_with_fuel(grammar::plain_type, 2);
}

/// The primitive types are six words.
pub proof fn law_primitive_types_are_words(s: Seq<u8>, i: int)
    ensures
        grammar::primitive_type(s, i) matches Some((j, t)) ==> {
            ||| t is Bool && stands_at(s, i, "bool"@) && j == i + encode_utf8("bool"@).len()
            ||| t is Int && stands_at(s, i, "int"@) && j == i + encode_utf8("int"@).len()
            ||| t is Float && stands_at(s, i, "float"@) && j == i + encode_utf8("float"@).len()
            ||| t is String && stands_at(s, i, "string"@) && j == i + encode_utf8("string"@).len()
            ||| t is ForeignObject && stands_at(s, i, "object"@) && j == i + encode_utf8(
                "object"@,
            ).len()
            ||| t is Any && stands_at(s, i, "any"@) && j == i + encode_utf8("any"@).len()
        },
        grammar::primitive_type(s, i) is None ==> !stands_at(s, i, "bool"@) && !stands_at(
            s,
            i,
            "int"@,
        ) && !stands_at(s, i, "float"@) && !stands_at(s, i, "string"@) && !stands_at(
            s,
            i,
            "object"@,
        ) && !stands_at(s, i, "any"@),
{
}

/// Whether a comma stands between the end of an item and the start of the next.
pub open spec fn comma_between(s: Seq<u8>, end: int, start: int) -> bool {
    let comma = grammar::ws(s, end);
    char_at(s, comma, ',') && start == grammar::skip_space(s, comma + 1)
}

/// Whether items stand one behind the other with a comma between two of them: the item at `k` goes
/// from `from[k]` to `to[k]`.
pub open spec fn are_parted(s: Seq<u8>, from: Seq<int>, to: Seq<int>) -> bool {
    &&& from.len() == to.len()
    &&& forall|k: int|
        0 < k < from.len() ==> comma_between(s, to[k - 1], #[trigger] from[k])
}

/// The fields in round brackets stand one behind the other, with commas between them and white space
/// and comments around these, all of them between the brackets.
pub proof fn law_fields_are_listed_in_brackets(s: Seq<u8>, i: int) -> (r: (Seq<int>, Seq<int>))
    requires
        0 <= i <= s.len(),
        grammar::field_list(s, i) is Some,
    ensures
        ({
            let (j, fs) = grammar::field_list(s, i)->0;
            let (from, to) = r;
            &&& char_at(s, i, '(')
            &&& char_at(s, j - 1, ')')
            &&& from.len() == fs.len()
            &&& are_parted(s, from, to)
            &&& forall|k: int|
                0 <= k < fs.len() ==> grammar::field(s, #[trigger] from[k]) == Some((to[k], fs[k]))
            &&& fs.len() > 0 ==> from[0] == grammar::skip_space(s, i + 1) && j - 1 == grammar::ws(
                s,
                to.last(),
            )
            &&& fs.len() == 0 ==> j - 1 == grammar::ws(s, grammar::skip_space(s, i + 1))
        }),
{
    let p = |k: int| grammar::field(s, k);
    law_fields_are_listed_like_all_items(s, i);
    let (from, to) = law_items_are_listed_in_brackets(s, i, p);
    let fs = (grammar::field_list(s, i)->0).1;
    assert forall|k: int| 0 <= k < fs.len() implies grammar::field(s, #[trigger] from[k]) == Some(
        (to[k], fs[k]),
    ) by {
        assert(p(from[k]) == Some((to[k], fs[k])));
    }
    (from, to)
}

/// Items of any kind in round brackets stand in the same way.
pub proof fn law_items_are_listed_in_brackets<T>(
    s: Seq<u8>,
    i: int,
    p: spec_fn(int) -> Option<(int, T)>,
) -> (r: (Seq<int>, Seq<int>))
    requires
        0 <= i <= s.len(),
        grammar::bracketed(s, i, p) is Some,
    ensures
        ({
            let (j, ts) = grammar::bracketed(s, i, p)->0;
            let (from, to) = r;
            &&& char_at(s, i, '(')
            &&& char_at(s, j - 1, ')')
            &&& from.len() == ts.len()
            &&& are_parted(s, from, to)
            &&& forall|k: int| 0 <= k < ts.len() ==> p(#[trigger] from[k]) == Some((to[k], ts[k]))
            &&& ts.len() > 0 ==> from[0] == grammar::skip_space(s, i + 1) && j - 1 == grammar::ws(
                s,
                to.last(),
            )
            &&& ts.len() == 0 ==> j - 1 == grammar::ws(s, grammar::skip_space(s, i + 1))
        }),
{
    grammar::lemma_span(s, i + 1, Class::Space);
    let a = grammar::skip_space(s, i + 1);
    let ts = grammar::list_of(s, a, p).1;
    match p(a) {
        None => (seq![], seq![]),
        Some((e, f)) => {
            let (from, to) = lemma_more_items(s, e, p);
            let froms = seq![a] + from;
            let tos = seq![e] + to;
            let rest = grammar::more_of(s, e, p).1;
            assert(ts =~= seq![f] + rest);
            lemma_one_more(s, a, e, f, from, to, rest, p);
            (froms, tos)
        },
    }
}

proof fn lemma_one_more<T>(
    s: Seq<u8>,
    a: int,
    e: int,
    f: T,
    from: Seq<int>,
    to: Seq<int>,
    rest: Seq<T>,
    p: spec_fn(int) -> Option<(int, T)>,
)
    requires
        p(a) == Some((e, f)),
        from.len() == rest.len(),
        are_parted(s, from, to),
        forall|k: int| 0 <= k < rest.len() ==> p(#[trigger] from[k]) == Some((to[k], rest[k])),
        rest.len() > 0 ==> char_at(s, grammar::ws(s, e), ',') && from[0] == grammar::skip_space(
            s,
            grammar::ws(s, e) + 1,
        ),
    ensures
        are_parted(s, seq![a] + from, seq![e] + to),
        forall|k: int|
            0 <= k < rest.len() + 1 ==> p(#[trigger] (seq![a] + from)[k]) == Some(
                ((seq![e] + to)[k], (seq![f] + rest)[k]),
            ),
{
    let froms = seq![a] + from;
    let tos = seq![e] + to;
    let ts = seq![f] + rest;
    assert forall|k: int| 0 <= k < ts.len() implies p(#[trigger] froms[k]) == Some(
        (tos[k], ts[k]),
    ) by {
        if k > 0 {
            assert(froms[k] == from[k - 1]);
            assert(tos[k] == to[k - 1]);
            assert(ts[k] == rest[k - 1]);
        }
    }
    assert forall|k: int| 0 < k < froms.len() implies comma_between(
        s,
        tos[k - 1],
        #[trigger] froms[k],
    ) by {
        assert(froms[k] == from[k - 1]);
        if k > 1 {
            assert(tos[k - 1] == to[k - 2]);
        }
    }
    assert(are_parted(s, froms, tos));
}

proof fn lemma_more_items<T>(s: Seq<u8>, i: int, p: spec_fn(int) -> Option<(int, T)>) -> (r: (
    Seq<int>,
    Seq<int>,
))
    ensures
        ({
            let (e, ts) = grammar::more_of(s, i, p);
            let (from, to) = r;
            &&& from.len() == ts.len()
            &&& are_parted(s, from, to)
            &&& forall|k: int| 0 <= k < ts.len() ==> p(#[trigger] from[k]) == Some((to[k], ts[k]))
            &&& ts.len() > 0 ==> char_at(s, grammar::ws(s, i), ',') && from[0]
                == grammar::skip_space(s, grammar::ws(s, i) + 1) && e == to.last()
            &&& ts.len() == 0 ==> e == i
        }),
    decreases s.len() - i,
{
    reveal_with_fuel(grammar::more_of, 2);
    match grammar::separator(s, i) {
        None => (seq![], seq![]),
        Some(a) => match p(a) {
            None => (seq![], seq![]),
            Some((e, f)) => {
                if i < e <= s.len() {
                    let (from, to) = lemma_more_items(s, e, p);
                    let rest = grammar::more_of(s, e, p).1;
                    assert(grammar::more_of(s, i, p).1 =~= seq![f] + rest);
                    lemma_one_more(s, a, e, f, from, to, rest, p);
                    (seq![a] + from, seq![e] + to)
                } else {
                    (seq![a], seq![e])
                }
            },
        },
    }
}

/// The members of an interface are taken in the order in which they stand in the text, each into the
/// list of its kind, as long as the text goes on.
pub proof fn law_members_are_taken_in_order(s: Seq<u8>, i: int, m: MembersOfInterface)
    requires
        0 <= i <= s.len(),
    ensures
        ({
            let a = grammar::skip_space(s, i);
            let all = grammar::interface_members(s, i, m);
            &&& a == s.len() ==> all == (a, m)
            &&& a < s.len() ==> match (
                grammar::type_def(s, a),
                grammar::method_def(s, a),
                grammar::error_def(s, a),
            ) {
                (Some((j, t)), _, _) => i < j <= s.len() ==> all == grammar::interface_members(
                    s,
                    j,
                    MembersOfInterface {
                        custom_types: m.custom_types + seq![t],
                        methods: m.methods,
                        errors: m.errors,
                    },
                ),
                (None, Some((j, t)), _) => i < j <= s.len() ==> all == grammar::interface_members(
                    s,
                    j,
                    MembersOfInterface {
                        custom_types: m.custom_types,
                        methods: m.methods + seq![t],
                        errors: m.errors,
                    },
                ),
                (None, None, Some((j, t))) => i < j <= s.len()
                    ==> all == grammar::interface_members(
                    s,
                    j,
                    MembersOfInterface {
                        custom_types: m.custom_types,
                        methods: m.methods,
                        errors: m.errors + seq![t],
                    },
                ),
                (None, None, None) => all.1 == m,
            }
        }),
{
    grammar::lemma_span(s, i, Class::Space);
    let a = grammar::skip_space(s, i);
    if let Some((j, t)) = grammar::type_def(s, a) {
        assert(m.custom_types.push(t) =~= m.custom_types + seq![t]);
    }
    if let Some((j, t)) = grammar::method_def(s, a) {
        assert(m.methods.push(t) =~= m.methods + seq![t]);
    }
    if let Some((j, t)) = grammar::error_def(s, a) {
        assert(m.errors.push(t) =~= m.errors + seq![t]);
    }
    reveal_with_fuel(grammar::interface_members, 2);
}

/// What is accepted is an interface: its comments, the word `interface`, its name and its members, up
/// to the end of the text but for white space and comments; and it has those parts.
pub proof fn law_accepted_texts_are_interfaces(t: Seq<char>, i: InterfaceView) -> (r: (int, int, int))
    requires
        grammar::interface(t) == Ok::<InterfaceView, Seq<char>>(i),
    ensures
        ({
            let s = encode_utf8(text::trimmed(t));
            let (k, n, j) = r;
            let none = MembersOfInterface {
                methods: seq![],
                custom_types: seq![],
                errors: seq![],
            };
            &&& s.len() > 0
            &&& i.comments == grammar::comments(s, 0).1
            &&& grammar::keyword(s, grammar::comments(s, 0).0, "interface"@) == Some(k)
            &&& grammar::interface_name(s, k) == Some((n, i.name))
            &&& grammar::interface_members(s, n, none) == (
                j,
                MembersOfInterface {
                    methods: i.methods,
                    custom_types: i.custom_types,
                    errors: i.errors,
                },
            )
            &&& grammar::ws(s, j) == s.len()
        }),
{
    let s = encode_utf8(text::trimmed(t));
    let k = grammar::keyword(s, grammar::comments(s, 0).0, "interface"@)->0;
    let n = end_of(grammar::interface_name(s, k));
    let none = MembersOfInterface { methods: seq![], custom_types: seq![], errors: seq![] };
    (k, n, grammar::interface_members(s, n, none).0)
}

/// A text that holds nothing is refused as such.
pub proof fn law_empty_texts_are_refused(t: Seq<char>)
    ensures
        encode_utf8(text::trimmed(t)).len() == 0 ==> grammar::interface(t) == Err::<
            InterfaceView,
            Seq<char>,
        >("Input is empty"@),
{
}

/// A text that does not begin with an interface is refused with the bytes from the first that is not
/// expected: where the word `interface` should stand, behind that word where no white space follows
/// it, or where the name should stand.
pub proof fn law_texts_without_an_interface_are_refused(t: Seq<char>) -> (e: int)
    requires
        ({
            let s = encode_utf8(text::trimmed(t));
            let c = grammar::comments(s, 0).0;
            let k = grammar::keyword(s, c, "interface"@);
            s.len() > 0 && (k is None || grammar::interface_name(s, k->0) is None)
        }),
    ensures
        ({
            let s = encode_utf8(text::trimmed(t));
            let c = grammar::comments(s, 0).0;
            &&& grammar::interface(t) == Err::<InterfaceView, Seq<char>>(
                "Parse error: "@ + ("Parsing Error: InputError { input: ["@ + text::listed(
                    Seq::new(
                        s.subrange(e, s.len() as int).len(),
                        |k: int| text::decimal(s.subrange(e, s.len() as int)[k] as nat),
                    ),
                ) + "] }"@),
            )
            &&& match grammar::keyword(s, c, "interface"@) {
                Some(k) => e == k,
                None => if stands_at(s, c, "interface"@) {
                    e == c + encode_utf8("interface"@).len()
                } else {
                    e == c
                },
            }
        }),
{
    let s = encode_utf8(text::trimmed(t));
    let e = grammar::interface_def(s, 0)->Err_0;
    let rest = s.subrange(e, s.len() as int);
    assert(super::parse::decimals(rest) =~= Seq::new(
        rest.len(),
        |k: int| text::decimal(rest[k] as nat),
    ));
    e
}

/// An interface with something behind it that is no member is refused with what is left there, white
/// space and comments apart.
pub proof fn law_what_stands_behind_is_refused(t: Seq<char>, k: int, n: int, name: Seq<char>)
    requires
        ({
            let s = encode_utf8(text::trimmed(t));
            &&& s.len() > 0
            &&& grammar::keyword(s, grammar::comments(s, 0).0, "interface"@) == Some(k)
            &&& grammar::interface_name(s, k) == Some((n, name))
        }),
    ensures
        ({
            let s = encode_utf8(text::trimmed(t));
            let none = MembersOfInterface {
                methods: seq![],
                custom_types: seq![],
                errors: seq![],
            };
            let w = grammar::ws(s, grammar::interface_members(s, n, none).0);
            &&& grammar::interface(t) is Ok <==> w == s.len()
            &&& w != s.len() && valid_utf8(s.subrange(w, s.len() as int)) ==> grammar::interface(t)
                == Err::<InterfaceView, Seq<char>>(
                "Unexpected remaining input: "@ + text::debug_text(
                    decode_utf8(s.subrange(w, s.len() as int)),
                ),
            )
        }),
{
}

/// Where no member can be read, the text is left from the place on where the reading of an error got
/// stuck: at the word `error` or behind it, at the name, at the bracket, or behind the fields.
pub proof fn law_reading_stops_where_it_got_stuck(s: Seq<u8>, i: int)
    ensures
        ({
            let c = grammar::comments(s, i).0;
            match grammar::keyword(s, c, "error"@) {
                None => {
                    &&& !stands_at(s, c, "error"@) ==> grammar::error_stop(s, i) == c
                    &&& stands_at(s, c, "error"@) ==> grammar::error_stop(s, i) == c + encode_utf8(
                        "error"@,
                    ).len()
                },
                Some(k) => match grammar::type_ident(s, k) {
                    None => grammar::error_stop(s, i) == k,
                    Some((n, _)) => {
                        let b = grammar::ws(s, n);
                        &&& !char_at(s, b, '(') ==> grammar::error_stop(s, i) == b
                        &&& char_at(s, b, '(') ==> grammar::error_stop(s, i) == grammar::ws(
                            s,
                            grammar::fields(s, grammar::skip_space(s, b + 1)).0,
                        )
                    },
                },
            }
        }),
{
}

proof fn lemma_variant_takes(s: Seq<u8>, i: int)
    requires
        0 <= i <= s.len(),
    ensures
        grammar::variant(s, i) matches Some((j, _)) ==> i < j <= s.len(),
{
    grammar::lemma_comments(s, i);
    grammar::lemma_field_name(s, grammar::comments(s, i).0);
}

proof fn lemma_variants_take(s: Seq<u8>, i: int)
    requires
        0 <= i <= s.len(),
    ensures
        grammar::variant_list(s, i) matches Some((j, _)) ==> i < j <= s.len(),
{
    let p = |k: int| grammar::variant(s, k);
    grammar::lemma_span(s, i + 1, Class::Space);
    if let Some(a) = grammar::open_list(s, i) {
        lemma_variant_takes(s, a);
        if let Some((e, _)) = p(a) {
            assert forall|k: int| 0 <= k <= s.len() implies ((#[trigger] p(k)) matches Some((j, _))
                ==> k < j <= s.len()) by {
                lemma_variant_takes(s, k);
            }
            lemma_more_take(s, e, p);
        }
        grammar::lemma_ws(s, grammar::list_of(s, a, p).0);
    }
}

proof fn lemma_more_take<T>(s: Seq<u8>, i: int, p: spec_fn(int) -> Option<(int, T)>)
    requires
        0 <= i <= s.len(),
        forall|k: int|
            0 <= k <= s.len() ==> ((#[trigger] p(k)) matches Some((j, _)) ==> k < j <= s.len()),
    ensures
        i <= grammar::more_of(s, i, p).0 <= s.len(),
    decreases s.len() - i,
{
    grammar::lemma_separator(s, i);
    if let Some(a) = grammar::separator(s, i) {
        if let Some((j, _)) = p(a) {
            lemma_more_take(s, j, p);
        }
    }
}

proof fn lemma_primitives_take(s: Seq<u8>, i: int)
    requires
        0 <= i,
    ensures
        grammar::primitive_type(s, i) matches Some((j, _)) ==> i < j <= s.len(),
{
    reveal_strlit("bool");
    reveal_strlit("int");
    reveal_strlit("float");
    reveal_strlit("string");
    reveal_strlit("object");
    reveal_strlit("any");
    is_ascii_chars_encode_utf8("bool"@);
    is_ascii_chars_encode_utf8("int"@);
    is_ascii_chars_encode_utf8("float"@);
    is_ascii_chars_encode_utf8("string"@);
    is_ascii_chars_encode_utf8("object"@);
    is_ascii_chars_encode_utf8("any"@);
}

proof fn lemma_type_takes(s: Seq<u8>, i: int)
    requires
        0 <= i <= s.len(),
    ensures
        grammar::varlink_type(s, i) matches Some((j, _)) ==> i < j <= s.len(),
    decreases s.len() - i, 3int,
{
    if grammar::byte_at(s, i, '?') {
        lemma_plain_takes(s, i + 1);
    }
    lemma_plain_takes(s, i);
}

proof fn lemma_plain_takes(s: Seq<u8>, i: int)
    requires
        0 <= i <= s.len(),
    ensures
        grammar::plain_type(s, i) matches Some((j, _)) ==> i < j <= s.len(),
    decreases s.len() - i, 2int,
{
    grammar::lemma_words();
    if grammar::word_at(s, i, "[]"@) {
        lemma_type_takes(s, grammar::behind(i, "[]"@));
    }
    if grammar::word_at(s, i, "[string]"@) {
        lemma_type_takes(s, grammar::behind(i, "[string]"@));
    }
    lemma_primitives_take(s, i);
    grammar::lemma_span(s, i + 1, Class::Alnum);
    lemma_list_takes(s, i);
    lemma_variants_take(s, i);
}

proof fn lemma_field_takes(s: Seq<u8>, i: int)
    requires
        0 <= i <= s.len(),
    ensures
        grammar::field(s, i) matches Some((j, _)) ==> i < j <= s.len(),
    decreases s.len() - i, 4int,
{
    let c = grammar::comments(s, i).0;
    grammar::lemma_comments(s, i);
    grammar::lemma_field_name(s, c);
    if let Some((n, _)) = grammar::field_name(s, c) {
        grammar::lemma_colon(s, n);
        if let Some(t) = grammar::colon(s, n) {
            lemma_type_takes(s, t);
        }
    }
}

proof fn lemma_more_fields_take(s: Seq<u8>, i: int)
    requires
        0 <= i <= s.len(),
    ensures
        i <= grammar::more_fields(s, i).0 <= s.len(),
    decreases s.len() - i, 5int,
{
    grammar::lemma_separator(s, i);
    if let Some(a) = grammar::separator(s, i) {
        lemma_field_takes(s, a);
        if let Some((j, _)) = grammar::field(s, a) {
            lemma_more_fields_take(s, j);
        }
    }
}

proof fn lemma_fields_take(s: Seq<u8>, i: int)
    requires
        0 <= i <= s.len(),
    ensures
        i <= grammar::fields(s, i).0 <= s.len(),
    decreases s.len() - i, 6int,
{
    lemma_field_takes(s, i);
    if let Some((j, _)) = grammar::field(s, i) {
        lemma_more_fields_take(s, j);
    }
}

proof fn lemma_list_takes(s: Seq<u8>, i: int)
    requires
        0 <= i <= s.len(),
    ensures
        grammar::field_list(s, i) matches Some((j, _)) ==> i < j <= s.len(),
    decreases s.len() - i, 1int,
{
    grammar::lemma_span(s, i + 1, Class::Space);
    if let Some(a) = grammar::open_list(s, i) {
        lemma_fields_take(s, a);
        grammar::lemma_ws(s, grammar::fields(s, a).0);
    }
}

/// Types, fields and lists take something of the text and stay in it.
pub proof fn law_what_is_read_takes_something(s: Seq<u8>, i: int)
    requires
        0 <= i <= s.len(),
    ensures
        grammar::varlink_type(s, i) matches Some((j, _)) ==> i < j <= s.len(),
        grammar::field(s, i) matches Some((j, _)) ==> i < j <= s.len(),
        grammar::variant(s, i) matches Some((j, _)) ==> i < j <= s.len(),
        grammar::field_list(s, i) matches Some((j, _)) ==> i < j <= s.len(),
        grammar::variant_list(s, i) matches Some((j, _)) ==> i < j <= s.len(),
{
    lemma_type_takes(s, i);
    lemma_field_takes(s, i);
    lemma_variant_takes(s, i);
    lemma_list_takes(s, i);
    lemma_variants_take(s, i);
}

proof fn lemma_rest_of_items<T>(
    s: Seq<u8>,
    from: Seq<int>,
    to: Seq<int>,
    ts: Seq<T>,
    p: spec_fn(int) -> Option<(int, T)>,
    k: int,
)
    requires
        0 <= k < from.len(),
        from.len() == ts.len(),
        are_parted(s, from, to),
        forall|k: int| 0 <= k < ts.len() ==> p(#[trigger] from[k]) == Some((to[k], ts[k])),
        forall|k: int| 0 < k < ts.len() ==> to[k - 1] < #[trigger] to[k] <= s.len(),
        char_at(s, grammar::ws(s, to.last()), ')'),
    ensures
        grammar::more_of(s, to[k], p) == (to.last(), ts.skip(k + 1)),
    decreases from.len() - k,
{
    if k == from.len() - 1 {
        assert(to.last() == to[k]);
        assert(ts.skip(k + 1) =~= seq![]);
        assert(grammar::separator(s, to[k]) is None);
    } else {
        let a = from[k + 1];
        let e = to[k + 1];
        let f = ts[k + 1];
        assert(p(a) == Some((e, f)));
        assert(comma_between(s, to[k], a));
        assert(grammar::separator(s, to[k]) == Some(a));
        lemma_rest_of_items(s, from, to, ts, p, k + 1);
        assert(ts.skip(k + 1) =~= seq![f] + ts.skip(k + 2));
    }
}

/// Wherever items stand in round brackets, with commas between them and white space and comments
/// around these, they are read, all of them and in their order.
pub proof fn law_listed_items_are_read<T>(
    s: Seq<u8>,
    i: int,
    from: Seq<int>,
    to: Seq<int>,
    ts: Seq<T>,
    p: spec_fn(int) -> Option<(int, T)>,
)
    requires
        char_at(s, i, '('),
        from.len() == ts.len() > 0,
        are_parted(s, from, to),
        from[0] == grammar::skip_space(s, i + 1),
        forall|k: int| 0 <= k < ts.len() ==> p(#[trigger] from[k]) == Some((to[k], ts[k])),
        forall|k: int| 0 < k < ts.len() ==> to[k - 1] < #[trigger] to[k] <= s.len(),
        char_at(s, grammar::ws(s, to.last()), ')'),
    ensures
        grammar::bracketed(s, i, p) == Some((grammar::ws(s, to.last()) + 1, ts)),
{
    lemma_rest_of_items(s, from, to, ts, p, 0);
    assert(p(from[0]) == Some((to[0], ts[0])));
    assert(ts =~= seq![ts[0]] + ts.skip(1));
}

proof fn lemma_more_fields_are_items(s: Seq<u8>, i: int)
    requires
        0 <= i <= s.len(),
    ensures
        grammar::more_fields(s, i) == grammar::more_of(s, i, |k: int| grammar::field(s, k)),
    decreases s.len() - i,
{
    let p = |k: int| grammar::field(s, k);
    if let Some(a) = grammar::separator(s, i) {
        assert(p(a) == grammar::field(s, a));
        if let Some((j, f)) = grammar::field(s, a) {
            if i < j <= s.len() {
                lemma_more_fields_are_items(s, j);
            }
        }
    }
}

/// The fields in round brackets are items like all others.
pub proof fn law_fields_are_listed_like_all_items(s: Seq<u8>, i: int)
    requires
        0 <= i <= s.len(),
    ensures
        grammar::field_list(s, i) == grammar::bracketed(s, i, |k: int| grammar::field(s, k)),
{
    let p = |k: int| grammar::field(s, k);
    grammar::lemma_span(s, i + 1, Class::Space);
    if let Some(a) = grammar::open_list(s, i) {
        assert(p(a) == grammar::field(s, a));
        lemma_field_takes(s, a);
        if let Some((j, f)) = grammar::field(s, a) {
            lemma_more_fields_are_items(s, j);
        }
        assert(grammar::fields(s, a) == grammar::list_of(s, a, p));
    }
}

/// Brackets with nothing but white space and comments between them are an empty list.
pub proof fn law_empty_brackets_are_read(s: Seq<u8>, i: int)
    requires
        char_at(s, i, '('),
        grammar::field(s, grammar::skip_space(s, i + 1)) is None,
        char_at(s, grammar::ws(s, grammar::skip_space(s, i + 1)), ')'),
    ensures
        grammar::field_list(s, i) == Some(
            (grammar::ws(s, grammar::skip_space(s, i + 1)) + 1, Seq::<FieldView>::empty()),
        ),
{
    reveal_with_fuel(grammar::fields, 2);
    reveal_with_fuel(grammar::field_list, 2);
}

} // verus!
