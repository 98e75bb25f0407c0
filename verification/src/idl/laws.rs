//! What holds of every interface that the parser gives.

use vstd::prelude::*;
use vstd::utf8::*;

use super::grammar;
use super::grammar::{Class, MemberView, MembersOfInterface};
use super::{
    Comment, CustomType, CustomTypeView, EnumVariant, EnumVariantView, Error, ErrorView, Field,
    FieldView, Interface, InterfaceView, List, MembersView, Method, MethodView, Type, TypeRef,
    TypeView,
};
use crate::text;

verus! {

/// A letter.
pub open spec fn is_letter(c: char) -> bool {
    'A' <= c <= 'Z' || 'a' <= c <= 'z'
}

/// A letter or a digit.
pub open spec fn is_letter_or_digit(c: char) -> bool {
    is_letter(c) || '0' <= c <= '9'
}

/// A letter, then letters, digits and underscores.
pub open spec fn is_field_name(name: Seq<char>) -> bool {
    &&& name.len() > 0
    &&& is_letter(name[0])
    &&& forall|k: int|
        0 <= k < name.len() ==> is_letter_or_digit(#[trigger] name[k]) || name[k] == '_'
}

/// An upper-case letter, then letters and digits.
pub open spec fn is_type_name(name: Seq<char>) -> bool {
    &&& name.len() > 0
    &&& 'A' <= name[0] <= 'Z'
    &&& forall|k: int| 0 <= k < name.len() ==> is_letter_or_digit(#[trigger] name[k])
}

/// A letter, then letters, digits, dashes and at least one dot. In front of every dot, behind it and
/// at the end there is a letter or a digit.
pub open spec fn is_interface_name(name: Seq<char>) -> bool {
    &&& name.len() > 0
    &&& is_letter(name[0])
    &&& forall|k: int|
        0 <= k < name.len() ==> is_letter_or_digit(#[trigger] name[k]) || name[k] == '-' || name[k]
            == '.'
    &&& name.contains('.')
    &&& forall|k: int|
        0 <= k < name.len() && #[trigger] name[k] == '.' ==> 0 < k < name.len() - 1
            && is_letter_or_digit(name[k - 1]) && is_letter_or_digit(name[k + 1])
    &&& is_letter_or_digit(name.last())
}

/// Every variant has a name, and there is at least one.
pub open spec fn variants_well_formed(vs: Seq<EnumVariantView>) -> bool {
    &&& vs.len() > 0
    &&& forall|k: int| 0 <= k < vs.len() ==> is_field_name((#[trigger] vs[k]).name)
}

/// Every name in the type is one, no enum in it is without variants, and nothing in it is optional
/// twice over.
pub open spec fn type_well_formed(t: TypeView) -> bool
    decreases t,
{
    match t {
        TypeView::Custom(name) => is_type_name(name),
        TypeView::Optional(inner) => !(*inner is Optional) && type_well_formed(*inner),
        TypeView::Array(inner) => type_well_formed(*inner),
        TypeView::Mapping(inner) => type_well_formed(*inner),
        TypeView::Enum(vs) => variants_well_formed(vs),
        TypeView::Object(fs) => fields_well_formed(fs),
        _ => true,
    }
}

/// Every field has a name and a well-formed type.
pub open spec fn fields_well_formed(fs: Seq<FieldView>) -> bool
    decreases fs,
{
    forall|k: int|
        #![trigger fs[k]]
        0 <= k < fs.len() ==> field_well_formed(fs[k])
}

/// The field has a name and a well-formed type.
pub open spec fn field_well_formed(f: FieldView) -> bool
    decreases f,
{
    is_field_name(f.name) && type_well_formed(f.ty)
}

/// The method has a name and well-formed parameters.
pub open spec fn method_well_formed(m: MethodView) -> bool {
    is_type_name(m.name) && fields_well_formed(m.inputs) && fields_well_formed(m.outputs)
}

/// The error has a name and well-formed fields.
pub open spec fn error_well_formed(e: ErrorView) -> bool {
    is_type_name(e.name) && fields_well_formed(e.fields)
}

/// The custom type has a name and well-formed members; as an enum it has variants.
pub open spec fn custom_type_well_formed(t: CustomTypeView) -> bool {
    is_type_name(t.name) && match t.members {
        MembersView::Object(fs) => fields_well_formed(fs),
        MembersView::Enum(vs) => variants_well_formed(vs),
    }
}

/// The members are well-formed.
pub open spec fn members_well_formed(m: MembersOfInterface) -> bool {
    &&& forall|k: int| 0 <= k < m.methods.len() ==> #[trigger] method_well_formed(m.methods[k])
    &&& forall|k: int|
        0 <= k < m.custom_types.len() ==> #[trigger] custom_type_well_formed(m.custom_types[k])
    &&& forall|k: int| 0 <= k < m.errors.len() ==> #[trigger] error_well_formed(m.errors[k])
}

/// The interface has a name in reverse domain notation, and its members are well-formed.
pub open spec fn interface_well_formed(i: InterfaceView) -> bool {
    is_interface_name(i.name) && members_well_formed(
        MembersOfInterface {
            methods: i.methods,
            custom_types: i.custom_types,
            errors: i.errors,
        },
    )
}

/// The text of ASCII bytes is those bytes, one by one.
proof fn lemma_ascii_text(s: Seq<u8>, i: int, j: int)
    requires
        0 <= i <= j <= s.len(),
        forall|k: int| i <= k < j ==> #[trigger] s[k] < 0x80,
    ensures
        grammar::text_of(s, i, j).len() == j - i,
        forall|k: int|
            0 <= k < j - i ==> #[trigger] grammar::text_of(s, i, j)[k] == s[i + k] as char,
{
    let bytes = s.subrange(i, j);
    let chars = Seq::new(bytes.len(), |k: int| bytes[k] as char);
    assert(is_ascii_chars(chars));
    is_ascii_chars_encode_utf8(chars);
    assert(encode_utf8(chars) =~= bytes);
    encode_utf8_decode_utf8(chars);
}

proof fn lemma_field_name_well_formed(s: Seq<u8>, i: int)
    ensures
        grammar::field_name(s, i) matches Some((_, name)) ==> is_field_name(name),
{
    if grammar::field_name(s, i) is Some {
        let j = grammar::span(s, i + 1, Class::FieldByte);
        grammar::lemma_span(s, i + 1, Class::FieldByte);
        assert forall|k: int| i + 1 <= k < j implies #[trigger] s[k] < 0x80 by {
            assert(grammar::in_class(s[k], Class::FieldByte));
        }
        lemma_ascii_text(s, i, j);
        let name = grammar::text_of(s, i, j);
        assert forall|k: int| 0 <= k < name.len() implies is_letter_or_digit(#[trigger] name[k])
            || name[k] == '_' by {
            if k > 0 {
                assert(grammar::in_class(s[i + k], Class::FieldByte));
            }
        }
    }
}

proof fn lemma_type_ident_well_formed(s: Seq<u8>, i: int)
    ensures
        grammar::type_ident(s, i) matches Some((_, name)) ==> is_type_name(name),
{
    if grammar::type_ident(s, i) is Some {
        let j = grammar::span(s, i + 1, Class::Alnum);
        grammar::lemma_span(s, i + 1, Class::Alnum);
        assert forall|k: int| i + 1 <= k < j implies #[trigger] s[k] < 0x80 by {
            assert(grammar::in_class(s[k], Class::Alnum));
        }
        lemma_ascii_text(s, i, j);
        let name = grammar::text_of(s, i, j);
        assert forall|k: int| 0 <= k < name.len() implies is_letter_or_digit(
            #[trigger] name[k],
        ) by {
            if k > 0 {
                assert(grammar::in_class(s[i + k], Class::Alnum));
            }
        }
    }
}

/// What an interface name holds.
spec fn is_name_byte(b: u8) -> bool {
    grammar::is_alnum(b) || b as char == '-' || b as char == '.'
}

/// Whether what stands between two positions is made of segments: letters and digits stand around
/// every dot and at the end.
spec fn is_segmented(s: Seq<u8>, i: int, j: int) -> bool {
    &&& i < j <= s.len()
    &&& grammar::is_alnum(s[j - 1])
    &&& forall|k: int| i <= k < j ==> is_name_byte(#[trigger] s[k])
    &&& forall|k: int|
        i <= k < j && #[trigger] s[k] as char == '.' ==> i < k < j - 1 && grammar::is_alnum(
            s[k - 1],
        ) && grammar::is_alnum(s[k + 1])
}

/// Segments behind segments are segments.
proof fn lemma_segments(s: Seq<u8>, i: int, a: int)
    requires
        0 <= i < a <= s.len(),
        is_segmented(s, i, a),
    ensures
        grammar::segments(s, a) matches Some(j) ==> a <= j && is_segmented(s, i, j) && (
        grammar::byte_at(s, a, '.') ==> a < j),
    decreases s.len() - a,
{
    if grammar::byte_at(s, a, '.') && a + 1 < s.len() && grammar::is_alnum(s[a + 1]) {
        let e = grammar::segment_end(s, a + 2);
        grammar::lemma_segment_end(s, a + 2);
        assert forall|k: int| i <= k < e implies is_name_byte(#[trigger] s[k]) by {
            if a + 2 <= k {
                assert(grammar::in_class(s[k], Class::SegmentByte));
            }
        }
        assert forall|k: int| i <= k < e && #[trigger] s[k] as char == '.' implies i < k < e - 1
            && grammar::is_alnum(s[k - 1]) && grammar::is_alnum(s[k + 1]) by {
            if a + 2 <= k {
                assert(grammar::in_class(s[k], Class::SegmentByte));
            }
        }
        lemma_segments(s, i, e);
    }
}

proof fn lemma_interface_name_well_formed(s: Seq<u8>, i: int)
    ensures
        grammar::interface_name(s, i) matches Some((_, name)) ==> is_interface_name(name),
{
    if let Some((j, name)) = grammar::interface_name(s, i) {
        let a = grammar::segment_end(s, i + 1);
        grammar::lemma_segment_end(s, i + 1);
        assert forall|k: int| i <= k < a implies is_name_byte(#[trigger] s[k]) && s[k] as char
            != '.' by {
            if i < k {
                assert(grammar::in_class(s[k], Class::SegmentByte));
            }
        }
        assert(is_segmented(s, i, a));
        lemma_segments(s, i, a);
        assert forall|k: int| i <= k < j implies #[trigger] s[k] < 0x80 by {
            assert(is_name_byte(s[k]));
        }
        lemma_ascii_text(s, i, j);
        assert(name[a - i] == '.');
        assert forall|k: int| 0 <= k < name.len() implies is_letter_or_digit(#[trigger] name[k])
            || name[k] == '-' || name[k] == '.' by {
            assert(is_name_byte(s[i + k]));
        }
        assert forall|k: int| 0 <= k < name.len() && #[trigger] name[k] == '.' implies 0 < k
            < name.len() - 1 && is_letter_or_digit(name[k - 1]) && is_letter_or_digit(
            name[k + 1],
        ) by {
            assert(s[i + k] as char == '.');
            assert(name[k - 1] == s[i + (k - 1)] as char);
            assert(name[k + 1] == s[i + (k + 1)] as char);
        }
        assert(name[j - i - 1] == s[i + (j - i - 1)] as char);
    }
}

/// Where every member that the production gives is good, those of a list are.
proof fn lemma_more_of<T>(
    s: Seq<u8>,
    i: int,
    p: spec_fn(int) -> Option<(int, T)>,
    good: spec_fn(T) -> bool,
)
    requires
        forall|k: int| (#[trigger] p(k)) is Some ==> good((p(k)->0).1),
    ensures
        forall|k: int|
            0 <= k < grammar::more_of(s, i, p).1.len() ==> good(
                #[trigger] grammar::more_of(s, i, p).1[k],
            ),
    decreases s.len() - i,
{
    if let Some(a) = grammar::separator(s, i) {
        if let Some((j, m)) = p(a) {
            assert(good(m));
            if i < j <= s.len() {
                lemma_more_of(s, j, p, good);
                let all = grammar::more_of(s, i, p).1;
                assert forall|k: int| 0 <= k < all.len() implies good(#[trigger] all[k]) by {
                    if k > 0 {
                        assert(all[k] == grammar::more_of(s, j, p).1[k - 1]);
                    }
                }
            }
        }
    }
}

proof fn lemma_bracketed<T>(
    s: Seq<u8>,
    i: int,
    p: spec_fn(int) -> Option<(int, T)>,
    good: spec_fn(T) -> bool,
)
    requires
        forall|k: int| (#[trigger] p(k)) is Some ==> good((p(k)->0).1),
    ensures
        grammar::bracketed(s, i, p) matches Some((_, ms)) ==> forall|k: int|
            0 <= k < ms.len() ==> good(#[trigger] ms[k]),
{
    if let Some(a) = grammar::open_list(s, i) {
        if let Some((j, m)) = p(a) {
            lemma_more_of(s, j, p, good);
        }
    }
}

proof fn lemma_variants_well_formed(s: Seq<u8>, i: int)
    ensures
        grammar::field_list(s, i) is None ==> (grammar::variant_list(s, i) matches Some((_, vs))
            ==> variants_well_formed(vs)),
{
    let p = |k: int| grammar::variant(s, k);
    let good = |v: EnumVariantView| is_field_name(v.name);
    assert forall|k: int| (#[trigger] p(k)) is Some implies good((p(k)->0).1) by {
        lemma_field_name_well_formed(s, grammar::comments(s, k).0);
    }
    lemma_bracketed(s, i, p, good);
    if let Some((_, vs)) = grammar::variant_list(s, i) {
        assert forall|k: int| 0 <= k < vs.len() implies is_field_name((#[trigger] vs[k]).name) by {
            assert(good(vs[k]));
        }
        let a = grammar::open_list(s, i)->0;
        if vs.len() == 0 {
            assert(p(a) is None);
            assert(grammar::fields(s, a) == (a, Seq::<FieldView>::empty()));
        }
    }
}

proof fn lemma_varlink_type_well_formed(s: Seq<u8>, i: int)
    ensures
        grammar::varlink_type(s, i) matches Some((_, t)) ==> type_well_formed(t),
    decreases s.len() - i, 3int,
{
    if grammar::byte_at(s, i, '?') {
        lemma_plain_type_well_formed(s, i + 1);
    }
    lemma_plain_type_well_formed(s, i);
}

proof fn lemma_plain_type_well_formed(s: Seq<u8>, i: int)
    ensures
        grammar::plain_type(s, i) matches Some((_, t)) ==> type_well_formed(t) && !(t is Optional),
    decreases s.len() - i, 2int,
{
    grammar::lemma_words();
    if grammar::word_at(s, i, "[]"@) {
        lemma_varlink_type_well_formed(s, grammar::behind(i, "[]"@));
    }
    if grammar::word_at(s, i, "[string]"@) {
        lemma_varlink_type_well_formed(s, grammar::behind(i, "[string]"@));
    }
    lemma_type_ident_well_formed(s, i);
    lemma_field_list_well_formed(s, i);
    lemma_variants_well_formed(s, i);
}

proof fn lemma_field_well_formed(s: Seq<u8>, i: int)
    ensures
        grammar::field(s, i) matches Some((_, f)) ==> field_well_formed(f),
    decreases s.len() - i, 4int,
{
    let c = grammar::comments(s, i).0;
    lemma_field_name_well_formed(s, c);
    if let Some((n, _)) = grammar::field_name(s, c) {
        if let Some(t) = grammar::colon(s, n) {
            grammar::lemma_comments(s, i);
            grammar::lemma_field_name(s, c);
            grammar::lemma_colon(s, n);
            lemma_varlink_type_well_formed(s, t);
        }
    }
}

proof fn lemma_more_fields_well_formed(s: Seq<u8>, i: int)
    ensures
        fields_well_formed(grammar::more_fields(s, i).1),
    decreases s.len() - i, 5int,
{
    if let Some(a) = grammar::separator(s, i) {
        grammar::lemma_separator(s, i);
        lemma_field_well_formed(s, a);
        if let Some((j, f)) = grammar::field(s, a) {
            if i < j <= s.len() {
                lemma_more_fields_well_formed(s, j);
            }
        }
    }
}

proof fn lemma_fields_well_formed(s: Seq<u8>, i: int)
    ensures
        fields_well_formed(grammar::fields(s, i).1),
    decreases s.len() - i, 6int,
{
    lemma_field_well_formed(s, i);
    if let Some((j, f)) = grammar::field(s, i) {
        if i < j <= s.len() {
            lemma_more_fields_well_formed(s, j);
        }
    }
}

proof fn lemma_field_list_well_formed(s: Seq<u8>, i: int)
    ensures
        grammar::field_list(s, i) matches Some((_, fs)) ==> fields_well_formed(fs),
    decreases s.len() - i, 1int,
{
    if let Some(a) = grammar::open_list(s, i) {
        grammar::lemma_span(s, i + 1, Class::Space);
        lemma_fields_well_formed(s, a);
    }
}

/// The member has a name and, where it is typed, a well-formed type.
spec fn member_well_formed(m: MemberView) -> bool {
    match m {
        MemberView::Field(f) => field_well_formed(f),
        MemberView::Variant(v) => is_field_name(v.name),
    }
}

proof fn lemma_sorted_members_well_formed(ms: Seq<MemberView>)
    requires
        forall|k: int| 0 <= k < ms.len() ==> member_well_formed(#[trigger] ms[k]),
    ensures
        fields_well_formed(grammar::typed_members(ms)),
        forall|k: int|
            0 <= k < grammar::named_members(ms).len() ==> is_field_name(
                (#[trigger] grammar::named_members(ms)[k]).name,
            ),
    decreases ms.len(),
{
    if ms.len() > 0 {
        lemma_sorted_members_well_formed(ms.drop_last());
        assert(member_well_formed(ms.last()));
        let named = grammar::named_members(ms);
        let before = grammar::named_members(ms.drop_last());
        assert forall|k: int| 0 <= k < named.len() implies is_field_name(
            (#[trigger] named[k]).name,
        ) by {
            if k < before.len() {
                assert(named[k] == before[k]);
            }
        }
    }
}

proof fn lemma_type_def_well_formed(s: Seq<u8>, i: int)
    ensures
        grammar::type_def(s, i) matches Some((_, t)) ==> custom_type_well_formed(t),
{
    let c = grammar::comments(s, i).0;
    if let Some(k) = grammar::keyword(s, c, "type"@) {
        lemma_type_ident_well_formed(s, k);
        if let Some((n, _)) = grammar::type_ident(s, k) {
            let p = |k: int| grammar::member(s, k);
            let good = |m: MemberView| member_well_formed(m);
            assert forall|k: int| (#[trigger] p(k)) is Some implies good((p(k)->0).1) by {
                lemma_field_well_formed(s, k);
                lemma_field_name_well_formed(s, grammar::comments(s, k).0);
            }
            lemma_bracketed(s, grammar::ws(s, n), p, good);
            if let Some((_, ms)) = grammar::bracketed(s, grammar::ws(s, n), p) {
                assert forall|k: int| 0 <= k < ms.len() implies member_well_formed(
                    #[trigger] ms[k],
                ) by {
                    assert(good(ms[k]));
                }
                lemma_sorted_members_well_formed(ms);
            }
        }
    }
}

proof fn lemma_method_def_well_formed(s: Seq<u8>, i: int)
    ensures
        grammar::method_def(s, i) matches Some((_, m)) ==> method_well_formed(m),
{
    let c = grammar::comments(s, i).0;
    if let Some(k) = grammar::keyword(s, c, "method"@) {
        lemma_type_ident_well_formed(s, k);
        if let Some((n, _)) = grammar::type_ident(s, k) {
            lemma_field_list_well_formed(s, grammar::ws(s, n));
            if let Some((a, _)) = grammar::field_list(s, grammar::ws(s, n)) {
                let w = grammar::ws(s, a);
                lemma_field_list_well_formed(s, grammar::ws(s, grammar::behind(w, "->"@)));
            }
        }
    }
}

proof fn lemma_error_def_well_formed(s: Seq<u8>, i: int)
    ensures
        grammar::error_def(s, i) matches Some((_, e)) ==> error_well_formed(e),
{
    let c = grammar::comments(s, i).0;
    if let Some(k) = grammar::keyword(s, c, "error"@) {
        lemma_type_ident_well_formed(s, k);
        if let Some((n, _)) = grammar::type_ident(s, k) {
            lemma_field_list_well_formed(s, grammar::ws(s, n));
        }
    }
}

proof fn lemma_interface_members_well_formed(s: Seq<u8>, i: int, m: MembersOfInterface)
    requires
        members_well_formed(m),
    ensures
        members_well_formed(grammar::interface_members(s, i, m).1),
    decreases s.len() - i,
{
    let a = grammar::skip_space(s, i);
    if a < s.len() {
        lemma_type_def_well_formed(s, a);
        lemma_method_def_well_formed(s, a);
        lemma_error_def_well_formed(s, a);
        if let Some((j, t)) = grammar::type_def(s, a) {
            if i < j <= s.len() {
                let m = MembersOfInterface { custom_types: m.custom_types.push(t), ..m };
                lemma_interface_members_well_formed(s, j, m);
            }
        } else if let Some((j, t)) = grammar::method_def(s, a) {
            if i < j <= s.len() {
                let m = MembersOfInterface { methods: m.methods.push(t), ..m };
                lemma_interface_members_well_formed(s, j, m);
            }
        } else if let Some((j, t)) = grammar::error_def(s, a) {
            if i < j <= s.len() {
                let m = MembersOfInterface { errors: m.errors.push(t), ..m };
                lemma_interface_members_well_formed(s, j, m);
            }
        }
    }
}

/// Every interface that the parser gives is well-formed: it is named in reverse domain notation,
/// every method, error and type has a name of the right form, and no enum, inline or custom, is
/// without variants.
pub proof fn law_parsed_interfaces_are_well_formed(t: Seq<char>)
    ensures
        grammar::interface(t) matches Ok(i) ==> interface_well_formed(i),
{
    let s = encode_utf8(text::trimmed(t));
    let c = grammar::comments(s, 0).0;
    if let Some(k) = grammar::keyword(s, c, "interface"@) {
        lemma_interface_name_well_formed(s, k);
        if let Some((n, _)) = grammar::interface_name(s, k) {
            let none = MembersOfInterface { methods: seq![], custom_types: seq![], errors: seq![] };
            lemma_interface_members_well_formed(s, n, none);
        }
    }
}

/// White space around a description changes nothing.
pub proof fn law_outer_white_space_does_not_count(w: Seq<char>, t: Seq<char>, v: Seq<char>)
    requires
        text::is_blank(w),
        text::is_blank(v),
    ensures
        grammar::interface(w + t + v) == grammar::interface(t),
{
    text::lemma_trimmed_around(w, t, v);
}

/// Every `\r` is followed by `\n`.
pub open spec fn no_lone_return(s: Seq<u8>) -> bool {
    forall|k: int| #[trigger] grammar::byte_at(s, k, '\r') ==> grammar::byte_at(s, k + 1, '\n')
}

/// Comments end where what stands between tokens does, or there are none.
proof fn lemma_comments_end(s: Seq<u8>, i: int)
    requires
        0 <= i <= s.len(),
        no_lone_return(s),
    ensures
        ({
            let a = grammar::skip_space(s, i);
            if a == s.len() || grammar::byte_at(s, a, '#') {
                grammar::comments(s, i).0 == grammar::ws(s, i)
            } else {
                grammar::comments(s, i).0 == i
            }
        }),
    decreases s.len() - i,
{
    let a = grammar::skip_space(s, i);
    grammar::lemma_span(s, i, Class::Space);
    if grammar::byte_at(s, a, '#') {
        let b = grammar::span(s, a + 1, Class::Blank);
        let e = grammar::span(s, b, Class::Line);
        let c = grammar::span(s, a + 1, Class::Comment);
        let n = grammar::skip_space(s, e);
        grammar::lemma_span(s, a + 1, Class::Blank);
        grammar::lemma_span(s, b, Class::Line);
        grammar::lemma_span(s, a + 1, Class::Comment);
        grammar::lemma_span(s, e, Class::Space);
        assert forall|k: int| a < k < e implies grammar::in_class(#[trigger] s[k], Class::Line) by {
            if k < b {
                assert(grammar::in_class(s[k], Class::Blank));
            }
        }
        if c < s.len() {
            assert(c <= e) by {
                if e < c {
                    assert(grammar::in_class(s[e], Class::Comment));
                }
            }
            if grammar::byte_at(s, c, '\r') {
                assert(grammar::byte_at(s, c + 1, '\n'));
                assert(e == c + 1) by {
                    if e > c + 1 {
                        assert(grammar::in_class(s[c + 1], Class::Line));
                    }
                    if e == c {
                        assert(grammar::in_class(s[c], Class::Line));
                    }
                }
                assert(grammar::comment_end(s, a + 1) == c + 2);
            } else {
                assert(e == c) by {
                    if c < e {
                        assert(grammar::in_class(s[c], Class::Line));
                    }
                }
                assert(grammar::comment_end(s, a + 1) == c + 1);
            }
            assert(grammar::skip_space(s, e) == grammar::skip_space(s, e + 1));
        } else {
            assert(e == s.len()) by {
                if e < s.len() {
                    assert(grammar::in_class(s[e], Class::Comment));
                }
            }
        }
        let z = grammar::comment_end(s, a + 1);
        assert(n == grammar::skip_space(s, z));
        grammar::lemma_skip_twice(s, z);
        grammar::lemma_skip_twice(s, e);
        lemma_comments_end(s, n);
        assert(grammar::ws(s, i) == grammar::ws(s, z));
        assert(grammar::ws(s, n) == grammar::ws(s, z));
        assert(grammar::comments(s, n).0 == grammar::ws(s, n));
    }
}

/// Brackets with nothing but white space and comments between them are a struct without fields,
/// as an inline type and as the body of a custom type.
pub proof fn law_empty_body_is_a_struct(s: Seq<u8>, i: int)
    requires
        no_lone_return(s),
        grammar::open_list(s, i) matches Some(a) && grammar::close_list(s, a) is Some,
    ensures
        ({
            let j = grammar::close_list(s, grammar::open_list(s, i)->0)->0;
            &&& grammar::varlink_type(s, i) == Some((j, TypeView::Object(seq![])))
            &&& grammar::bracketed(s, i, |k: int| grammar::member(s, k)) == Some(
                (j, Seq::<MemberView>::empty()),
            )
        }),
{
    let a = grammar::open_list(s, i)->0;
    grammar::lemma_span(s, i + 1, Class::Space);
    grammar::lemma_skip_twice(s, i + 1);
    lemma_comments_end(s, a);
    assert(grammar::field_name(s, grammar::comments(s, a).0) is None);
    assert(grammar::fields(s, a) == (a, Seq::<FieldView>::empty()));
    lemma_no_word_at_bracket(s, i);
    assert(grammar::field_list(s, i) is Some);
    assert(grammar::plain_type(s, i) is Some);
    let p = |k: int| grammar::member(s, k);
    assert(p(a) is None);
    assert(grammar::list_of(s, a, p) == (a, Seq::<MemberView>::empty()));
}

/// No word of a type starts with a bracket.
pub proof fn lemma_no_word_at_bracket(s: Seq<u8>, i: int)
    requires
        grammar::byte_at(s, i, '('),
    ensures
        !grammar::word_at(s, i, "[]"@),
        !grammar::word_at(s, i, "[string]"@),
        grammar::primitive_type(s, i) is None,
        grammar::type_ident(s, i) is None,
{
    reveal_strlit("[]");
    reveal_strlit("[string]");
    reveal_strlit("bool");
    reveal_strlit("int");
    reveal_strlit("float");
    reveal_strlit("string");
    reveal_strlit("object");
    reveal_strlit("any");
    lemma_word_start(s, i, "[]"@);
    lemma_word_start(s, i, "[string]"@);
    lemma_word_start(s, i, "bool"@);
    lemma_word_start(s, i, "int"@);
    lemma_word_start(s, i, "float"@);
    lemma_word_start(s, i, "string"@);
    lemma_word_start(s, i, "object"@);
    lemma_word_start(s, i, "any"@);
}

/// A word starts with its first character.
proof fn lemma_word_start(s: Seq<u8>, i: int, word: Seq<char>)
    requires
        word.len() > 0,
        is_ascii_chars(word),
    ensures
        grammar::word_at(s, i, word) ==> s[i] as char == word[0],
{
    is_ascii_chars_encode_utf8(word);
    if grammar::word_at(s, i, word) {
        assert(s.subrange(i, i + encode_utf8(word).len())[0] == encode_utf8(word)[0]);
    }
}

/// Whether texts are what comments say, one by one.
pub open spec fn are_comments(shown: Seq<Seq<char>>, comments: List<Comment<'_>>) -> bool {
    &&& shown.len() == comments.items@.len()
    &&& forall|k: int|
        0 <= k < shown.len() ==> #[trigger] shown[k] == comments.items@[k].content@
}

/// Whether fields are shown one by one.
pub open spec fn are_fields(shown: Seq<FieldView>, fields: List<Field<'_>>) -> bool {
    &&& shown.len() == fields.items@.len()
    &&& forall|k: int| 0 <= k < shown.len() ==> #[trigger] shown[k] == fields.items@[k]@
}

/// Whether the variants of an enumeration are shown one by one.
pub open spec fn are_variants(shown: Seq<EnumVariantView>, variants: List<EnumVariant<'_>>) -> bool {
    &&& shown.len() == variants.items@.len()
    &&& forall|k: int| 0 <= k < shown.len() ==> #[trigger] shown[k] == variants.items@[k]@
}

/// The models of fields, variants and types show what these hold, part by part.
pub proof fn law_models_of_types_show_their_parts(
    field: Field<'_>,
    variant: EnumVariant<'_>,
    t: Type<'_>,
    r: TypeRef<'_>,
)
    ensures
        field@.name == field.name@,
        field@.ty == field.ty@,
        are_comments(field@.comments, field.comments),
        variant@.name == variant.name@,
        are_comments(variant@.comments, variant.comments),
        r matches TypeRef::Borrowed(inner) ==> r@ == inner@,
        r matches TypeRef::Owned(inner) ==> r@ == inner@,
        t is Bool <==> t@ is Bool,
        t is Int <==> t@ is Int,
        t is Float <==> t@ is Float,
        t is String <==> t@ is String,
        t is ForeignObject <==> t@ is ForeignObject,
        t is Any <==> t@ is Any,
        t is Enum <==> t@ is Enum,
        t is Object <==> t@ is Object,
        t matches Type::Custom(name) ==> t@ == TypeView::Custom(name@),
        t matches Type::Optional(inner) ==> t@ == TypeView::Optional(Box::new(inner@)),
        t matches Type::Array(inner) ==> t@ == TypeView::Array(Box::new(inner@)),
        t matches Type::Mapping(inner) ==> t@ == TypeView::Mapping(Box::new(inner@)),
        t matches Type::Enum(variants) ==> are_variants(t@->Enum_0, variants),
        t matches Type::Object(fields) ==> are_fields(t@->Object_0, fields),
{
    reveal_with_fuel(super::type_view, 2);
    reveal_with_fuel(super::ref_view, 2);
    reveal_with_fuel(super::fields_view, 2);
    reveal_with_fuel(super::field_view, 2);
}

/// The models of methods, errors, custom types and interfaces show what these hold, part by part.
pub proof fn law_models_of_members_show_their_parts(
    method: Method<'_>,
    error: Error<'_>,
    custom: CustomType<'_>,
    interface: Interface<'_>,
)
    ensures
        method@.name == method.name@,
        are_fields(method@.inputs, method.inputs),
        are_fields(method@.outputs, method.outputs),
        are_comments(method@.comments, method.comments),
        error@.name == error.name@,
        are_fields(error@.fields, error.fields),
        are_comments(error@.comments, error.comments),
        custom matches CustomType::Object(o) ==> {
            &&& custom@.name == o.name@
            &&& custom@.members matches MembersView::Object(shown) && are_fields(shown, o.fields)
            &&& are_comments(custom@.comments, o.comments)
        },
        custom matches CustomType::Enum(e) ==> {
            &&& custom@.name == e.name@
            &&& custom@.members matches MembersView::Enum(shown) && are_variants(shown, e.variants)
            &&& are_comments(custom@.comments, e.comments)
        },
        interface@.name == interface.name@,
        are_comments(interface@.comments, interface.comments),
        interface@.methods.len() == interface.methods.items@.len(),
        interface@.custom_types.len() == interface.custom_types.items@.len(),
        interface@.errors.len() == interface.errors.items@.len(),
        forall|k: int|
            0 <= k < interface@.methods.len() ==> #[trigger] interface@.methods[k]
                == interface.methods.items@[k]@,
        forall|k: int|
            0 <= k < interface@.custom_types.len() ==> #[trigger] interface@.custom_types[k]
                == interface.custom_types.items@[k]@,
        forall|k: int|
            0 <= k < interface@.errors.len() ==> #[trigger] interface@.errors[k]
                == interface.errors.items@[k]@,
{
    reveal_with_fuel(super::fields_view, 2);
}

} // verus!
