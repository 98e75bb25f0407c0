//! Where characters start: every production stops where one does.

use vstd::prelude::*;
use vstd::utf8::*;

use super::grammar;
use super::grammar::{Class, MembersOfInterface};
use crate::text;

verus! {

/// A character starts behind each ASCII byte.
pub proof fn lemma_boundary_behind(s: Seq<u8>, k: int)
    requires
        valid_utf8(s),
        0 <= k < s.len(),
        s[k] < 0x80,
    ensures
        is_char_boundary(s, k + 1),
{
    is_char_boundary_start_end_of_seq(s);
    if k + 1 < s.len() {
        let b = s[k];
        assert(!is_continuation_byte(b)) by (bit_vector)
            requires
                b < 0x80u8,
        ;
        is_char_boundary_iff_not_is_continuation_byte(s, k);
        valid_utf8_split(s, k);
        let t = s.subrange(k, s.len() as int);
        assert(t[0] == b);
        assert(pop_first_scalar(t)[0] == s[k + 1]);
        assert(is_leading_byte_width_1(b)) by (bit_vector)
            requires
                b < 0x80u8,
        ;
        assert(valid_utf8(pop_first_scalar(t)));
        assert(valid_first_scalar(pop_first_scalar(t)));
        let c = s[k + 1];
        assert(is_leading_byte_width_1(c) || is_leading_byte_width_2(c) || is_leading_byte_width_3(c)
            || is_leading_byte_width_4(c));
        assert(!is_continuation_byte(c)) by (bit_vector)
            requires
                is_leading_byte_width_1(c) || is_leading_byte_width_2(c) || is_leading_byte_width_3(
                    c,
                ) || is_leading_byte_width_4(c),
        ;
        is_char_boundary_iff_not_is_continuation_byte(s, k + 1);
    }
}

/// Where a character starts at `i` and the text ends or an ASCII byte stands at `j`, what stands
/// between them is text.
pub proof fn lemma_text_between(s: Seq<u8>, i: int, j: int)
    requires
        valid_utf8(s),
        0 <= i <= j <= s.len(),
        is_char_boundary(s, i),
        j < s.len() ==> s[j] < 0x80,
    ensures
        valid_utf8(s.subrange(i, j)),
{
    valid_utf8_split(s, i);
    let t = s.subrange(i, s.len() as int);
    if j < s.len() {
        let b = s[j];
        assert(!is_continuation_byte(b)) by (bit_vector)
            requires
                b < 0x80u8,
        ;
        assert(t[j - i] == b);
        is_char_boundary_iff_not_is_continuation_byte(t, j - i);
        valid_utf8_split(t, j - i);
        assert(t.subrange(0, j - i) =~= s.subrange(i, j));
    }
}

/// Whether a position is in the text, or at its end, and a character starts there.
pub open spec fn starts(s: Seq<u8>, i: int) -> bool {
    0 <= i <= s.len() && is_char_boundary(s, i)
}

/// A character starts at each ASCII byte.
proof fn lemma_boundary_at(s: Seq<u8>, k: int)
    requires
        valid_utf8(s),
        0 <= k < s.len(),
        s[k] < 0x80,
    ensures
        is_char_boundary(s, k),
{
    let b = s[k];
    assert(!is_continuation_byte(b)) by (bit_vector)
        requires
            b < 0x80u8,
    ;
    is_char_boundary_iff_not_is_continuation_byte(s, k);
}

proof fn lemma_span_stops(s: Seq<u8>, i: int, class: Class)
    requires
        valid_utf8(s),
        starts(s, i),
    ensures
        starts(s, grammar::span(s, i, class)),
{
    let e = grammar::span(s, i, class);
    grammar::lemma_span(s, i, class);
    is_char_boundary_start_end_of_seq(s);
    if i < e < s.len() {
        if class is Line || class is Comment {
            assert(!grammar::in_class(s[e], class));
            lemma_boundary_at(s, e);
        } else {
            assert(grammar::in_class(s[e - 1], class));
            lemma_boundary_behind(s, e - 1);
        }
    }
}

proof fn lemma_byte_stops(s: Seq<u8>, i: int, c: char)
    requires
        valid_utf8(s),
        grammar::byte_at(s, i, c),
        c <= '\u{7f}',
    ensures
        starts(s, i),
        starts(s, i + 1),
{
    lemma_boundary_at(s, i);
    lemma_boundary_behind(s, i);
}

proof fn lemma_word_stops(s: Seq<u8>, i: int, word: Seq<char>)
    requires
        valid_utf8(s),
        is_ascii_chars(word),
        word.len() > 0,
    ensures
        grammar::word_at(s, i, word) ==> starts(s, grammar::behind(i, word)),
{
    is_ascii_chars_encode_utf8(word);
    if grammar::word_at(s, i, word) {
        let bytes = encode_utf8(word);
        let e = grammar::behind(i, word);
        assert(s.subrange(i, i + bytes.len())[bytes.len() - 1] == bytes[bytes.len() - 1]);
        lemma_boundary_behind(s, e - 1);
    }
}

proof fn lemma_ws_stops(s: Seq<u8>, i: int)
    requires
        valid_utf8(s),
        starts(s, i),
    ensures
        starts(s, grammar::ws(s, i)),
    decreases s.len() - i,
{
    let a = grammar::skip_space(s, i);
    lemma_span_stops(s, i, Class::Space);
    grammar::lemma_span(s, i, Class::Space);
    if grammar::byte_at(s, a, '#') {
        lemma_byte_stops(s, a, '#');
        let e = grammar::span(s, a + 1, Class::Comment);
        lemma_span_stops(s, a + 1, Class::Comment);
        grammar::lemma_span(s, a + 1, Class::Comment);
        if e < s.len() {
            assert(!grammar::in_class(s[e], Class::Comment));
            lemma_boundary_behind(s, e);
            if grammar::byte_at(s, e + 1, '\n') {
                lemma_byte_stops(s, e + 1, '\n');
            }
        }
        lemma_ws_stops(s, grammar::comment_end(s, a + 1));
    }
}

proof fn lemma_comments_stop(s: Seq<u8>, i: int)
    requires
        valid_utf8(s),
        starts(s, i),
    ensures
        starts(s, grammar::comments(s, i).0),
    decreases s.len() - i,
{
    let a = grammar::skip_space(s, i);
    lemma_span_stops(s, i, Class::Space);
    grammar::lemma_span(s, i, Class::Space);
    if grammar::byte_at(s, a, '#') {
        lemma_byte_stops(s, a, '#');
        let b = grammar::span(s, a + 1, Class::Blank);
        let e = grammar::span(s, b, Class::Line);
        lemma_span_stops(s, a + 1, Class::Blank);
        lemma_span_stops(s, b, Class::Line);
        lemma_span_stops(s, e, Class::Space);
        grammar::lemma_span(s, a + 1, Class::Blank);
        grammar::lemma_span(s, b, Class::Line);
        grammar::lemma_span(s, e, Class::Space);
        lemma_comments_stop(s, grammar::skip_space(s, e));
    }
}

proof fn lemma_keyword_stops(s: Seq<u8>, i: int, word: Seq<char>)
    requires
        valid_utf8(s),
        is_ascii_chars(word),
        word.len() > 0,
    ensures
        grammar::keyword(s, i, word) matches Some(j) ==> starts(s, j),
        grammar::word_at(s, i, word) ==> starts(s, grammar::behind(i, word)),
{
    lemma_word_stops(s, i, word);
    if grammar::word_at(s, i, word) {
        lemma_span_stops(s, grammar::behind(i, word), Class::KeywordSpace);
    }
}

proof fn lemma_names_stop(s: Seq<u8>, i: int)
    requires
        valid_utf8(s),
    ensures
        grammar::field_name(s, i) matches Some((j, _)) ==> starts(s, j),
        grammar::type_ident(s, i) matches Some((j, _)) ==> starts(s, j),
{
    if 0 <= i < s.len() && grammar::is_alpha(s[i]) {
        lemma_boundary_behind(s, i);
        lemma_span_stops(s, i + 1, Class::FieldByte);
        lemma_span_stops(s, i + 1, Class::Alnum);
    }
}

proof fn lemma_segment_stops(s: Seq<u8>, i: int)
    requires
        valid_utf8(s),
        starts(s, i),
    ensures
        starts(s, grammar::segment_end(s, i)),
{
    let e = grammar::segment_end(s, i);
    grammar::lemma_segment_end(s, i);
    if i < e {
        lemma_boundary_behind(s, e - 1);
    }
}

proof fn lemma_segments_stop(s: Seq<u8>, i: int)
    requires
        valid_utf8(s),
        starts(s, i),
    ensures
        grammar::segments(s, i) matches Some(j) ==> starts(s, j),
    decreases s.len() - i,
{
    if grammar::byte_at(s, i, '.') && i + 1 < s.len() && grammar::is_alnum(s[i + 1]) {
        lemma_boundary_behind(s, i + 1);
        lemma_segment_stops(s, i + 2);
        grammar::lemma_segment_end(s, i + 2);
        lemma_segments_stop(s, grammar::segment_end(s, i + 2));
    }
}

proof fn lemma_interface_name_stops(s: Seq<u8>, i: int)
    requires
        valid_utf8(s),
    ensures
        grammar::interface_name(s, i) matches Some((j, _)) ==> starts(s, j),
{
    if 0 <= i < s.len() && grammar::is_alpha(s[i]) {
        lemma_boundary_behind(s, i);
        lemma_segment_stops(s, i + 1);
        lemma_segments_stop(s, grammar::segment_end(s, i + 1));
    }
}

proof fn lemma_primitive_type_stops(s: Seq<u8>, i: int)
    requires
        valid_utf8(s),
    ensures
        grammar::primitive_type(s, i) matches Some((j, _)) ==> starts(s, j),
{
    reveal_strlit("bool");
    reveal_strlit("int");
    reveal_strlit("float");
    reveal_strlit("string");
    reveal_strlit("object");
    reveal_strlit("any");
    lemma_word_stops(s, i, "bool"@);
    lemma_word_stops(s, i, "int"@);
    lemma_word_stops(s, i, "float"@);
    lemma_word_stops(s, i, "string"@);
    lemma_word_stops(s, i, "object"@);
    lemma_word_stops(s, i, "any"@);
}

/// What parts and surrounds the members of lists.
proof fn lemma_punctuation_stops(s: Seq<u8>, i: int)
    requires
        valid_utf8(s),
        starts(s, i),
    ensures
        grammar::separator(s, i) matches Some(j) ==> starts(s, j),
        grammar::open_list(s, i) matches Some(j) ==> starts(s, j),
        grammar::close_list(s, i) matches Some(j) ==> starts(s, j),
        grammar::colon(s, i) matches Some(j) ==> starts(s, j),
{
    let a = grammar::ws(s, i);
    lemma_ws_stops(s, i);
    if grammar::byte_at(s, a, ',') {
        lemma_byte_stops(s, a, ',');
        lemma_span_stops(s, a + 1, Class::Space);
    }
    if grammar::byte_at(s, i, '(') {
        lemma_byte_stops(s, i, '(');
        lemma_span_stops(s, i + 1, Class::Space);
    }
    if grammar::byte_at(s, a, ')') {
        lemma_byte_stops(s, a, ')');
    }
    if grammar::byte_at(s, a, ':') {
        lemma_byte_stops(s, a, ':');
        lemma_ws_stops(s, a + 1);
    }
}

proof fn lemma_more_of_stops<T>(s: Seq<u8>, i: int, p: spec_fn(int) -> Option<(int, T)>)
    requires
        valid_utf8(s),
        starts(s, i),
        forall|k: int| starts(s, k) && (#[trigger] p(k)) is Some ==> starts(s, (p(k)->0).0),
    ensures
        starts(s, grammar::more_of(s, i, p).0),
    decreases s.len() - i,
{
    lemma_punctuation_stops(s, i);
    if let Some(a) = grammar::separator(s, i) {
        if let Some((j, _)) = p(a) {
            assert(starts(s, j));
            if i < j <= s.len() {
                lemma_more_of_stops(s, j, p);
            }
        }
    }
}

proof fn lemma_bracketed_stops<T>(s: Seq<u8>, i: int, p: spec_fn(int) -> Option<(int, T)>)
    requires
        valid_utf8(s),
        starts(s, i),
        forall|k: int| starts(s, k) && (#[trigger] p(k)) is Some ==> starts(s, (p(k)->0).0),
    ensures
        grammar::bracketed(s, i, p) matches Some((j, _)) ==> starts(s, j),
{
    lemma_punctuation_stops(s, i);
    if let Some(a) = grammar::open_list(s, i) {
        if let Some((j, _)) = p(a) {
            lemma_more_of_stops(s, j, p);
        }
        lemma_punctuation_stops(s, grammar::list_of(s, a, p).0);
    }
}

proof fn lemma_variant_list_stops(s: Seq<u8>, i: int)
    requires
        valid_utf8(s),
        starts(s, i),
    ensures
        grammar::variant_list(s, i) matches Some((j, _)) ==> starts(s, j),
{
    let p = |k: int| grammar::variant(s, k);
    assert forall|k: int| starts(s, k) && (#[trigger] p(k)) is Some implies starts(
        s,
        (p(k)->0).0,
    ) by {
        lemma_names_stop(s, grammar::comments(s, k).0);
    }
    lemma_bracketed_stops(s, i, p);
}

proof fn lemma_varlink_type_stops(s: Seq<u8>, i: int)
    requires
        valid_utf8(s),
        starts(s, i),
    ensures
        grammar::varlink_type(s, i) matches Some((j, _)) ==> starts(s, j),
    decreases s.len() - i, 3int,
{
    if grammar::byte_at(s, i, '?') {
        lemma_byte_stops(s, i, '?');
        lemma_plain_type_stops(s, i + 1);
    }
    lemma_plain_type_stops(s, i);
}

proof fn lemma_plain_type_stops(s: Seq<u8>, i: int)
    requires
        valid_utf8(s),
        starts(s, i),
    ensures
        grammar::plain_type(s, i) matches Some((j, _)) ==> starts(s, j),
    decreases s.len() - i, 2int,
{
    reveal_strlit("[]");
    reveal_strlit("[string]");
    grammar::lemma_words();
    lemma_word_stops(s, i, "[]"@);
    lemma_word_stops(s, i, "[string]"@);
    if grammar::word_at(s, i, "[]"@) {
        lemma_varlink_type_stops(s, grammar::behind(i, "[]"@));
    }
    if grammar::word_at(s, i, "[string]"@) {
        lemma_varlink_type_stops(s, grammar::behind(i, "[string]"@));
    }
    lemma_primitive_type_stops(s, i);
    lemma_names_stop(s, i);
    lemma_field_list_stops(s, i);
    lemma_variant_list_stops(s, i);
}

proof fn lemma_field_stops(s: Seq<u8>, i: int)
    requires
        valid_utf8(s),
        starts(s, i),
    ensures
        grammar::field(s, i) matches Some((j, _)) ==> starts(s, j),
    decreases s.len() - i, 4int,
{
    let c = grammar::comments(s, i).0;
    lemma_names_stop(s, c);
    if let Some((n, _)) = grammar::field_name(s, c) {
        lemma_punctuation_stops(s, n);
        if let Some(t) = grammar::colon(s, n) {
            grammar::lemma_comments(s, i);
            grammar::lemma_field_name(s, c);
            grammar::lemma_colon(s, n);
            lemma_varlink_type_stops(s, t);
        }
    }
}

proof fn lemma_more_fields_stop(s: Seq<u8>, i: int)
    requires
        valid_utf8(s),
        starts(s, i),
    ensures
        starts(s, grammar::more_fields(s, i).0),
    decreases s.len() - i, 5int,
{
    lemma_punctuation_stops(s, i);
    if let Some(a) = grammar::separator(s, i) {
        grammar::lemma_separator(s, i);
        lemma_field_stops(s, a);
        if let Some((j, _)) = grammar::field(s, a) {
            if i < j <= s.len() {
                lemma_more_fields_stop(s, j);
            }
        }
    }
}

proof fn lemma_fields_stop(s: Seq<u8>, i: int)
    requires
        valid_utf8(s),
        starts(s, i),
    ensures
        starts(s, grammar::fields(s, i).0),
    decreases s.len() - i, 6int,
{
    lemma_field_stops(s, i);
    if let Some((j, _)) = grammar::field(s, i) {
        if i < j <= s.len() {
            lemma_more_fields_stop(s, j);
        }
    }
}

proof fn lemma_field_list_stops(s: Seq<u8>, i: int)
    requires
        valid_utf8(s),
        starts(s, i),
    ensures
        grammar::field_list(s, i) matches Some((j, _)) ==> starts(s, j),
    decreases s.len() - i, 1int,
{
    lemma_punctuation_stops(s, i);
    if let Some(a) = grammar::open_list(s, i) {
        grammar::lemma_span(s, i + 1, Class::Space);
        lemma_fields_stop(s, a);
        lemma_punctuation_stops(s, grammar::fields(s, a).0);
    }
}

proof fn lemma_type_def_stops(s: Seq<u8>, i: int)
    requires
        valid_utf8(s),
        starts(s, i),
    ensures
        grammar::type_def(s, i) matches Some((j, _)) ==> starts(s, j),
{
    reveal_strlit("type");
    let c = grammar::comments(s, i).0;
    lemma_keyword_stops(s, c, "type"@);
    if let Some(k) = grammar::keyword(s, c, "type"@) {
        lemma_names_stop(s, k);
        if let Some((n, _)) = grammar::type_ident(s, k) {
            lemma_ws_stops(s, n);
            let p = |k: int| grammar::member(s, k);
            assert forall|k: int| starts(s, k) && (#[trigger] p(k)) is Some implies starts(
                s,
                (p(k)->0).0,
            ) by {
                lemma_field_stops(s, k);
                lemma_names_stop(s, grammar::comments(s, k).0);
            }
            lemma_bracketed_stops(s, grammar::ws(s, n), p);
        }
    }
}

proof fn lemma_method_def_stops(s: Seq<u8>, i: int)
    requires
        valid_utf8(s),
        starts(s, i),
    ensures
        grammar::method_def(s, i) matches Some((j, _)) ==> starts(s, j),
{
    reveal_strlit("method");
    reveal_strlit("->");
    let c = grammar::comments(s, i).0;
    lemma_keyword_stops(s, c, "method"@);
    if let Some(k) = grammar::keyword(s, c, "method"@) {
        lemma_names_stop(s, k);
        if let Some((n, _)) = grammar::type_ident(s, k) {
            lemma_ws_stops(s, n);
            lemma_field_list_stops(s, grammar::ws(s, n));
            if let Some((a, _)) = grammar::field_list(s, grammar::ws(s, n)) {
                let w = grammar::ws(s, a);
                lemma_word_stops(s, w, "->"@);
                if grammar::word_at(s, w, "->"@) {
                    lemma_ws_stops(s, grammar::behind(w, "->"@));
                    lemma_field_list_stops(s, grammar::ws(s, grammar::behind(w, "->"@)));
                }
            }
        }
    }
}

proof fn lemma_error_def_stops(s: Seq<u8>, i: int)
    requires
        valid_utf8(s),
        starts(s, i),
    ensures
        grammar::error_def(s, i) matches Some((j, _)) ==> starts(s, j),
        starts(s, grammar::error_stop(s, i)),
{
    reveal_strlit("error");
    let c = grammar::comments(s, i).0;
    lemma_comments_stop(s, i);
    lemma_keyword_stops(s, c, "error"@);
    if let Some(k) = grammar::keyword(s, c, "error"@) {
        lemma_names_stop(s, k);
        if let Some((n, _)) = grammar::type_ident(s, k) {
            let w = grammar::ws(s, n);
            lemma_ws_stops(s, n);
            lemma_field_list_stops(s, w);
            lemma_punctuation_stops(s, w);
            if let Some(a) = grammar::open_list(s, w) {
                lemma_fields_stop(s, a);
                lemma_ws_stops(s, grammar::fields(s, a).0);
            }
        }
    }
}

proof fn lemma_interface_members_stop(s: Seq<u8>, i: int, m: MembersOfInterface)
    requires
        valid_utf8(s),
        starts(s, i),
    ensures
        starts(s, grammar::interface_members(s, i, m).0),
    decreases s.len() - i,
{
    let a = grammar::skip_space(s, i);
    lemma_span_stops(s, i, Class::Space);
    if a < s.len() {
        lemma_type_def_stops(s, a);
        lemma_method_def_stops(s, a);
        lemma_error_def_stops(s, a);
        if let Some((j, t)) = grammar::type_def(s, a) {
            if i < j <= s.len() {
                let m = MembersOfInterface { custom_types: m.custom_types.push(t), ..m };
                lemma_interface_members_stop(s, j, m);
            }
        } else if let Some((j, t)) = grammar::method_def(s, a) {
            if i < j <= s.len() {
                let m = MembersOfInterface { methods: m.methods.push(t), ..m };
                lemma_interface_members_stop(s, j, m);
            }
        } else if let Some((j, t)) = grammar::error_def(s, a) {
            if i < j <= s.len() {
                let m = MembersOfInterface { errors: m.errors.push(t), ..m };
                lemma_interface_members_stop(s, j, m);
            }
        }
    }
}

/// Wherever the parser stops, what remains is text: no description makes it speak of invalid UTF-8.
pub proof fn law_what_remains_is_text(t: Seq<char>)
    ensures
        ({
            let s = encode_utf8(text::trimmed(t));
            match grammar::interface_def(s, 0) {
                Ok((j, _)) => {
                    let rest = s.subrange(grammar::ws(s, j), s.len() as int);
                    starts(s, grammar::ws(s, j)) && valid_utf8(rest) && grammar::rest_text(rest)
                        == decode_utf8(rest)
                },
                Err(e) => starts(s, e) && valid_utf8(s.subrange(e, s.len() as int)),
            }
        }),
{
    let s = encode_utf8(text::trimmed(t));
    encode_utf8_valid_utf8(text::trimmed(t));
    is_char_boundary_start_end_of_seq(s);
    reveal_strlit("interface");
    let c = grammar::comments(s, 0).0;
    lemma_comments_stop(s, 0);
    lemma_keyword_stops(s, c, "interface"@);
    if let Some(k) = grammar::keyword(s, c, "interface"@) {
        lemma_interface_name_stops(s, k);
        if let Some((n, _)) = grammar::interface_name(s, k) {
            let none = MembersOfInterface { methods: seq![], custom_types: seq![], errors: seq![] };
            lemma_interface_members_stop(s, n, none);
            lemma_ws_stops(s, grammar::interface_members(s, n, none).0);
        }
    }
    match grammar::interface_def(s, 0) {
        Ok((j, _)) => valid_utf8_split(s, grammar::ws(s, j)),
        Err(e) => valid_utf8_split(s, e),
    }
}

} // verus!
