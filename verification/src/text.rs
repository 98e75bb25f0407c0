//! Text helpers: the few standard-library string operations that the rest of the library needs.

use vstd::prelude::*;
use vstd::string::StringSliceAdditionalSpecFns;
use vstd::utf8::{decode_utf8, encode_utf8, encode_utf8_decode_utf8, valid_utf8};

verus! {

/// Whether `c` has the Unicode `White_Space` property.
pub open spec fn is_white_space(c: char) -> bool {
    ||| '\u{9}' <= c <= '\u{d}'
    ||| c == ' '
    ||| c == '\u{85}'
    ||| c == '\u{a0}'
    ||| c == '\u{1680}'
    ||| '\u{2000}' <= c <= '\u{200a}'
    ||| c == '\u{2028}'
    ||| c == '\u{2029}'
    ||| c == '\u{202f}'
    ||| c == '\u{205f}'
    ||| c == '\u{3000}'
}

/// `s` without its leading white space.
pub open spec fn trim_start(s: Seq<char>) -> Seq<char>
    decreases s.len(),
{
    if s.len() > 0 && is_white_space(s[0]) {
        trim_start(s.drop_first())
    } else {
        s
    }
}

/// `s` without its trailing white space.
pub open spec fn trim_end(s: Seq<char>) -> Seq<char>
    decreases s.len(),
{
    if s.len() > 0 && is_white_space(s.last()) {
        trim_end(s.drop_last())
    } else {
        s
    }
}

/// `s` without leading and trailing white space.
pub open spec fn trimmed(s: Seq<char>) -> Seq<char> {
    trim_end(trim_start(s))
}

/// Whether every character of `s` is white space.
pub open spec fn is_blank(s: Seq<char>) -> bool {
    forall|k: int| 0 <= k < s.len() ==> is_white_space(#[trigger] s[k])
}

proof fn lemma_trim_start_blank(w: Seq<char>, s: Seq<char>)
    requires
        is_blank(w),
    ensures
        trim_start(w + s) == trim_start(s),
    decreases w.len(),
{
    if w.len() == 0 {
        assert(w + s =~= s);
    } else {
        assert((w + s).drop_first() =~= w.drop_first() + s);
        lemma_trim_start_blank(w.drop_first(), s);
    }
}

proof fn lemma_trim_end_blank(s: Seq<char>, w: Seq<char>)
    requires
        is_blank(w),
    ensures
        trim_end(s + w) == trim_end(s),
    decreases w.len(),
{
    if w.len() == 0 {
        assert(s + w =~= s);
    } else {
        assert((s + w).drop_last() =~= s + w.drop_last());
        assert((s + w).last() == w.last());
        lemma_trim_end_blank(s, w.drop_last());
    }
}

proof fn lemma_trim_start_append(s: Seq<char>, w: Seq<char>)
    requires
        is_blank(w),
    ensures
        is_blank(s) ==> trim_start(s + w).len() == 0 && trim_start(s).len() == 0,
        !is_blank(s) ==> trim_start(s + w) == trim_start(s) + w,
    decreases s.len(),
{
    if s.len() == 0 {
        lemma_trim_start_blank(w, seq![]);
        assert(s + w =~= w + seq![]);
    } else if is_white_space(s[0]) {
        assert((s + w).drop_first() =~= s.drop_first() + w);
        assert(is_blank(s) ==> is_blank(s.drop_first()));
        assert(is_blank(s.drop_first()) ==> is_blank(s)) by {
            if is_blank(s.drop_first()) {
                assert forall|k: int| 0 <= k < s.len() implies is_white_space(#[trigger] s[k]) by {
                    if k > 0 {
                        assert(s[k] == s.drop_first()[k - 1]);
                    }
                }
            }
        }
        lemma_trim_start_append(s.drop_first(), w);
    }
}

/// White space around a text is trimmed away, whatever it is.
pub proof fn lemma_trimmed_around(w: Seq<char>, s: Seq<char>, v: Seq<char>)
    requires
        is_blank(w),
        is_blank(v),
    ensures
        trimmed(w + s + v) == trimmed(s),
{
    assert(w + s + v =~= w + (s + v));
    lemma_trim_start_blank(w, s + v);
    lemma_trim_start_append(s, v);
    lemma_trim_end_blank(trim_start(s), v);
}

/// Calls [`str::trim`], which removes leading and trailing characters that have the Unicode
/// `White_Space` property.
#[verifier::external_body]
pub(crate) fn trim(s: &str) -> (r: &str)
    ensures
        r@ == trimmed(s@),
{
    s.trim()
}

/// Calls [`core::str::from_utf8`]: the bytes are taken as text exactly where they are valid UTF-8.
#[verifier::external_body]
pub(crate) fn from_utf8(bytes: &[u8]) -> (r: Option<&str>)
    ensures
        r is Some <==> valid_utf8(bytes@),
        r matches Some(s) ==> s.spec_bytes() == bytes@,
{
    core::str::from_utf8(bytes).ok()
}

/// The `Debug` form of a text: in quotes, with escapes.
pub uninterp spec fn debug_text(s: Seq<char>) -> Seq<char>;

/// Calls the `Debug` form of [`str`], as [`format!`] writes it.
#[verifier::external_body]
pub(crate) fn debug_str(s: &str) -> (r: String)
    ensures
        r@ == debug_text(s@),
{
    format!("{:?}", s)
}

/// The text that `bytes` encode.
pub fn bytes_to_str(bytes: &[u8]) -> (r: &str)
    requires
        valid_utf8(bytes@),
    ensures
        r@ == decode_utf8(bytes@),
        r.spec_bytes() == bytes@,
{
    let r = from_utf8(bytes);
    let s = r.unwrap();
    proof {
        encode_utf8_decode_utf8(s@);
    }
    s
}

/// [`String::push`] appends one character.
pub assume_specification[ std::string::String::push ](s: &mut std::string::String, ch: char)
    ensures
        final(s)@ == old(s)@.push(ch),
;

/// The characters of a text.
pub fn to_chars(s: &str) -> (r: Vec<char>)
    ensures
        r@ == s@,
{
    let mut out: Vec<char> = Vec::new();
    assert(out@ =~= s@.take(0));
    for c in it: s.chars()
        invariant
            it.seq() == s@,
            out@ == s@.take(it.index() as int),
    {
        out.push(c);
        assert(out@ =~= s@.take(it.index() + 1));
    }
    assert(s@.take(s@.len() as int) =~= s@);
    out
}

/// What an optional text says.
pub open spec fn optional(t: Option<String>) -> Option<Seq<char>> {
    match t {
        Some(s) => Some(s@),
        None => None,
    }
}

/// What a list of texts says.
pub open spec fn texts(ts: Seq<String>) -> Seq<Seq<char>> {
    Seq::new(ts.len(), |i: int| ts[i]@)
}

/// A copy of an optional text.
pub fn clone_optional(t: &Option<String>) -> (r: Option<String>)
    ensures
        optional(r) == optional(*t),
{
    match t {
        Some(s) => Some(s.clone()),
        None => None,
    }
}

/// Texts one behind the other.
pub open spec fn concatenated(items: Seq<Seq<char>>) -> Seq<char>
    decreases items.len(),
{
    if items.len() == 0 {
        seq![]
    } else {
        concatenated(items.drop_last()) + items.last()
    }
}

/// Texts with a comma behind each.
pub open spec fn terminated(items: Seq<Seq<char>>) -> Seq<char>
    decreases items.len(),
{
    if items.len() == 0 {
        seq![]
    } else {
        terminated(items.drop_last()) + items.last() + ", "@
    }
}

/// Texts with commas between them.
pub open spec fn listed(items: Seq<Seq<char>>) -> Seq<char>
    decreases items.len(),
{
    if items.len() == 0 {
        seq![]
    } else if items.len() == 1 {
        items[0]
    } else {
        listed(items.drop_last()) + ", "@ + items.last()
    }
}

/// Puts texts one behind the other.
pub fn concat(parts: &Vec<String>) -> (r: String)
    ensures
        r@ == concatenated(texts(parts@)),
{
    let ghost all = texts(parts@);
    let mut out = String::new();
    let mut i: usize = 0;
    assert(out@ =~= concatenated(all.take(0)));
    while i < parts.len()
        invariant
            i <= parts@.len(),
            all == texts(parts@),
            out@ == concatenated(all.take(i as int)),
        decreases parts@.len() - i,
    {
        assert(all.take(i + 1).drop_last() =~= all.take(i as int));
        out.append(parts[i].as_str());
        i += 1;
    }
    assert(all.take(all.len() as int) =~= all);
    out
}

/// Puts texts one behind the other, with a comma behind each.
pub fn terminate(parts: &Vec<String>) -> (r: String)
    ensures
        r@ == terminated(texts(parts@)),
{
    let ghost all = texts(parts@);
    let mut out = String::new();
    let mut i: usize = 0;
    assert(out@ =~= terminated(all.take(0)));
    while i < parts.len()
        invariant
            i <= parts@.len(),
            all == texts(parts@),
            out@ == terminated(all.take(i as int)),
        decreases parts@.len() - i,
    {
        assert(all.take(i + 1).drop_last() =~= all.take(i as int));
        out.append(parts[i].as_str());
        out.append(", ");
        i += 1;
    }
    assert(all.take(all.len() as int) =~= all);
    out
}

/// Puts texts one behind the other, with commas between them.
pub fn list(parts: &Vec<String>) -> (r: String)
    ensures
        r@ == listed(texts(parts@)),
{
    let ghost all = texts(parts@);
    let mut out = String::new();
    let mut i: usize = 0;
    assert(out@ =~= listed(all.take(0)));
    while i < parts.len()
        invariant
            i <= parts@.len(),
            all == texts(parts@),
            out@ == listed(all.take(i as int)),
        decreases parts@.len() - i,
    {
        let ghost before = out@;
        if i > 0 {
            out.append(", ");
        }
        out.append(parts[i].as_str());
        proof {
            let next = all.take(i + 1);
            assert(next.drop_last() =~= all.take(i as int));
            if i == 0 {
                assert(before =~= seq![]);
                assert(out@ =~= next[0]);
            }
        }
        i += 1;
    }
    assert(all.take(all.len() as int) =~= all);
    out
}

/// A list with one more text says one more thing.
pub proof fn lemma_texts_push(ts: Seq<String>, t: String)
    ensures
        texts(ts.push(t)) == texts(ts).push(t@),
{
    assert(texts(ts.push(t)) =~= texts(ts).push(t@));
}

/// The decimal digit.
pub open spec fn digit(d: nat) -> char {
    (d + 48) as char
}

/// A number in decimal.
pub open spec fn decimal(n: nat) -> Seq<char>
    decreases n,
{
    if n < 10 {
        seq![digit(n)]
    } else {
        decimal(n / 10).push(digit(n % 10))
    }
}

/// A number in decimal.
pub fn decimal_text(n: usize) -> (r: String)
    ensures
        r@ == decimal(n as nat),
    decreases n,
{
    let last = (48u8 + (n % 10) as u8) as char;
    if n < 10 {
        let mut r = String::new();
        r.push(last);
        assert(r@ =~= seq![digit(n as nat)]);
        r
    } else {
        let mut r = decimal_text(n / 10);
        r.push(last);
        r
    }
}

/// The upper-case form of an ASCII letter; any other character as it is.
pub open spec fn upper(c: char) -> char {
    if 'a' <= c <= 'z' {
        (c as u32 - 32) as char
    } else {
        c
    }
}

/// The lower-case form of an ASCII letter; any other character as it is.
pub open spec fn lower(c: char) -> char {
    if 'A' <= c <= 'Z' {
        (c as u32 + 32) as char
    } else {
        c
    }
}

/// The upper-case form of an ASCII letter.
pub fn to_upper(c: char) -> (r: char)
    ensures
        r == upper(c),
{
    if 'a' <= c && c <= 'z' {
        (c as u8 - 32) as char
    } else {
        c
    }
}

/// The lower-case form of an ASCII letter.
pub fn to_lower(c: char) -> (r: char)
    ensures
        r == lower(c),
{
    if 'A' <= c && c <= 'Z' {
        (c as u8 + 32) as char
    } else {
        c
    }
}

/// A text with its ASCII letters in upper case.
pub open spec fn uppered(s: Seq<char>) -> Seq<char> {
    s.map_values(|c: char| upper(c))
}

/// A text with its ASCII letters in lower case.
pub open spec fn lowered(s: Seq<char>) -> Seq<char> {
    s.map_values(|c: char| lower(c))
}

/// A text with one character in place of another.
pub open spec fn replaced(s: Seq<char>, from: char, to: char) -> Seq<char> {
    s.map_values(|c: char| if c == from { to } else { c })
}

/// A text with its ASCII letters in upper case.
pub fn to_uppered(s: &str) -> (r: String)
    ensures
        r@ == uppered(s@),
{
    let mut out = String::new();
    assert(out@ =~= uppered(s@.take(0)));
    for c in it: s.chars()
        invariant
            it.seq() == s@,
            out@ == uppered(s@.take(it.index() as int)),
    {
        out.push(to_upper(c));
        assert(out@ =~= uppered(s@.take(it.index() + 1)));
    }
    assert(s@.take(s@.len() as int) =~= s@);
    out
}

/// A text with its ASCII letters in lower case.
pub fn to_lowered(s: &str) -> (r: String)
    ensures
        r@ == lowered(s@),
{
    let mut out = String::new();
    assert(out@ =~= lowered(s@.take(0)));
    for c in it: s.chars()
        invariant
            it.seq() == s@,
            out@ == lowered(s@.take(it.index() as int)),
    {
        out.push(to_lower(c));
        assert(out@ =~= lowered(s@.take(it.index() + 1)));
    }
    assert(s@.take(s@.len() as int) =~= s@);
    out
}

/// A text with one character in place of another.
pub fn replace(s: &str, from: char, to: char) -> (r: String)
    ensures
        r@ == replaced(s@, from, to),
{
    let mut out = String::new();
    assert(out@ =~= replaced(s@.take(0), from, to));
    for c in it: s.chars()
        invariant
            it.seq() == s@,
            out@ == replaced(s@.take(it.index() as int), from, to),
    {
        out.push(
            if c == from {
                to
            } else {
                c
            },
        );
        assert(out@ =~= replaced(s@.take(it.index() + 1), from, to));
    }
    assert(s@.take(s@.len() as int) =~= s@);
    out
}

/// Whether a text is some text with others in front of it and behind it.
pub open spec fn is_around(t: Seq<char>, before: Seq<char>, part: Seq<char>, behind: Seq<char>) -> bool {
    t == before + part + behind
}

/// Whether a text stands somewhere in another.
pub open spec fn has_part(t: Seq<char>, part: Seq<char>) -> bool {
    exists|before: Seq<char>, behind: Seq<char>| #[trigger] is_around(t, before, part, behind)
}

/// A text stands in itself.
pub proof fn lemma_part_of_itself(t: Seq<char>)
    ensures
        has_part(t, t),
{
    assert(t =~= seq![] + t + seq![]);
    assert(is_around(t, seq![], t, seq![]));
}

/// What stands in a text stands in it with more behind it.
pub broadcast proof fn lemma_part_in_front(t: Seq<char>, more: Seq<char>, part: Seq<char>)
    requires
        has_part(t, part),
    ensures
        #[trigger] has_part(t + more, part),
{
    let (before, behind) = choose|before: Seq<char>, behind: Seq<char>| #[trigger]
        is_around(t, before, part, behind);
    assert(t + more =~= before + part + (behind + more));
    assert(is_around(t + more, before, part, behind + more));
}

/// What stands in a text stands in it with more in front of it.
pub broadcast proof fn lemma_part_behind(more: Seq<char>, t: Seq<char>, part: Seq<char>)
    requires
        has_part(t, part),
    ensures
        #[trigger] has_part(more + t, part),
{
    let (before, behind) = choose|before: Seq<char>, behind: Seq<char>| #[trigger]
        is_around(t, before, part, behind);
    assert(more + t =~= (more + before) + part + behind);
    assert(is_around(more + t, more + before, part, behind));
}

/// Whether a text ends in another.
pub open spec fn closes(t: Seq<char>, part: Seq<char>) -> bool {
    exists|before: Seq<char>| #[trigger] is_around(t, before, part, seq![])
}

/// A text ends in what was last put behind it.
pub broadcast proof fn lemma_closes_itself(before: Seq<char>, part: Seq<char>)
    ensures
        #[trigger] closes(before + part, part),
{
    assert(before + part =~= before + part + seq![]);
    assert(is_around(before + part, before, part, seq![]));
}

/// What a text ends in grows with the text.
pub broadcast proof fn lemma_closes_grown(t: Seq<char>, part: Seq<char>, more: Seq<char>)
    requires
        closes(t, part),
    ensures
        #[trigger] closes(t + more, part + more),
{
    let before = choose|before: Seq<char>| #[trigger] is_around(t, before, part, seq![]);
    assert(t + more =~= before + (part + more) + seq![]);
    assert(is_around(t + more, before, part + more, seq![]));
}

/// What a text ends in stands in it.
pub broadcast proof fn lemma_end_is_part(t: Seq<char>, part: Seq<char>)
    requires
        closes(t, part),
    ensures
        #[trigger] has_part(t, part),
{
}

/// What is known of the places of texts in others.
pub broadcast group group_parts {
    lemma_part_in_front,
    lemma_part_behind,
    lemma_closes_itself,
    lemma_closes_grown,
    lemma_end_is_part,
}

/// What stands in a part of a text stands in the text.
pub proof fn lemma_part_of_part(t: Seq<char>, middle: Seq<char>, part: Seq<char>)
    requires
        has_part(t, middle),
        has_part(middle, part),
    ensures
        has_part(t, part),
{
    let (a, b) = choose|a: Seq<char>, b: Seq<char>| #[trigger] is_around(t, a, middle, b);
    lemma_part_behind(a, middle, part);
    lemma_part_in_front(a + middle, b, part);
}

/// Texts that are put one behind the other, with a comma behind each or with commas between them, keep
/// their order: what is made of two lists is what is made of the first and then of the second, and of
/// one text that text.
pub proof fn law_lists_keep_their_order(first: Seq<Seq<char>>, second: Seq<Seq<char>>)
    ensures
        concatenated(first + second) == concatenated(first) + concatenated(second),
        terminated(first + second) == terminated(first) + terminated(second),
        first.len() > 0 && second.len() > 0 ==> listed(first + second) == listed(first) + ", "@
            + listed(second),
        first.len() == 0 ==> concatenated(first).len() == 0 && terminated(first).len() == 0
            && listed(first).len() == 0,
        first.len() == 1 ==> concatenated(first) == first[0] && terminated(first) == first[0] + ", "@
            && listed(first) == first[0],
    decreases second.len(),
{
    reveal_with_fuel(concatenated, 2);
    reveal_with_fuel(terminated, 2);
    reveal_with_fuel(listed, 2);
    if first.len() == 1 {
        assert(concatenated(first) =~= first[0]);
        assert(terminated(first) =~= first[0] + ", "@);
    }
    if second.len() == 0 {
        assert(first + second =~= first);
        assert(concatenated(first) + concatenated(second) =~= concatenated(first));
        assert(terminated(first) + terminated(second) =~= terminated(first));
    } else {
        law_lists_keep_their_order(first, second.drop_last());
        assert((first + second).drop_last() =~= first + second.drop_last());
        assert((first + second).last() == second.last());
        assert(concatenated(first + second) =~= concatenated(first) + concatenated(second));
        assert(terminated(first + second) =~= terminated(first) + terminated(second));
        if first.len() > 0 {
            if second.len() == 1 {
                assert(first + second.drop_last() =~= first);
                assert(listed(first + second) =~= listed(first) + ", "@ + listed(second));
            } else {
                assert(listed(first + second) =~= listed(first) + ", "@ + listed(second));
            }
        }
    }
}

/// Every text of a list stands in what is made of it.
pub proof fn lemma_item_is_part(items: Seq<Seq<char>>, k: int)
    requires
        0 <= k < items.len(),
    ensures
        has_part(concatenated(items), items[k]),
        has_part(terminated(items), items[k] + ", "@),
        has_part(listed(items), items[k]),
    decreases items.len(),
{
    let before = items.drop_last();
    if k < before.len() {
        lemma_item_is_part(before, k);
        assert(before[k] == items[k]);
        lemma_part_in_front(concatenated(before), items.last(), items[k]);
        lemma_part_in_front(terminated(before), items.last(), items[k] + ", "@);
        lemma_part_in_front(terminated(before) + items.last(), ", "@, items[k] + ", "@);
        lemma_part_in_front(listed(before), ", "@, items[k]);
        lemma_part_in_front(listed(before) + ", "@, items.last(), items[k]);
    } else {
        lemma_part_of_itself(items[k]);
        lemma_part_of_itself(items[k] + ", "@);
        lemma_part_behind(concatenated(before), items[k], items[k]);
        lemma_part_behind(terminated(before), items[k] + ", "@, items[k] + ", "@);
        assert(terminated(items) =~= terminated(before) + (items[k] + ", "@));
        lemma_part_behind(listed(before) + ", "@, items[k], items[k]);
    }
}

/// The number that decimal digits say.
pub open spec fn number(digits: Seq<char>) -> int
    decreases digits.len(),
{
    if digits.len() == 0 {
        0
    } else {
        number(digits.drop_last()) * 10 + (digits.last() as int - '0' as int)
    }
}

/// A number in decimal says that number, in digits alone and without zeros in front.
pub proof fn law_decimals_say_their_number(n: nat)
    ensures
        number(decimal(n)) == n,
        decimal(n).len() > 0,
        decimal(n)[0] == '0' ==> n == 0,
        forall|k: int| 0 <= k < decimal(n).len() ==> '0' <= #[trigger] decimal(n)[k] <= '9',
    decreases n,
{
    reveal_with_fuel(number, 2);
    reveal_with_fuel(decimal, 2);
    if n < 10 {
        assert(decimal(n).drop_last() =~= seq![]);
    } else {
        law_decimals_say_their_number(n / 10);
        assert(decimal(n).drop_last() =~= decimal(n / 10));
        assert(decimal(n)[0] == decimal(n / 10)[0]);
    }
}

/// Trimming takes white space away at both ends and nothing else, and leaves none there.
pub proof fn law_only_white_space_is_trimmed(s: Seq<char>) -> (r: (Seq<char>, Seq<char>))
    ensures
        is_blank(r.0),
        is_blank(r.1),
        s == r.0 + trimmed(s) + r.1,
        trimmed(s).len() > 0 ==> !is_white_space(trimmed(s)[0]) && !is_white_space(
            trimmed(s).last(),
        ),
{
    let front = lemma_start_trimmed(s);
    let behind = lemma_end_trimmed(trim_start(s));
    assert(s =~= front + trimmed(s) + behind);
    (front, behind)
}

proof fn lemma_start_trimmed(s: Seq<char>) -> (front: Seq<char>)
    ensures
        is_blank(front),
        s == front + trim_start(s),
        trim_start(s).len() > 0 ==> !is_white_space(trim_start(s)[0]),
    decreases s.len(),
{
    if s.len() > 0 && is_white_space(s[0]) {
        let inner = s.drop_first();
        let rest = lemma_start_trimmed(inner);
        assert(s =~= seq![s[0]] + inner);
        assert(seq![s[0]] + (rest + trim_start(inner)) =~= seq![s[0]] + rest + trim_start(inner));
        seq![s[0]] + rest
    } else {
        assert(s =~= Seq::<char>::empty() + trim_start(s));
        seq![]
    }
}

proof fn lemma_end_trimmed(s: Seq<char>) -> (behind: Seq<char>)
    ensures
        is_blank(behind),
        s == trim_end(s) + behind,
        trim_end(s).len() > 0 ==> !is_white_space(trim_end(s).last()) && trim_end(s)[0] == s[0],
    decreases s.len(),
{
    if s.len() > 0 && is_white_space(s.last()) {
        let inner = s.drop_last();
        let rest = lemma_end_trimmed(inner);
        assert(s =~= inner + seq![s.last()]);
        assert(trim_end(inner) + rest + seq![s.last()] =~= trim_end(inner) + (rest + seq![s.last()]));
        rest + seq![s.last()]
    } else {
        assert(s =~= trim_end(s) + Seq::<char>::empty());
        seq![]
    }
}

/// A letter in the other case is the letter at the same place of the other alphabet, and nothing but
/// ASCII letters changes.
pub proof fn law_cases_change_letters_alone(c: char)
    ensures
        'a' <= c <= 'z' ==> upper(c) as int - 'A' as int == c as int - 'a' as int && lower(c) == c,
        'A' <= c <= 'Z' ==> lower(c) as int - 'a' as int == c as int - 'A' as int && upper(c) == c,
        !('a' <= c <= 'z') && !('A' <= c <= 'Z') ==> upper(c) == c && lower(c) == c,
{
}

/// Lists of texts are shown one by one, and a text that may be absent as it is.
pub proof fn law_texts_are_shown_as_they_are(ts: Seq<String>, t: Option<String>, k: int)
    ensures
        texts(ts).len() == ts.len(),
        0 <= k < ts.len() ==> texts(ts)[k] == ts[k]@,
        optional(t) is Some <==> t is Some,
        t matches Some(s) ==> optional(t) == Some(s@),
{
}

/// Putting a text in another case and replacing a character change each character for itself.
pub proof fn law_characters_change_for_themselves(s: Seq<char>, from: char, to: char, k: int)
    requires
        0 <= k < s.len(),
    ensures
        uppered(s).len() == s.len(),
        uppered(s)[k] == upper(s[k]),
        lowered(s).len() == s.len(),
        lowered(s)[k] == lower(s[k]),
        replaced(s, from, to).len() == s.len(),
        s[k] == from ==> replaced(s, from, to)[k] == to,
        s[k] != from ==> replaced(s, from, to)[k] == s[k],
{
}

} // verus!
