//! What holds of names, tokens and the entries of attributes.

use vstd::prelude::*;

use super::meta::{
    Attribute, AttributeArgs, AttributeArgsView, AttributeView, MetaForm, MetaFormView, MetaItem,
    MetaValue, MetaValueView,
};
use super::naming;
use super::naming::RenameAll;
use super::nested;
use super::nested::{Entry, EntryView, KeyView, Nested, NestedView};
use super::tokens;
use super::tokens::{Brackets, Piece, PieceView, Token, TokenView};
use crate::text;

verus! {

/// How a convention is written, which is itself in that convention.
pub open spec fn convention_name(rule: RenameAll) -> Seq<char> {
    match rule {
        RenameAll::Lower => "lowercase"@,
        RenameAll::Upper => "UPPERCASE"@,
        RenameAll::Pascal => "PascalCase"@,
        RenameAll::Camel => "camelCase"@,
        RenameAll::Snake => "snake_case"@,
        RenameAll::ScreamingSnake => "SCREAMING_SNAKE_CASE"@,
        RenameAll::Kebab => "kebab-case"@,
        RenameAll::ScreamingKebab => "SCREAMING-KEBAB-CASE"@,
    }
}

/// A convention is found by its own name and by no other.
pub proof fn law_conventions_are_found_by_their_names(name: Seq<char>, rule: RenameAll)
    ensures
        naming::rule_of(name) == Some(rule) <==> name == convention_name(rule),
        naming::rule_of(name) is None ==> name != convention_name(rule),
{
    reveal_strlit("lowercase");
    reveal_strlit("UPPERCASE");
    reveal_strlit("PascalCase");
    reveal_strlit("camelCase");
    reveal_strlit("snake_case");
    reveal_strlit("SCREAMING_SNAKE_CASE");
    reveal_strlit("kebab-case");
    reveal_strlit("SCREAMING-KEBAB-CASE");
    assert("lowercase"@[0] == 'l' && "UPPERCASE"@[0] == 'U' && "PascalCase"@[0] == 'P');
    assert("camelCase"@[0] == 'c' && "snake_case"@[0] == 's' && "kebab-case"@[0] == 'k');
    assert("SCREAMING_SNAKE_CASE"@[0] == 'S' && "SCREAMING_SNAKE_CASE"@[9] == '_');
    assert("SCREAMING-KEBAB-CASE"@[0] == 'S' && "SCREAMING-KEBAB-CASE"@[9] == '-');
}

/// The conventions that keep the words of a field apart change its name character by character, or not
/// at all.
pub proof fn law_fields_change_character_by_character(s: Seq<char>, k: int)
    requires
        0 <= k < s.len(),
    ensures
        naming::field_form(RenameAll::Lower, s) == s,
        naming::field_form(RenameAll::Snake, s) == s,
        naming::field_form(RenameAll::Upper, s).len() == s.len(),
        naming::field_form(RenameAll::Upper, s)[k] == text::upper(s[k]),
        naming::field_form(RenameAll::ScreamingSnake, s) == naming::field_form(
            RenameAll::Upper,
            s,
        ),
        naming::field_form(RenameAll::Kebab, s).len() == s.len(),
        naming::field_form(RenameAll::Kebab, s)[k] == if s[k] == '_' {
            '-'
        } else {
            s[k]
        },
        naming::field_form(RenameAll::ScreamingKebab, s).len() == s.len(),
        naming::field_form(RenameAll::ScreamingKebab, s)[k] == if s[k] == '_' {
            '-'
        } else {
            text::upper(s[k])
        },
{
}

/// The words of a field stand in Pascal case one behind the other, each with a capital letter in front
/// and otherwise as it was.
pub proof fn law_fields_have_their_words_capitalized(word: Seq<char>, rest: Seq<char>)
    requires
        forall|k: int| 0 <= k < word.len() ==> #[trigger] word[k] != '_',
    ensures
        naming::field_form(RenameAll::Pascal, word + seq!['_'] + rest) == naming::field_form(
            RenameAll::Pascal,
            word,
        ) + naming::field_form(RenameAll::Pascal, rest),
        naming::field_form(RenameAll::Pascal, word).len() == word.len(),
        forall|k: int|
            0 <= k < word.len() ==> #[trigger] naming::field_form(RenameAll::Pascal, word)[k]
                == if k == 0 {
                text::upper(word[k])
            } else {
                word[k]
            },
{
    lemma_pascal_word(word);
    lemma_pascal_words(word, rest);
}

proof fn lemma_pascal_word(word: Seq<char>)
    requires
        forall|k: int| 0 <= k < word.len() ==> #[trigger] word[k] != '_',
    ensures
        naming::pascal(word).len() == word.len(),
        forall|k: int| 0 <= k < word.len() ==> #[trigger] naming::pascal(word)[k] == if k == 0 {
            text::upper(word[k])
        } else {
            word[k]
        },
    decreases word.len(),
{
    if word.len() > 0 {
        let before = word.drop_last();
        assert forall|k: int| 0 <= k < before.len() implies #[trigger] before[k] != '_' by {
            assert(before[k] == word[k]);
        }
        lemma_pascal_word(before);
        assert(word[word.len() - 1] != '_');
        if word.len() > 1 {
            assert(word[word.len() - 2] != '_');
        }
        let made = naming::pascal(word);
        assert forall|k: int| 0 <= k < word.len() implies #[trigger] made[k] == if k == 0 {
            text::upper(word[k])
        } else {
            word[k]
        } by {
            if k < word.len() - 1 {
                assert(made[k] == naming::pascal(before)[k]);
            }
        }
    }
}

proof fn lemma_pascal_words(word: Seq<char>, rest: Seq<char>)
    requires
        forall|k: int| 0 <= k < word.len() ==> #[trigger] word[k] != '_',
    ensures
        naming::pascal(word + seq!['_'] + rest) == naming::pascal(word) + naming::pascal(rest),
    decreases rest.len(),
{
    let p = word + seq!['_'];
    let all = p + rest;
    if rest.len() == 0 {
        assert(all.drop_last() =~= word);
        assert(all.last() == '_');
        assert(naming::pascal(word) + naming::pascal(rest) =~= naming::pascal(word));
    } else {
        lemma_pascal_words(word, rest.drop_last());
        assert(all.drop_last() =~= p + rest.drop_last());
        assert(all.last() == rest.last());
        if rest.len() > 1 {
            assert(all[all.len() - 2] == rest[rest.len() - 2]);
        } else {
            assert(all[all.len() - 2] == '_');
        }
        assert(naming::pascal(all) =~= naming::pascal(word) + naming::pascal(rest));
    }
}

/// Camel case is Pascal case with a small letter in front.
pub proof fn law_camel_case_begins_small(s: Seq<char>, k: int)
    ensures
        ({
            let field = naming::field_form(RenameAll::Pascal, s);
            let camel = naming::field_form(RenameAll::Camel, s);
            &&& camel.len() == field.len()
            &&& 0 < k < field.len() ==> camel[k] == field[k]
            &&& 0 < field.len() ==> camel[0] == text::lower(field[0])
        }),
        ({
            let camel = naming::variant_form(RenameAll::Camel, s);
            &&& naming::variant_form(RenameAll::Pascal, s) == s
            &&& camel.len() == s.len()
            &&& 0 < k < s.len() ==> camel[k] == s[k]
            &&& 0 < s.len() ==> camel[0] == text::lower(s[0])
        }),
{
}

/// The conventions for variants that keep the words apart are snake case, or differ from it character
/// by character; the others change the letters alone.
pub proof fn law_variants_change_character_by_character(s: Seq<char>, k: int)
    ensures
        ({
            let snake = naming::variant_form(RenameAll::Snake, s);
            let screaming = naming::variant_form(RenameAll::ScreamingSnake, s);
            let kebab = naming::variant_form(RenameAll::Kebab, s);
            let loud = naming::variant_form(RenameAll::ScreamingKebab, s);
            &&& screaming.len() == snake.len()
            &&& kebab.len() == snake.len()
            &&& loud.len() == snake.len()
            &&& 0 <= k < snake.len() ==> {
                &&& screaming[k] == text::upper(snake[k])
                &&& kebab[k] == if snake[k] == '_' {
                    '-'
                } else {
                    snake[k]
                }
                &&& loud[k] == if snake[k] == '_' {
                    '-'
                } else {
                    text::upper(snake[k])
                }
            }
        }),
        naming::variant_form(RenameAll::Lower, s).len() == s.len(),
        0 <= k < s.len() ==> naming::variant_form(RenameAll::Lower, s)[k] == text::lower(s[k]),
        naming::variant_form(RenameAll::Upper, s).len() == s.len(),
        0 <= k < s.len() ==> naming::variant_form(RenameAll::Upper, s)[k] == text::upper(s[k]),
{
}

/// Whether a word has no capital letter but perhaps in front.
pub open spec fn is_one_word(word: Seq<char>) -> bool {
    forall|k: int| 0 < k < word.len() ==> !naming::is_uppercase(#[trigger] word[k])
}

/// The words of a variant begin with capital letters: in snake case they stand in small letters with
/// underscores between them.
pub proof fn law_variants_have_their_words_parted(first: Seq<char>, word: Seq<char>)
    requires
        is_one_word(word),
    ensures
        naming::variant_form(RenameAll::Snake, word) == text::lowered(word),
        first.len() > 0 && word.len() > 0 && naming::is_uppercase(word[0])
            ==> naming::variant_form(RenameAll::Snake, first + word) == naming::variant_form(
            RenameAll::Snake,
            first,
        ) + seq!['_'] + text::lowered(word),
    decreases word.len(),
{
    if word.len() == 0 {
        assert(naming::snake(word) =~= text::lowered(word));
    } else {
        let before = word.drop_last();
        assert forall|k: int| 0 < k < before.len() implies !naming::is_uppercase(
            #[trigger] before[k],
        ) by {
            assert(before[k] == word[k]);
        }
        law_variants_have_their_words_parted(first, before);
        assert(word.len() > 1 ==> !naming::is_uppercase(word[word.len() - 1]));
        assert(naming::snake(word) =~= text::lowered(word));
        if first.len() > 0 && naming::is_uppercase(word[0]) {
            let all = first + word;
            assert(all.last() == word.last());
            assert(all.drop_last() =~= first + before);
            if word.len() == 1 {
                assert(first + before =~= first);
            } else {
                assert(before[0] == word[0]);
            }
            assert(naming::snake(all) =~= naming::snake(first) + seq!['_'] + text::lowered(word));
        }
    }
}

/// The capital letters of ASCII are those of the English alphabet.
pub proof fn law_ascii_capitals(c: char)
    ensures
        c <= '\u{7f}' ==> (naming::is_uppercase(c) <==> 'A' <= c <= 'Z'),
{
}

proof fn lemma_key_absent(n: NestedView, i: int, k: int, key: Seq<char>, found: Option<Seq<char>>)
    requires
        0 <= i <= k <= n.entries.len(),
        forall|j: int| i <= j < k ==> (#[trigger] n.entries[j]).key != Some(key),
    ensures
        naming::value_in(n, i, key, found) == naming::value_in(n, k, key, found),
    decreases k - i,
{
    if i < k {
        assert(n.entries[i].key != Some(key));
        lemma_key_absent(n, i + 1, k, key, found);
    }
}

/// A key that no entry has is given nothing. What is wrong with the attribute is the error.
pub proof fn law_absent_keys_are_given_nothing(n: NestedView, key: Seq<char>, found: Option<Seq<char>>)
    requires
        forall|j: int| 0 <= j < n.entries.len() ==> (#[trigger] n.entries[j]).key != Some(key),
    ensures
        naming::value_in(n, 0, key, found) == match n.error {
            Some(message) => Err::<Option<Seq<char>>, Seq<char>>(message),
            None => Ok(found),
        },
{
    lemma_key_absent(n, 0, n.entries.len() as int, key, found);
}

/// A key that one entry has is given the text of that entry, if that has one; what is wrong with it, or
/// else with the attribute, is the error.
pub proof fn law_a_key_is_given_its_text(n: NestedView, key: Seq<char>, k: int)
    requires
        0 <= k < n.entries.len(),
        n.entries[k].key == Some(key),
        forall|j: int|
            0 <= j < n.entries.len() && j != k ==> (#[trigger] n.entries[j]).key != Some(key),
    ensures
        naming::value_in(n, 0, key, None) == match n.entries[k].text {
            Err(message) => Err::<Option<Seq<char>>, Seq<char>>(message),
            Ok(value) => match n.error {
                Some(message) => Err(message),
                None => Ok(Some(value)),
            },
        },
{
    lemma_key_absent(n, 0, k, key, None);
    if let Ok(value) = n.entries[k].text {
        lemma_key_absent(n, k + 1, n.entries.len() as int, key, Some(value));
    }
}

/// A key that is given a text twice is an error, in one attribute and in several.
pub proof fn law_keys_are_given_once(n: NestedView, key: Seq<char>, k: int, found: Option<Seq<char>>)
    requires
        0 <= k < n.entries.len(),
        n.entries[k].key == Some(key),
        n.entries[k].text is Ok,
        forall|j: int| 0 <= j < k && found is Some ==> (#[trigger] n.entries[j]).key != Some(key),
        found is None ==> exists|j: int|
            0 <= j < k && (#[trigger] n.entries[j]).key == Some(key) && n.entries[j].text is Ok
                && forall|l: int|
                0 <= l < k && l != j ==> (#[trigger] n.entries[l]).key != Some(key),
    ensures
        naming::value_in(n, 0, key, found) == Err::<Option<Seq<char>>, Seq<char>>(
            "duplicate `"@ + key + "` attribute"@,
        ),
{
    if found is Some {
        lemma_key_absent(n, 0, k, key, found);
    } else {
        let j = choose|j: int|
            0 <= j < k && (#[trigger] n.entries[j]).key == Some(key) && n.entries[j].text is Ok
                && forall|l: int|
                0 <= l < k && l != j ==> (#[trigger] n.entries[l]).key != Some(key);
        lemma_key_absent(n, 0, j, key, found);
        lemma_key_absent(n, j + 1, k, key, Some(n.entries[j].text->Ok_0));
    }
}

proof fn lemma_value_step(attrs: Seq<AttributeView>, i: int, key: Seq<char>, found: Option<Seq<char>>)
    requires
        0 <= i < attrs.len(),
    ensures
        naming::value_of(attrs, i, key, found) == match naming::value_of(
            seq![attrs[i]],
            0,
            key,
            found,
        ) {
            Ok(next) => naming::value_of(attrs, i + 1, key, next),
            Err(message) => Err(message),
        },
{
    reveal_with_fuel(naming::value_of, 2);
}

proof fn lemma_value_shifted(
    first: Seq<AttributeView>,
    second: Seq<AttributeView>,
    i: int,
    key: Seq<char>,
    found: Option<Seq<char>>,
)
    requires
        0 <= i <= second.len(),
    ensures
        naming::value_of(first + second, first.len() + i, key, found) == naming::value_of(
            second,
            i,
            key,
            found,
        ),
    decreases second.len() - i,
{
    if i < second.len() {
        assert((first + second)[first.len() + i] == second[i]);
        lemma_value_step(first + second, first.len() + i, key, found);
        lemma_value_step(second, i, key, found);
        if let Ok(next) = naming::value_of(seq![second[i]], 0, key, found) {
            lemma_value_shifted(first, second, i + 1, key, next);
        }
    }
}

proof fn lemma_value_split(
    first: Seq<AttributeView>,
    second: Seq<AttributeView>,
    i: int,
    key: Seq<char>,
    found: Option<Seq<char>>,
)
    requires
        0 <= i <= first.len(),
    ensures
        naming::value_of(first + second, i, key, found) == match naming::value_of(
            first,
            i,
            key,
            found,
        ) {
            Ok(next) => naming::value_of(second, 0, key, next),
            Err(message) => Err(message),
        },
    decreases first.len() - i,
{
    if i < first.len() {
        assert((first + second)[i] == first[i]);
        lemma_value_step(first + second, i, key, found);
        lemma_value_step(first, i, key, found);
        if let Ok(next) = naming::value_of(seq![first[i]], 0, key, found) {
            lemma_value_split(first, second, i + 1, key, next);
        }
    } else {
        lemma_value_shifted(first, second, 0, key, found);
    }
}

/// The attributes of an item are looked through in their order. Only `zlink` attributes count, and
/// those have to have arguments in parentheses.
pub proof fn law_attributes_are_looked_through_in_order(
    first: Seq<AttributeView>,
    second: Seq<AttributeView>,
    one: AttributeView,
    key: Seq<char>,
    found: Option<Seq<char>>,
)
    ensures
        naming::value_of(first + second, 0, key, found) == match naming::value_of(
            first,
            0,
            key,
            found,
        ) {
            Ok(next) => naming::value_of(second, 0, key, next),
            Err(message) => Err(message),
        },
        naming::value_of(seq![], 0, key, found) == Ok::<Option<Seq<char>>, Seq<char>>(found),
        one.path != Some("zlink"@) ==> naming::value_of(seq![one], 0, key, found) == Ok::<
            Option<Seq<char>>,
            Seq<char>,
        >(found),
        one.path == Some("zlink"@) ==> naming::value_of(seq![one], 0, key, found) == match one.args {
            AttributeArgsView::List(source) => naming::value_in(
                nested::nested_of(tokens::tokens_of(source)),
                0,
                key,
                found,
            ),
            AttributeArgsView::Absent => Err::<Option<Seq<char>>, Seq<char>>(
                "expected attribute arguments in parentheses: #[zlink(...)]"@,
            ),
            AttributeArgsView::Value => Err("expected parentheses: #[zlink(...)]"@),
        },
{
    lemma_value_split(first, second, 0, key, found);
    reveal_with_fuel(naming::value_of, 2);
}

/// The convention of an item is the one whose name `rename_all` is given; a text that is no such name
/// is an error that says what would be one.
pub proof fn law_rename_all_is_a_convention(attrs: Seq<AttributeView>, rule: RenameAll)
    ensures
        ({
            let given = naming::value_of(attrs, 0, "rename_all"@, None);
            &&& given == Ok::<Option<Seq<char>>, Seq<char>>(Some(convention_name(rule)))
                <==> naming::rename_all_of(attrs) == Ok::<Option<RenameAll>, Seq<char>>(Some(rule))
            &&& given == Ok::<Option<Seq<char>>, Seq<char>>(None)
                <==> naming::rename_all_of(attrs) == Ok::<Option<RenameAll>, Seq<char>>(None)
            &&& given matches Err(message) ==> naming::rename_all_of(attrs) == Err::<
                Option<RenameAll>,
                Seq<char>,
            >(message)
            &&& given matches Ok(Some(name)) ==> (forall|rule: RenameAll|
                name != #[trigger] convention_name(rule)) ==> naming::rename_all_of(attrs) == Err::<
                Option<RenameAll>,
                Seq<char>,
            >(
                "unknown `rename_all` value `"@ + name
                    + "`, expected one of: lowercase, UPPERCASE, PascalCase, camelCase, snake_case, SCREAMING_SNAKE_CASE, kebab-case, SCREAMING-KEBAB-CASE"@,
            )
        }),
{
    let given = naming::value_of(attrs, 0, "rename_all"@, None);
    if let Ok(Some(name)) = given {
        law_conventions_are_found_by_their_names(name, rule);
        if let Some(found) = naming::rule_of(name) {
            law_conventions_are_found_by_their_names(name, found);
        }
    }
}

/// A name that `rename` gives wins over the convention, and that over the identifier; a `rename` that
/// is wrong is the error.
pub proof fn law_renaming_wins(
    name: Seq<char>,
    ident: Seq<char>,
    rule: RenameAll,
    under: Option<Seq<char>>,
    message: Seq<char>,
)
    ensures
        naming::resolved(Ok(Some(name)), ident, under) == Ok::<Seq<char>, Seq<char>>(name),
        naming::resolved(Err(message), ident, under) == Err::<Seq<char>, Seq<char>>(message),
        naming::resolved(Ok(None), ident, naming::field_under(Some(rule), ident)) == Ok::<
            Seq<char>,
            Seq<char>,
        >(naming::field_form(rule, ident)),
        naming::resolved(Ok(None), ident, naming::variant_under(Some(rule), ident)) == Ok::<
            Seq<char>,
            Seq<char>,
        >(naming::variant_form(rule, ident)),
        naming::resolved(Ok(None), ident, naming::field_under(None, ident)) == Ok::<
            Seq<char>,
            Seq<char>,
        >(ident),
        naming::resolved(Ok(None), ident, naming::variant_under(None, ident)) == Ok::<
            Seq<char>,
            Seq<char>,
        >(ident),
{
}

/// Tokens are printed in their order, with a space between two of them unless the first is joined to
/// what follows.
pub proof fn law_tokens_are_printed_in_order(first: Seq<PieceView>, second: Seq<PieceView>)
    ensures
        first.len() > 0 && second.len() > 0 ==> tokens::joined(first + second) == tokens::joined(
            first,
        ) + (if first.last().joint {
            seq![]
        } else {
            " "@
        }) + tokens::joined(second),
        first.len() == 0 ==> tokens::joined(first).len() == 0,
        first.len() == 1 ==> tokens::joined(first) == first[0].text,
    decreases second.len(),
{
    if first.len() > 0 && second.len() > 0 {
        let all = first + second;
        let before = second.drop_last();
        law_tokens_are_printed_in_order(first, before);
        assert(all.drop_last() =~= first + before);
        assert(all.last() == second.last());
        if second.len() == 1 {
            assert(first + before =~= first);
            assert(all[all.len() - 2] == first.last());
            assert(tokens::joined(second) == second[0].text);
        } else {
            assert(all[all.len() - 2] == second[second.len() - 2]);
        }
        let gap = if first.last().joint {
            seq![]
        } else {
            " "@
        };
        assert(tokens::joined(all) =~= tokens::joined(first) + gap + tokens::joined(second));
    }
}

/// Identifiers and literals are printed as they are, marks as the character that they are, and groups
/// in their brackets.
pub proof fn law_tokens_are_printed_as_they_are(
    name: Seq<char>,
    c: char,
    joint: bool,
    inner: Seq<char>,
)
    ensures
        tokens::piece_of(TokenView::Ident(name)) == (PieceView { text: name, joint: false }),
        tokens::piece_of(TokenView::Literal(name)) == (PieceView { text: name, joint: false }),
        tokens::piece_of(TokenView::Punct(c, joint)) == (PieceView { text: seq![c], joint }),
        tokens::piece_of(TokenView::Group(Brackets::Round, inner)) == (PieceView {
            text: "("@ + inner + ")"@,
            joint: false,
        }),
        tokens::piece_of(TokenView::Group(Brackets::Square, inner)) == (PieceView {
            text: "["@ + inner + "]"@,
            joint: false,
        }),
        tokens::piece_of(TokenView::Group(Brackets::Curly, inner)) == (PieceView {
            text: "{ "@ + inner + " }"@,
            joint: false,
        }),
        tokens::piece_of(TokenView::Group(Brackets::Unwritten, inner)) == (PieceView {
            text: inner,
            joint: false,
        }),
{
}

/// Whether the token at `i` is the mark `c`.
pub open spec fn is_mark(ts: Seq<TokenView>, i: int, c: char) -> bool {
    0 <= i < ts.len() && (ts[i] == TokenView::Punct(c, true) || ts[i] == TokenView::Punct(c, false))
}

/// A key, an equals sign and a literal are one entry, which has the string of the literal for its text
/// and no list; the next begins behind the comma.
pub proof fn law_literals_are_texts(ts: Seq<TokenView>, i: int, before: Seq<EntryView>, key: KeyView)
    requires
        0 <= i < ts.len(),
        nested::key_of(tokens::printed(ts, i, ts.len() as int)) == Ok::<Option<KeyView>, Seq<char>>(
            Some(key),
        ),
        key.behind >= 2,
        i < ts.len() - key.behind,
        is_mark(ts, ts.len() - key.behind, '='),
        ts[ts.len() - key.behind + 1] is Literal,
        key.behind == 2 || is_mark(ts, ts.len() - key.behind + 2, ','),
        nested::expr_of(
            tokens::printed(ts, ts.len() - key.behind + 1, ts.len() - key.behind + 2),
        ) is Ok,
    ensures
        ({
            let j = ts.len() - key.behind;
            let entry = EntryView {
                key: key.ident,
                text: nested::string_of(tokens::printed(ts, j + 1, j + 2)),
                list: Err("expected square brackets"@),
            };
            nested::nested_from(ts, i, before) == nested::nested_from(
                ts,
                if key.behind == 2 {
                    ts.len() as int
                } else {
                    j + 3
                },
                before.push(entry),
            )
        }),
{
    let j = ts.len() - key.behind;
    assert(!tokens::punct_at(ts, j + 1, ','));
    reveal_with_fuel(nested::expr_end, 3);
    assert(nested::expr_end(ts, j + 1, j + 1) == nested::expr_end(ts, j + 1, j + 2));
    assert(nested::value_end(ts, j) == Ok::<int, Seq<char>>(j + 2));
}

/// A key, an equals sign and square brackets are one entry, which has what is in the brackets for its
/// list; the next begins behind the comma.
pub proof fn law_brackets_are_lists(
    ts: Seq<TokenView>,
    i: int,
    before: Seq<EntryView>,
    key: KeyView,
    inner: Seq<char>,
)
    requires
        0 <= i < ts.len(),
        nested::key_of(tokens::printed(ts, i, ts.len() as int)) == Ok::<Option<KeyView>, Seq<char>>(
            Some(key),
        ),
        key.behind >= 2,
        i < ts.len() - key.behind,
        is_mark(ts, ts.len() - key.behind, '='),
        ts[ts.len() - key.behind + 1] == TokenView::Group(Brackets::Square, inner),
        key.behind == 2 || is_mark(ts, ts.len() - key.behind + 2, ','),
    ensures
        ({
            let j = ts.len() - key.behind;
            let entry = EntryView {
                key: key.ident,
                text: nested::string_of(tokens::printed(ts, j + 1, j + 2)),
                list: Ok(inner),
            };
            nested::nested_from(ts, i, before) == nested::nested_from(
                ts,
                if key.behind == 2 {
                    ts.len() as int
                } else {
                    j + 3
                },
                before.push(entry),
            )
        }),
{
    let j = ts.len() - key.behind;
    assert(nested::value_end(ts, j) == Ok::<int, Seq<char>>(j + 2));
}

/// A key that stands alone is an entry that has neither a text nor a list; the next begins behind the
/// comma.
pub proof fn law_keys_may_stand_alone(
    ts: Seq<TokenView>,
    i: int,
    before: Seq<EntryView>,
    key: KeyView,
)
    requires
        0 <= i < ts.len(),
        nested::key_of(tokens::printed(ts, i, ts.len() as int)) == Ok::<Option<KeyView>, Seq<char>>(
            Some(key),
        ),
        i < ts.len() - key.behind,
        key.behind == 0 || is_mark(ts, ts.len() - key.behind, ','),
    ensures
        ({
            let entry = EntryView {
                key: key.ident,
                text: Err("expected `=`"@),
                list: Err("expected `=`"@),
            };
            nested::nested_from(ts, i, before) == nested::nested_from(
                ts,
                if key.behind == 0 {
                    ts.len() as int
                } else {
                    ts.len() - key.behind + 1
                },
                before.push(entry),
            )
        }),
{
    let j = ts.len() - key.behind;
    assert(nested::value_end(ts, j) == Ok::<int, Seq<char>>(j));
}

/// Where no key stands the entries end, and so they do at a wrong key, which is what is wrong; tokens
/// that are none are wrong as a whole.
pub proof fn law_entries_end_where_keys_end(
    ts: Seq<TokenView>,
    i: int,
    before: Seq<EntryView>,
    message: Seq<char>,
)
    requires
        0 <= i <= ts.len(),
    ensures
        i == ts.len() ==> nested::nested_from(ts, i, before) == (NestedView {
            entries: before,
            error: None,
        }),
        i < ts.len() && nested::key_of(tokens::printed(ts, i, ts.len() as int)) == Ok::<
            Option<KeyView>,
            Seq<char>,
        >(None) ==> nested::nested_from(ts, i, before) == (NestedView {
            entries: before,
            error: None,
        }),
        i < ts.len() && nested::key_of(tokens::printed(ts, i, ts.len() as int)) == Err::<
            Option<KeyView>,
            Seq<char>,
        >(message) ==> nested::nested_from(ts, i, before) == (NestedView {
            entries: before,
            error: Some(message),
        }),
        nested::nested_of(Err(message)).entries.len() == 0,
        nested::nested_of(Err(message)).error == Some(message),
        nested::nested_of(Ok(ts)) == nested::nested_from(ts, 0, seq![]),
{
}

/// An expression reaches to the first comma in front of which an expression ends, or to the end of the
/// tokens; where none ends there, what is wrong with it is the error.
pub proof fn law_expressions_reach_to_a_comma(ts: Seq<TokenView>, i: int, e: int, k: int)
    requires
        0 <= i <= e <= k <= ts.len(),
        forall|j: int|
            e <= j < k ==> !(#[trigger] is_mark(ts, j, ',') && nested::expr_of(
                tokens::printed(ts, i, j),
            ) is Ok),
        k < ts.len() ==> is_mark(ts, k, ',') && nested::expr_of(tokens::printed(ts, i, k)) is Ok,
    ensures
        k < ts.len() ==> nested::expr_end(ts, i, e) == Ok::<int, Seq<char>>(k),
        k == ts.len() ==> match nested::expr_of(tokens::printed(ts, i, ts.len() as int)) {
            Ok(_) => nested::expr_end(ts, i, e) == Ok::<int, Seq<char>>(ts.len() as int),
            Err(message) => nested::expr_end(ts, i, e) == Err::<int, Seq<char>>(message),
        },
    decreases k - e,
{
    if e < k {
        assert(!(is_mark(ts, e, ',') && nested::expr_of(tokens::printed(ts, i, e)) is Ok));
        law_expressions_reach_to_a_comma(ts, i, e + 1, k);
    }
}

/// What a key has behind it: brackets and nothing else behind an equals sign, an expression behind it,
/// brackets without it, or nothing.
pub proof fn law_values_end_behind_what_they_are(ts: Seq<TokenView>, j: int)
    requires
        0 <= j <= ts.len(),
    ensures
        is_mark(ts, j, '=') && j + 1 < ts.len() && ts[j + 1] is Group && (j + 2 == ts.len()
            || is_mark(ts, j + 2, ',')) ==> nested::value_end(ts, j) == Ok::<int, Seq<char>>(j + 2),
        is_mark(ts, j, '=') && !(j + 1 < ts.len() && ts[j + 1] is Group && (j + 2 == ts.len()
            || is_mark(ts, j + 2, ','))) ==> nested::value_end(ts, j) == nested::expr_end(
            ts,
            j + 1,
            j + 1,
        ),
        j < ts.len() && ts[j] is Group ==> nested::value_end(ts, j) == Ok::<int, Seq<char>>(j + 1),
        !is_mark(ts, j, '=') && !(j < ts.len() && ts[j] is Group) ==> nested::value_end(ts, j)
            == Ok::<int, Seq<char>>(j),
{
}

/// Behind an entry stands a comma or nothing; anything else is an error.
pub proof fn law_entries_have_commas_between_them(ts: Seq<TokenView>, j: int, e: int)
    requires
        nested::value_end(ts, j) == Ok::<int, Seq<char>>(e),
        0 <= e <= ts.len(),
    ensures
        nested::next_entry(ts, j) == if e == ts.len() {
            Ok::<int, Seq<char>>(ts.len() as int)
        } else if is_mark(ts, e, ',') {
            Ok(e + 1)
        } else {
            Err("expected `,`"@)
        },
{
}

/// A text is given by an equals sign and a string with nothing behind it but a comma, a list by an
/// equals sign and square brackets with nothing behind them but a comma; what is missing is the error.
pub proof fn law_texts_and_lists_stand_alone(
    ts: Seq<TokenView>,
    j: int,
    literal: Result<Seq<char>, Seq<char>>,
)
    requires
        0 <= j <= ts.len(),
    ensures
        !is_mark(ts, j, '=') ==> nested::text_behind(ts, j, literal) == Err::<
            Seq<char>,
            Seq<char>,
        >("expected `=`"@) && nested::list_behind(ts, j) == Err::<Seq<char>, Seq<char>>(
            "expected `=`"@,
        ),
        is_mark(ts, j, '=') && (j + 2 >= ts.len() || is_mark(ts, j + 2, ','))
            ==> nested::text_behind(ts, j, literal) == literal,
        is_mark(ts, j, '=') && literal is Err ==> nested::text_behind(ts, j, literal) == literal,
        is_mark(ts, j, '=') && literal is Ok && j + 2 < ts.len() && !is_mark(ts, j + 2, ',')
            ==> nested::text_behind(ts, j, literal) == Err::<Seq<char>, Seq<char>>(
            "expected `,`"@,
        ),
        is_mark(ts, j, '=') && j + 1 == ts.len() ==> nested::list_behind(ts, j) == Err::<
            Seq<char>,
            Seq<char>,
        >("unexpected end of input, expected square brackets"@),
        is_mark(ts, j, '=') && j + 1 < ts.len() ==> match ts[j + 1] {
            TokenView::Group(Brackets::Square, inner) => if j + 2 == ts.len() || is_mark(
                ts,
                j + 2,
                ',',
            ) {
                nested::list_behind(ts, j) == Ok::<Seq<char>, Seq<char>>(inner)
            } else {
                nested::list_behind(ts, j) == Err::<Seq<char>, Seq<char>>("expected `,`"@)
            },
            _ => nested::list_behind(ts, j) == Err::<Seq<char>, Seq<char>>(
                "expected square brackets"@,
            ),
        },
{
}

/// A key ends where as many tokens are left as are said to stand behind it, and it takes one at least.
pub proof fn law_keys_take_a_token(ts: Seq<TokenView>, i: int, behind: usize)
    requires
        0 <= i < ts.len(),
    ensures
        i < ts.len() - behind ==> nested::key_end(ts, i, behind) == ts.len() - behind,
        i >= ts.len() - behind ==> nested::key_end(ts, i, behind) == i + 1,
        i < nested::key_end(ts, i, behind) <= ts.len(),
{
}

/// The models of entries, attributes and tokens show what these hold, part by part.
pub proof fn law_models_of_attributes_show_their_parts(
    entry: Entry,
    n: Nested,
    attribute: Attribute,
    item: MetaItem,
    token: Token,
    piece: Piece,
)
    ensures
        entry@.key == text::optional(entry.key),
        entry@.text is Ok <==> entry.text is Ok,
        entry.text matches Ok(value) ==> entry@.text->Ok_0 == value@,
        entry.text matches Err(message) ==> entry@.text->Err_0 == message@,
        entry@.list is Ok <==> entry.list is Ok,
        entry.list matches Ok(value) ==> entry@.list->Ok_0 == value@,
        entry.list matches Err(message) ==> entry@.list->Err_0 == message@,
        n@.error == text::optional(n.error),
        n@.entries.len() == n.entries@.len(),
        forall|k: int| 0 <= k < n.entries@.len() ==> #[trigger] n@.entries[k] == n.entries@[k]@,
        attribute@.path == text::optional(attribute.path),
        attribute.args is Absent <==> attribute@.args is Absent,
        attribute.args is Value <==> attribute@.args is Value,
        attribute.args matches AttributeArgs::List(tokens) ==> attribute@.args
            == AttributeArgsView::List(tokens@),
        item@.path == text::optional(item.path),
        item.form is Path <==> item@.form is Path,
        item.form is List <==> item@.form is List,
        item.form matches MetaForm::NameValue(MetaValue::Text(value)) ==> item@.form
            == MetaFormView::NameValue(MetaValueView::Text(value@)),
        item.form matches MetaForm::NameValue(MetaValue::Other) ==> item@.form
            == MetaFormView::NameValue(MetaValueView::Other),
        token matches Token::Ident(name) ==> token@ == TokenView::Ident(name@),
        token matches Token::Literal(written) ==> token@ == TokenView::Literal(written@),
        token matches Token::Punct(c, joint) ==> token@ == TokenView::Punct(c, joint),
        token matches Token::Group(brackets, inner) ==> token@ == TokenView::Group(
            brackets,
            inner@,
        ),
        piece@.text == piece.text@,
        piece@.joint == piece.joint,
{
}

} // verus!
