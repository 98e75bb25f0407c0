//! The names that fields and variants carry in interface descriptions and on the wire.

use vstd::prelude::*;

use super::meta;
use super::meta::{Attribute, AttributeArgs, AttributeArgsView, AttributeView};
use super::nested;
use super::nested::{read_entries, EntryView, Nested, NestedView};
use super::tokens;
use crate::introspect::str_eq;
use crate::text;
use crate::text::{replace, to_lower, to_lowered, to_upper, to_uppered};

verus! {

/// A case convention.
#[derive(Debug, Clone, Copy, PartialEq, Eq, Structural)]
pub enum RenameAll {
    /// `lowercase`
    Lower,
    /// `UPPERCASE`
    Upper,
    /// `PascalCase`
    Pascal,
    /// `camelCase`
    Camel,
    /// `snake_case`
    Snake,
    /// `SCREAMING_SNAKE_CASE`
    ScreamingSnake,
    /// `kebab-case`
    Kebab,
    /// `SCREAMING-KEBAB-CASE`
    ScreamingKebab,
}

/// The Pascal-case form of a snake-case name: the underscores go, and what followed one, or came
/// first, is put in upper case.
pub open spec fn pascal(s: Seq<char>) -> Seq<char>
    decreases s.len(),
{
    if s.len() == 0 {
        seq![]
    } else if s.last() == '_' {
        pascal(s.drop_last())
    } else if s.len() == 1 || s[s.len() - 2] == '_' {
        pascal(s.drop_last()).push(text::upper(s.last()))
    } else {
        pascal(s.drop_last()).push(s.last())
    }
}

/// A name with its first character in lower case.
pub open spec fn camel(s: Seq<char>) -> Seq<char> {
    if s.len() == 0 {
        s
    } else {
        seq![text::lower(s[0])] + s.drop_first()
    }
}

/// Whether a character is in upper case: of ASCII the letters `A` to `Z`, of the rest what Unicode
/// says.
pub open spec fn is_uppercase(c: char) -> bool {
    if c <= '\u{7f}' {
        'A' <= c <= 'Z'
    } else {
        unicode_uppercase(c)
    }
}

/// Whether Unicode says that a character is in upper case.
pub uninterp spec fn unicode_uppercase(c: char) -> bool;

/// Calls [`char::is_uppercase`], which goes by the Unicode property `Uppercase`: of the ASCII
/// characters `A` to `Z` have it.
#[verifier::external_body]
fn char_is_uppercase(c: char) -> (r: bool)
    ensures
        c <= '\u{7f}' ==> r == ('A' <= c <= 'Z'),
        c > '\u{7f}' ==> r == unicode_uppercase(c),
{
    c.is_uppercase()
}

/// The snake-case form of a Pascal-case name: an underscore in front of every character in upper
/// case but the first, and all in lower case.
pub open spec fn snake(s: Seq<char>) -> Seq<char>
    decreases s.len(),
{
    if s.len() == 0 {
        seq![]
    } else if s.len() > 1 && is_uppercase(s.last()) {
        snake(s.drop_last()).push('_').push(text::lower(s.last()))
    } else {
        snake(s.drop_last()).push(text::lower(s.last()))
    }
}

/// A field name under a convention.
pub open spec fn field_form(rule: RenameAll, s: Seq<char>) -> Seq<char> {
    match rule {
        RenameAll::Lower => s,
        RenameAll::Snake => s,
        RenameAll::Upper => text::uppered(s),
        RenameAll::ScreamingSnake => text::uppered(s),
        RenameAll::Pascal => pascal(s),
        RenameAll::Camel => camel(pascal(s)),
        RenameAll::Kebab => text::replaced(s, '_', '-'),
        RenameAll::ScreamingKebab => text::replaced(text::uppered(s), '_', '-'),
    }
}

/// A variant name under a convention.
pub open spec fn variant_form(rule: RenameAll, s: Seq<char>) -> Seq<char> {
    match rule {
        RenameAll::Pascal => s,
        RenameAll::Lower => text::lowered(s),
        RenameAll::Upper => text::uppered(s),
        RenameAll::Camel => camel(s),
        RenameAll::Snake => snake(s),
        RenameAll::ScreamingSnake => text::uppered(snake(s)),
        RenameAll::Kebab => text::replaced(snake(s), '_', '-'),
        RenameAll::ScreamingKebab => text::replaced(text::uppered(snake(s)), '_', '-'),
    }
}

/// The Pascal-case form of a snake-case name.
fn to_pascal(s: &str) -> (r: String)
    ensures
        r@ == pascal(s@),
{
    let mut out = String::new();
    let mut capitalize = true;
    assert(out@ =~= pascal(s@.take(0)));
    for c in it: s.chars()
        invariant
            it.seq() == s@,
            out@ == pascal(s@.take(it.index() as int)),
            capitalize == (it.index() == 0 || s@[it.index() - 1] == '_'),
    {
        proof {
            let next = s@.take(it.index() + 1);
            assert(next.drop_last() =~= s@.take(it.index() as int));
            assert(next.last() == c);
        }
        if c == '_' {
            capitalize = true;
        } else if capitalize {
            out.push(to_upper(c));
            capitalize = false;
        } else {
            out.push(c);
        }
    }
    assert(s@.take(s@.len() as int) =~= s@);
    out
}

/// A name with its first character in lower case.
fn to_camel(s: &str) -> (r: String)
    ensures
        r@ == camel(s@),
{
    let mut out = String::new();
    let mut first = true;
    assert(out@ =~= camel(s@.take(0)));
    for c in it: s.chars()
        invariant
            it.seq() == s@,
            first == (it.index() == 0),
            out@ == camel(s@.take(it.index() as int)),
    {
        if first {
            out.push(to_lower(c));
            first = false;
        } else {
            out.push(c);
        }
        assert(out@ =~= camel(s@.take(it.index() + 1)));
    }
    assert(s@.take(s@.len() as int) =~= s@);
    out
}

/// The snake-case form of a Pascal-case name.
fn to_snake(s: &str) -> (r: String)
    ensures
        r@ == snake(s@),
{
    let mut out = String::new();
    let mut first = true;
    assert(out@ =~= snake(s@.take(0)));
    for c in it: s.chars()
        invariant
            it.seq() == s@,
            first == (it.index() == 0),
            out@ == snake(s@.take(it.index() as int)),
    {
        proof {
            let next = s@.take(it.index() + 1);
            assert(next.drop_last() =~= s@.take(it.index() as int));
            assert(next.last() == c);
        }
        if !first && char_is_uppercase(c) {
            out.push('_');
        }
        out.push(to_lower(c));
        first = false;
    }
    assert(s@.take(s@.len() as int) =~= s@);
    out
}

impl RenameAll {
    /// A field name, which is in snake case, under the convention.
    pub fn apply_to_field(self, field: &str) -> (r: String)
        ensures
            r@ == field_form(self, field@),
    {
        match self {
            RenameAll::Lower => field.to_owned(),
            RenameAll::Snake => field.to_owned(),
            RenameAll::Upper => to_uppered(field),
            RenameAll::ScreamingSnake => to_uppered(field),
            RenameAll::Pascal => to_pascal(field),
            RenameAll::Camel => to_camel(to_pascal(field).as_str()),
            RenameAll::Kebab => replace(field, '_', '-'),
            RenameAll::ScreamingKebab => replace(to_uppered(field).as_str(), '_', '-'),
        }
    }

    /// A variant name, which is in Pascal case, under the convention.
    pub fn apply_to_variant(self, variant: &str) -> (r: String)
        ensures
            r@ == variant_form(self, variant@),
    {
        match self {
            RenameAll::Pascal => variant.to_owned(),
            RenameAll::Lower => to_lowered(variant),
            RenameAll::Upper => to_uppered(variant),
            RenameAll::Camel => to_camel(variant),
            RenameAll::Snake => to_snake(variant),
            RenameAll::ScreamingSnake => to_uppered(to_snake(variant).as_str()),
            RenameAll::Kebab => replace(to_snake(variant).as_str(), '_', '-'),
            RenameAll::ScreamingKebab => replace(
                to_uppered(to_snake(variant).as_str()).as_str(),
                '_',
                '-',
            ),
        }
    }

    /// The convention with a name.
    pub fn parse(name: &str) -> (r: Result<RenameAll, String>)
        ensures
            match r {
                Ok(rule) => rule_of(name@) == Some(rule),
                Err(e) => rule_of(name@) is None && e@ == unknown_rule(name@),
            },
    {
        if str_eq(name, "lowercase") {
            Ok(RenameAll::Lower)
        } else if str_eq(name, "UPPERCASE") {
            Ok(RenameAll::Upper)
        } else if str_eq(name, "PascalCase") {
            Ok(RenameAll::Pascal)
        } else if str_eq(name, "camelCase") {
            Ok(RenameAll::Camel)
        } else if str_eq(name, "snake_case") {
            Ok(RenameAll::Snake)
        } else if str_eq(name, "SCREAMING_SNAKE_CASE") {
            Ok(RenameAll::ScreamingSnake)
        } else if str_eq(name, "kebab-case") {
            Ok(RenameAll::Kebab)
        } else if str_eq(name, "SCREAMING-KEBAB-CASE") {
            Ok(RenameAll::ScreamingKebab)
        } else {
            let mut message = "unknown `rename_all` value `".to_string();
            message.append(name);
            message.append("`, expected one of: lowercase, UPPERCASE, PascalCase, camelCase, snake_case, SCREAMING_SNAKE_CASE, kebab-case, SCREAMING-KEBAB-CASE");
            Err(message)
        }
    }
}

/// The convention with a name.
pub open spec fn rule_of(name: Seq<char>) -> Option<RenameAll> {
    if name == "lowercase"@ {
        Some(RenameAll::Lower)
    } else if name == "UPPERCASE"@ {
        Some(RenameAll::Upper)
    } else if name == "PascalCase"@ {
        Some(RenameAll::Pascal)
    } else if name == "camelCase"@ {
        Some(RenameAll::Camel)
    } else if name == "snake_case"@ {
        Some(RenameAll::Snake)
    } else if name == "SCREAMING_SNAKE_CASE"@ {
        Some(RenameAll::ScreamingSnake)
    } else if name == "kebab-case"@ {
        Some(RenameAll::Kebab)
    } else if name == "SCREAMING-KEBAB-CASE"@ {
        Some(RenameAll::ScreamingKebab)
    } else {
        None
    }
}

/// What is said of a name that no convention has.
pub open spec fn unknown_rule(name: Seq<char>) -> Seq<char> {
    "unknown `rename_all` value `"@ + name
        + "`, expected one of: lowercase, UPPERCASE, PascalCase, camelCase, snake_case, SCREAMING_SNAKE_CASE, kebab-case, SCREAMING-KEBAB-CASE"@
}

/// The string that the entries from `i` on give to `key`, where those before them gave it `found`.
/// Only one may give it a string, and no other value may be given to it. Other keys do not count.
pub open spec fn value_in(
    nested: NestedView,
    i: int,
    key: Seq<char>,
    found: Option<Seq<char>>,
) -> Result<Option<Seq<char>>, Seq<char>>
    decreases nested.entries.len() - i,
{
    if 0 <= i < nested.entries.len() {
        if nested.entries[i].key != Some(key) {
            value_in(nested, i + 1, key, found)
        } else {
            match nested.entries[i].text {
                Err(message) => Err(message),
                Ok(value) => if found is Some {
                    Err("duplicate `"@ + key + "` attribute"@)
                } else {
                    value_in(nested, i + 1, key, Some(value))
                },
            }
        }
    } else {
        match nested.error {
            Some(message) => Err(message),
            None => Ok(found),
        }
    }
}

/// The string that the `zlink` attributes from `i` on give to `key`, where those before them gave
/// it `found`.
pub open spec fn value_of(
    attrs: Seq<AttributeView>,
    i: int,
    key: Seq<char>,
    found: Option<Seq<char>>,
) -> Result<Option<Seq<char>>, Seq<char>>
    decreases attrs.len() - i,
{
    if 0 <= i < attrs.len() {
        if attrs[i].path != Some("zlink"@) {
            value_of(attrs, i + 1, key, found)
        } else {
            match attrs[i].args {
                AttributeArgsView::Absent => Err(
                    "expected attribute arguments in parentheses: #[zlink(...)]"@,
                ),
                AttributeArgsView::Value => Err("expected parentheses: #[zlink(...)]"@),
                AttributeArgsView::List(source) => match value_in(
                    nested::nested_of(tokens::tokens_of(source)),
                    0,
                    key,
                    found,
                ) {
                    Err(message) => Err(message),
                    Ok(found) => value_of(attrs, i + 1, key, found),
                },
            }
        }
    } else {
        Ok(found)
    }
}

proof fn lemma_shifted(
    nested: NestedView,
    more: NestedView,
    i: int,
    key: Seq<char>,
    found: Option<Seq<char>>,
)
    requires
        0 <= i,
        more.error == nested.error,
        more.entries.len() == nested.entries.len() + 1,
        forall|k: int|
            i <= k < nested.entries.len() ==> more.entries[k + 1] == #[trigger] nested.entries[k],
    ensures
        value_in(more, i + 1, key, found) == value_in(nested, i, key, found),
    decreases nested.entries.len() - i,
{
    if i < nested.entries.len() {
        let entry = nested.entries[i];
        assert(more.entries[i + 1] == entry);
        lemma_shifted(nested, more, i + 1, key, found);
        if entry.text is Ok {
            lemma_shifted(nested, more, i + 1, key, Some(entry.text->Ok_0));
        }
    }
}

/// An entry with another key, wherever it stands, changes nothing about what `key` is given.
pub proof fn law_other_keys_do_not_count(
    nested: NestedView,
    entry: EntryView,
    n: int,
    i: int,
    key: Seq<char>,
    found: Option<Seq<char>>,
)
    requires
        0 <= i <= n <= nested.entries.len(),
        entry.key != Some(key),
    ensures
        value_in(
            (NestedView { entries: nested.entries.insert(n, entry), ..nested }),
            i,
            key,
            found,
        ) == value_in(nested, i, key, found),
    decreases n - i,
{
    let more = NestedView { entries: nested.entries.insert(n, entry), ..nested };
    if i == n {
        assert(more.entries[n] == entry);
        lemma_shifted(nested, more, n, key, found);
    } else {
        let here = nested.entries[i];
        assert(more.entries[i] == here);
        law_other_keys_do_not_count(nested, entry, n, i + 1, key, found);
        if here.text is Ok {
            law_other_keys_do_not_count(
                nested,
                entry,
                n,
                i + 1,
                key,
                Some(here.text->Ok_0),
            );
        }
    }
}

/// What a result of texts says.
pub open spec fn result_view(r: Result<Option<String>, String>) -> Result<
    Option<Seq<char>>,
    Seq<char>,
> {
    match r {
        Ok(value) => Ok(text::optional(value)),
        Err(message) => Err(message@),
    }
}

/// The string that the entries of an attribute give to `key`, where earlier ones gave it `found`.
pub fn lit_str_in(nested: Nested, key: &str, found: Option<String>) -> (r: Result<
    Option<String>,
    String,
>)
    ensures
        result_view(r) == value_in(nested@, 0, key@, text::optional(found)),
{
    let ghost all = nested@;
    let error = nested.error;
    let entries = nested.entries;
    let mut result: Option<String> = found;
    for entry in it: entries
        invariant
            it.seq() == entries@,
            all == nested@,
            all.entries == nested::entries_view(entries@),
            value_in(all, 0, key@, text::optional(found)) == value_in(
                all,
                it.index() as int,
                key@,
                text::optional(result),
            ),
    {
        assert(all.entries[it.index() as int] == entry@);
        if meta::is_ident(&entry.key, key) {
            match entry.text {
                Err(message) => {
                    return Err(message);
                },
                Ok(value) => {
                    if result.is_some() {
                        let mut message = "duplicate `".to_string();
                        message.append(key);
                        message.append("` attribute");
                        return Err(message);
                    }
                    result = Some(value);
                },
            }
        }
    }
    match error {
        Some(message) => Err(message),
        None => Ok(result),
    }
}

/// The string that the `zlink` attributes give to `key`.
pub fn parse_zlink_lit_str(attrs: &[Attribute], key: &str) -> (r: Result<Option<String>, String>)
    ensures
        result_view(r) == value_of(meta::attributes_view(attrs@), 0, key@, None),
{
    let ghost all = meta::attributes_view(attrs@);
    let mut result: Option<String> = None;
    let mut i: usize = 0;
    while i < attrs.len()
        invariant
            i <= attrs@.len(),
            all == meta::attributes_view(attrs@),
            value_of(all, 0, key@, None) == value_of(
                all,
                i as int,
                key@,
                text::optional(result),
            ),
        decreases attrs@.len() - i,
    {
        assert(all[i as int] == attrs@[i as int]@);
        if attrs[i].is_ident("zlink") {
            match &attrs[i].args {
                AttributeArgs::Absent => {
                    return Err(
                        "expected attribute arguments in parentheses: #[zlink(...)]".to_string(),
                    );
                },
                AttributeArgs::Value => {
                    return Err("expected parentheses: #[zlink(...)]".to_string());
                },
                AttributeArgs::List(source) => {
                    match lit_str_in(read_entries(source.as_str()), key, result) {
                        Err(message) => {
                            return Err(message);
                        },
                        Ok(value) => {
                            result = value;
                        },
                    }
                },
            }
        }
        i += 1;
    }
    Ok(result)
}

/// The string that `rename` is given.
pub fn parse_rename(attrs: &[Attribute]) -> (r: Result<Option<String>, String>)
    ensures
        result_view(r) == value_of(meta::attributes_view(attrs@), 0, "rename"@, None),
{
    parse_zlink_lit_str(attrs, "rename")
}

/// The convention that `rename_all` is given.
pub open spec fn rename_all_of(attrs: Seq<AttributeView>) -> Result<Option<RenameAll>, Seq<char>> {
    match value_of(attrs, 0, "rename_all"@, None) {
        Err(message) => Err(message),
        Ok(None) => Ok(None),
        Ok(Some(name)) => match rule_of(name) {
            Some(rule) => Ok(Some(rule)),
            None => Err(unknown_rule(name)),
        },
    }
}

/// The convention that `rename_all` is given.
pub fn parse_rename_all(attrs: &[Attribute]) -> (r: Result<Option<RenameAll>, String>)
    ensures
        match r {
            Ok(rule) => rename_all_of(meta::attributes_view(attrs@)) == Ok::<
                Option<RenameAll>,
                Seq<char>,
            >(rule),
            Err(e) => rename_all_of(meta::attributes_view(attrs@)) == Err::<
                Option<RenameAll>,
                Seq<char>,
            >(e@),
        },
{
    match parse_zlink_lit_str(attrs, "rename_all") {
        Err(message) => Err(message),
        Ok(None) => Ok(None),
        Ok(Some(name)) => match RenameAll::parse(name.as_str()) {
            Ok(rule) => Ok(Some(rule)),
            Err(message) => Err(message),
        },
    }
}

/// Rejects a `rename` that means nothing, with `msg`.
pub fn reject_container_rename(attrs: &[Attribute], msg: &str) -> (r: Result<(), String>)
    ensures
        match value_of(meta::attributes_view(attrs@), 0, "rename"@, None) {
            Err(message) => r matches Err(e) && e@ == message,
            Ok(Some(_)) => r matches Err(e) && e@ == msg@,
            Ok(None) => r is Ok,
        },
{
    match parse_rename(attrs) {
        Err(message) => Err(message),
        Ok(Some(_)) => Err(msg.to_string()),
        Ok(None) => Ok(()),
    }
}

/// What a name is put to: `rename` wins over the convention, which wins over the identifier.
pub open spec fn resolved(
    rename: Result<Option<Seq<char>>, Seq<char>>,
    plain: Seq<char>,
    under_rule: Option<Seq<char>>,
) -> Result<Seq<char>, Seq<char>> {
    match rename {
        Err(message) => Err(message),
        Ok(Some(name)) => Ok(name),
        Ok(None) => match under_rule {
            Some(name) => Ok(name),
            None => Ok(plain),
        },
    }
}

/// What a result of a text says.
pub open spec fn name_view(r: Result<String, String>) -> Result<Seq<char>, Seq<char>> {
    match r {
        Ok(name) => Ok(name@),
        Err(message) => Err(message@),
    }
}

/// The name of a field under a convention, if there is one.
pub open spec fn field_under(rule: Option<RenameAll>, ident: Seq<char>) -> Option<Seq<char>> {
    match rule {
        Some(rule) => Some(field_form(rule, ident)),
        None => None,
    }
}

/// The name of a variant under a convention, if there is one.
pub open spec fn variant_under(rule: Option<RenameAll>, ident: Seq<char>) -> Option<Seq<char>> {
    match rule {
        Some(rule) => Some(variant_form(rule, ident)),
        None => None,
    }
}

/// The name that a field carries.
pub fn field_name(attrs: &[Attribute], ident: &str, rename_all: Option<RenameAll>) -> (r: Result<
    String,
    String,
>)
    ensures
        name_view(r) == resolved(
            value_of(meta::attributes_view(attrs@), 0, "rename"@, None),
            ident@,
            field_under(rename_all, ident@),
        ),
{
    let under_rule = match rename_all {
        Some(rule) => Some(rule.apply_to_field(ident)),
        None => None,
    };
    resolve(parse_rename(attrs), ident, under_rule)
}

/// The name that a variant carries.
pub fn variant_name(attrs: &[Attribute], ident: &str, rename_all: Option<RenameAll>) -> (r: Result<
    String,
    String,
>)
    ensures
        name_view(r) == resolved(
            value_of(meta::attributes_view(attrs@), 0, "rename"@, None),
            ident@,
            variant_under(rename_all, ident@),
        ),
{
    let under_rule = match rename_all {
        Some(rule) => Some(rule.apply_to_variant(ident)),
        None => None,
    };
    resolve(parse_rename(attrs), ident, under_rule)
}

/// The name that an item with the identifier carries, given its `rename` and its name under the
/// convention.
pub fn resolve(
    rename: Result<Option<String>, String>,
    ident: &str,
    under_rule: Option<String>,
) -> (r: Result<String, String>)
    ensures
        name_view(r) == resolved(result_view(rename), ident@, text::optional(under_rule)),
{
    match rename {
        Err(message) => Err(message),
        Ok(Some(name)) => Ok(name),
        Ok(None) => match under_rule {
            Some(name) => Ok(name),
            None => Ok(ident.to_string()),
        },
    }
}

/// A snake-case name: lower-case letters, digits and underscores, with a letter in front and behind
/// each underscore.
pub open spec fn is_snake_name(s: Seq<char>) -> bool {
    &&& s.len() > 0
    &&& s.last() != '_'
    &&& is_snake_prefix(s)
}

/// What a snake-case name may start with.
pub open spec fn is_snake_prefix(s: Seq<char>) -> bool {
    &&& forall|k: int|
        0 <= k < s.len() ==> 'a' <= #[trigger] s[k] <= 'z' || '0' <= s[k] <= '9' || s[k] == '_'
    &&& s.len() > 0 ==> 'a' <= s[0] <= 'z'
    &&& forall|k: int|
        0 < k < s.len() && s[k - 1] == '_' ==> 'a' <= #[trigger] s[k] <= 'z'
}

proof fn lemma_pascal_not_empty(s: Seq<char>)
    requires
        s.len() > 0,
        s[0] != '_',
    ensures
        pascal(s).len() > 0,
    decreases s.len(),
{
    if s.len() > 1 {
        lemma_pascal_not_empty(s.drop_last());
    }
}

proof fn lemma_snake_of_pascal(s: Seq<char>)
    requires
        s.len() > 0,
        is_snake_prefix(s),
    ensures
        snake(pascal(s)) == if s.last() == '_' {
            s.drop_last()
        } else {
            s
        },
    decreases s.len(),
{
    let before = s.drop_last();
    assert(is_snake_prefix(before)) by {
        assert forall|k: int| 0 < k < before.len() && before[k - 1] == '_' implies 'a'
            <= #[trigger] before[k] <= 'z' by {
            assert(s[k - 1] == '_');
            assert('a' <= s[k] <= 'z');
        }
    }
    let c = s.last();
    if s.len() == 1 {
        assert(pascal(before) =~= seq![]);
        assert(pascal(s) =~= seq![text::upper(c)]);
        assert(pascal(s).drop_last() =~= seq![]);
        assert(snake(pascal(s).drop_last()) =~= seq![]);
        assert(s[0] == c);
        assert(pascal(s).last() == text::upper(c));
        assert(snake(pascal(s)) =~= s);
    } else {
        lemma_snake_of_pascal(before);
        lemma_pascal_not_empty(before);
        if c == '_' {
            assert(before.last() != '_') by {
                if before.last() == '_' {
                    assert(s[s.len() - 2] == '_');
                    assert('a' <= s[s.len() - 1] <= 'z');
                }
            }
        } else if before.last() == '_' {
            assert(s[s.len() - 2] == '_');
            assert('a' <= s[s.len() - 1] <= 'z');
            assert(pascal(s).drop_last() =~= pascal(before));
            assert(snake(pascal(s)) == snake(pascal(before)).push('_').push(c));
            assert(before.drop_last().push('_').push(c) =~= s);
        } else {
            assert(s[s.len() - 2] != '_');
            assert(s[s.len() - 1] == c);
            assert(pascal(s).drop_last() =~= pascal(before));
            assert(snake(pascal(s)) == snake(pascal(before)).push(c));
            assert(before.push(c) =~= s);
        }
    }
}

/// The snake-case form of a variant undoes the Pascal-case form of a field.
pub proof fn law_snake_undoes_pascal(s: Seq<char>)
    requires
        is_snake_name(s),
    ensures
        variant_form(RenameAll::Snake, field_form(RenameAll::Pascal, s)) == s,
{
    lemma_snake_of_pascal(s);
}

proof fn lemma_pascal_has_no_underscore(s: Seq<char>)
    ensures
        !pascal(s).contains('_'),
    decreases s.len(),
{
    if s.len() > 0 {
        lemma_pascal_has_no_underscore(s.drop_last());
        let before = pascal(s.drop_last());
        let all = pascal(s);
        assert forall|k: int| 0 <= k < all.len() implies all[k] != '_' by {
            if k < before.len() {
                assert(all[k] == before[k]);
                assert(before.contains(before[k]));
            }
        }
    }
}

/// No underscore is left in a name under the conventions that have none.
pub proof fn law_conventions_without_underscores(s: Seq<char>)
    ensures
        !field_form(RenameAll::Pascal, s).contains('_'),
        !field_form(RenameAll::Camel, s).contains('_'),
        !field_form(RenameAll::Kebab, s).contains('_'),
        !field_form(RenameAll::ScreamingKebab, s).contains('_'),
        !variant_form(RenameAll::Kebab, s).contains('_'),
        !variant_form(RenameAll::ScreamingKebab, s).contains('_'),
{
    lemma_pascal_has_no_underscore(s);
    let p = pascal(s);
    assert forall|k: int| 0 <= k < p.len() implies p[k] != '_' by {
        assert(p.contains(p[k]));
    }
    let c = camel(p);
    assert forall|k: int| 0 <= k < c.len() implies c[k] != '_' by {
        if k > 0 {
            assert(c[k] == p[k]);
        }
    }
}

/// Every convention has a name.
pub proof fn law_every_convention_has_a_name(rule: RenameAll)
    ensures
        exists|name: Seq<char>| rule_of(name) == Some(rule),
{
    reveal_strlit("lowercase");
    reveal_strlit("UPPERCASE");
    reveal_strlit("PascalCase");
    reveal_strlit("camelCase");
    reveal_strlit("snake_case");
    reveal_strlit("SCREAMING_SNAKE_CASE");
    reveal_strlit("kebab-case");
    reveal_strlit("SCREAMING-KEBAB-CASE");
    let name = match rule {
        RenameAll::Lower => "lowercase"@,
        RenameAll::Upper => "UPPERCASE"@,
        RenameAll::Pascal => "PascalCase"@,
        RenameAll::Camel => "camelCase"@,
        RenameAll::Snake => "snake_case"@,
        RenameAll::ScreamingSnake => "SCREAMING_SNAKE_CASE"@,
        RenameAll::Kebab => "kebab-case"@,
        RenameAll::ScreamingKebab => "SCREAMING-KEBAB-CASE"@,
    };
    assert(name[0] == match rule {
        RenameAll::Lower => 'l',
        RenameAll::Upper => 'U',
        RenameAll::Pascal => 'P',
        RenameAll::Camel => 'c',
        RenameAll::Snake => 's',
        RenameAll::ScreamingSnake => 'S',
        RenameAll::Kebab => 'k',
        RenameAll::ScreamingKebab => 'S',
    });
    assert(rule is ScreamingKebab ==> name[9] == '-');
    assert("SCREAMING_SNAKE_CASE"@[9] == '_');
    assert(rule_of(name) == Some(rule));
}

} // verus!
