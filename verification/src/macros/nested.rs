//! The entries in the brackets of attributes, where each key decides what may stand behind it.
//!
//! An entry is a key and what stands behind it; commas part the entries. It is read once as what a key
//! with a string has, once as what a key with a list has, and once as what is passed over.

use vstd::prelude::*;

use proc_macro2::{Ident, TokenStream};
use syn::parse::Parser;
use syn::{Expr, LitStr};

use crate::macros::tokens;
use crate::macros::tokens::{is_punct, parse_tokens, print_range, Brackets, Token, TokenView};
use crate::text;

verus! {

/// A key that a text starts with.
#[derive(Debug)]
pub struct Key {
    /// The key, where it is a single identifier.
    pub ident: Option<String>,
    /// How many tokens stand behind it.
    pub behind: usize,
}

/// The model of a [`Key`].
pub struct KeyView {
    /// The key, where it is a single identifier.
    pub ident: Option<Seq<char>>,
    /// How many tokens stand behind it.
    pub behind: usize,
}

impl View for Key {
    type V = KeyView;

    open spec fn view(&self) -> KeyView {
        KeyView { ident: text::optional(self.ident), behind: self.behind }
    }
}

/// What an optional key is.
pub open spec fn optional_key(key: Option<Key>) -> Option<KeyView> {
    match key {
        Some(key) => Some(key@),
        None => None,
    }
}

/// The key that a text starts with, or what is wrong with it. There is none in a text without tokens.
pub uninterp spec fn key_of(source: Seq<char>) -> Result<Option<KeyView>, Seq<char>>;

/// Calls [`syn::meta::parser`], which reads a key that may be any identifier, keywords among them, and
/// takes all that stands behind it for its value. proc_macro2's own implementation of tokens, which
/// [`proc_macro2::fallback::force`] puts in use, makes the result depend on the text alone.
#[verifier::external_body]
fn read_key(source: &str) -> (r: Result<Option<Key>, String>)
    ensures
        match r {
            Ok(key) => key_of(source@) == Ok::<Option<KeyView>, Seq<char>>(optional_key(key)),
            Err(message) => key_of(source@) == Err::<Option<KeyView>, Seq<char>>(message@),
        },
{
    proc_macro2::fallback::force();
    let mut key = None;
    let reader = syn::meta::parser(|meta| {
        let ident = meta.path.get_ident().map(Ident::to_string);
        let behind = meta.input.parse::<TokenStream>()?.into_iter().count();
        key = Some(Key { ident, behind });
        Ok(())
    });
    reader.parse_str(source).map_err(|e| e.to_string())?;
    Ok(key)
}

/// What a string literal says, or what is wrong with it.
pub uninterp spec fn string_of(source: Seq<char>) -> Result<Seq<char>, Seq<char>>;

/// Calls [`syn::parse_str`] for a string literal, and [`syn::LitStr::value`], with proc_macro2's own
/// implementation of tokens, which [`proc_macro2::fallback::force`] puts in use: with it the result
/// depends on the text alone.
#[verifier::external_body]
fn read_string(source: &str) -> (r: Result<String, String>)
    ensures
        match r {
            Ok(value) => string_of(source@) == Ok::<Seq<char>, Seq<char>>(value@),
            Err(message) => string_of(source@) == Err::<Seq<char>, Seq<char>>(message@),
        },
{
    proc_macro2::fallback::force();
    syn::parse_str::<LitStr>(source).map(|s| s.value()).map_err(|e| e.to_string())
}

/// Whether a text is an expression, or what is wrong with it.
pub uninterp spec fn expr_of(source: Seq<char>) -> Result<(), Seq<char>>;

/// Calls [`syn::parse_str`] for an expression, with proc_macro2's own implementation of tokens, which
/// [`proc_macro2::fallback::force`] puts in use: with it the result depends on the text alone.
#[verifier::external_body]
fn read_expr(source: &str) -> (r: Result<(), String>)
    ensures
        match r {
            Ok(_) => expr_of(source@) == Ok::<(), Seq<char>>(()),
            Err(message) => expr_of(source@) == Err::<(), Seq<char>>(message@),
        },
{
    proc_macro2::fallback::force();
    syn::parse_str::<Expr>(source).map(|_| ()).map_err(|e| e.to_string())
}

/// An entry.
#[derive(Debug)]
pub struct Entry {
    /// The key, where it is a single identifier.
    pub key: Option<String>,
    /// The string that is given to it, or what is wrong with what stands there.
    pub text: Result<String, String>,
    /// The tokens in the square brackets that are given to it, or what is wrong with what stands
    /// there.
    pub list: Result<String, String>,
}

/// The model of an [`Entry`].
pub struct EntryView {
    /// The key, where it is a single identifier.
    pub key: Option<Seq<char>>,
    /// The string that is given to it.
    pub text: Result<Seq<char>, Seq<char>>,
    /// The tokens in the square brackets that are given to it.
    pub list: Result<Seq<char>, Seq<char>>,
}

/// What a result says.
pub open spec fn result_view(r: Result<String, String>) -> Result<Seq<char>, Seq<char>> {
    match r {
        Ok(value) => Ok(value@),
        Err(message) => Err(message@),
    }
}

impl View for Entry {
    type V = EntryView;

    open spec fn view(&self) -> EntryView {
        EntryView {
            key: text::optional(self.key),
            text: result_view(self.text),
            list: result_view(self.list),
        }
    }
}

/// What a list of entries says.
pub open spec fn entries_view(entries: Seq<Entry>) -> Seq<EntryView> {
    Seq::new(entries.len(), |i: int| entries[i]@)
}

/// Entries, and what is wrong with what stands behind their keys or behind the last of them.
#[derive(Debug)]
pub struct Nested {
    /// The entries.
    pub entries: Vec<Entry>,
    /// What is wrong, where something is.
    pub error: Option<String>,
}

/// The model of a [`Nested`].
pub struct NestedView {
    /// The entries.
    pub entries: Seq<EntryView>,
    /// What is wrong, where something is.
    pub error: Option<Seq<char>>,
}

impl View for Nested {
    type V = NestedView;

    open spec fn view(&self) -> NestedView {
        NestedView { entries: entries_view(self.entries@), error: text::optional(self.error) }
    }
}

/// Where the key at `i` ends, `behind` tokens being behind it. A key takes at least one token.
pub open spec fn key_end(ts: Seq<TokenView>, i: int, behind: usize) -> int {
    if i < ts.len() - behind {
        ts.len() - behind
    } else {
        i + 1
    }
}

/// Whether an entry may end in front of `i`.
pub open spec fn may_end(ts: Seq<TokenView>, i: int) -> bool {
    i >= ts.len() || tokens::punct_at(ts, i, ',')
}

/// The tokens at `i`, of which there is one unless it is the end.
pub open spec fn token_text(ts: Seq<TokenView>, i: int) -> Seq<char> {
    if i < ts.len() {
        tokens::printed(ts, i, i + 1)
    } else {
        ""@
    }
}

/// The string that stands behind a key that ends in front of `j`: an equals sign and a literal that
/// says `literal`, with nothing else in front of the next comma.
pub open spec fn text_behind(
    ts: Seq<TokenView>,
    j: int,
    literal: Result<Seq<char>, Seq<char>>,
) -> Result<Seq<char>, Seq<char>> {
    if !tokens::punct_at(ts, j, '=') {
        Err("expected `=`"@)
    } else if literal is Ok && !may_end(ts, j + 2) {
        Err("expected `,`"@)
    } else {
        literal
    }
}

/// The tokens in the square brackets that stand behind a key that ends in front of `j`.
pub open spec fn list_behind(ts: Seq<TokenView>, j: int) -> Result<Seq<char>, Seq<char>> {
    if !tokens::punct_at(ts, j, '=') {
        Err("expected `=`"@)
    } else if j + 1 >= ts.len() {
        Err("unexpected end of input, expected square brackets"@)
    } else {
        match ts[j + 1] {
            TokenView::Group(Brackets::Square, inner) => if may_end(ts, j + 2) {
                Ok(inner)
            } else {
                Err("expected `,`"@)
            },
            _ => Err("expected square brackets"@),
        }
    }
}

/// The end of the expression that starts at `i`, of those that end at `e` or behind it: the first
/// place in front of a comma, or the end, up to which the tokens are an expression.
pub open spec fn expr_end(ts: Seq<TokenView>, i: int, e: int) -> Result<int, Seq<char>>
    decreases ts.len() - e,
{
    if e >= ts.len() {
        match expr_of(tokens::printed(ts, i, ts.len() as int)) {
            Ok(_) => Ok(ts.len() as int),
            Err(message) => Err(message),
        }
    } else if tokens::punct_at(ts, e, ',') && expr_of(tokens::printed(ts, i, e)) is Ok {
        Ok(e)
    } else {
        expr_end(ts, i, e + 1)
    }
}

/// The end of what stands behind a key that ends in front of `j`: an equals sign with brackets or an
/// expression, or brackets, or nothing.
pub open spec fn value_end(ts: Seq<TokenView>, j: int) -> Result<int, Seq<char>> {
    if tokens::punct_at(ts, j, '=') {
        if j + 1 < ts.len() && ts[j + 1] is Group && may_end(ts, j + 2) {
            Ok(j + 2)
        } else {
            expr_end(ts, j + 1, j + 1)
        }
    } else if j < ts.len() && ts[j] is Group {
        Ok(j + 1)
    } else {
        Ok(j)
    }
}

/// Where the entry behind the one whose key ends in front of `j` starts.
pub open spec fn next_entry(ts: Seq<TokenView>, j: int) -> Result<int, Seq<char>> {
    match value_end(ts, j) {
        Err(message) => Err(message),
        Ok(e) => if e >= ts.len() {
            Ok(ts.len() as int)
        } else if tokens::punct_at(ts, e, ',') {
            Ok(e + 1)
        } else {
            Err("expected `,`"@)
        },
    }
}

/// The entry with a key that ends in front of `j`.
pub open spec fn entry_of(ts: Seq<TokenView>, key: Option<Seq<char>>, j: int) -> EntryView {
    EntryView {
        key,
        text: text_behind(ts, j, string_of(token_text(ts, j + 1))),
        list: list_behind(ts, j),
    }
}

/// The entries from `i` on, behind those before.
pub open spec fn nested_from(ts: Seq<TokenView>, i: int, before: Seq<EntryView>) -> NestedView
    decreases ts.len() - i,
{
    if i < 0 || i >= ts.len() {
        NestedView { entries: before, error: None }
    } else {
        match key_of(tokens::printed(ts, i, ts.len() as int)) {
            Err(message) => NestedView { entries: before, error: Some(message) },
            Ok(None) => NestedView { entries: before, error: None },
            Ok(Some(key)) => {
                let j = key_end(ts, i, key.behind);
                let entries = before.push(entry_of(ts, key.ident, j));
                match next_entry(ts, j) {
                    Err(message) => NestedView { entries, error: Some(message) },
                    Ok(n) => {
                        proof {
                            lemma_next_entry(ts, j);
                        }
                        nested_from(ts, n, entries)
                    },
                }
            },
        }
    }
}

/// The entries that tokens hold, or what is wrong with them.
pub open spec fn nested_of(tokens: Result<Seq<TokenView>, Seq<char>>) -> NestedView {
    match tokens {
        Err(message) => NestedView { entries: seq![], error: Some(message) },
        Ok(ts) => nested_from(ts, 0, seq![]),
    }
}

proof fn lemma_expr_end(ts: Seq<TokenView>, i: int, e: int)
    requires
        0 <= e <= ts.len(),
    ensures
        expr_end(ts, i, e) matches Ok(n) ==> e <= n <= ts.len(),
    decreases ts.len() - e,
{
    if e < ts.len() {
        lemma_expr_end(ts, i, e + 1);
    }
}

/// The entry behind one does not start in front of the end of its key.
pub proof fn lemma_next_entry(ts: Seq<TokenView>, j: int)
    requires
        0 <= j <= ts.len(),
    ensures
        next_entry(ts, j) matches Ok(n) ==> j <= n <= ts.len(),
{
    if tokens::punct_at(ts, j, '=') {
        lemma_expr_end(ts, j + 1, j + 1);
    }
}

/// Whether an entry may end in front of `i`.
fn can_end(ts: &Vec<Token>, i: usize) -> (r: bool)
    ensures
        r == may_end(tokens::tokens_view(ts@), i as int),
{
    i >= ts.len() || is_punct(ts, i, ',')
}

/// The string that stands behind a key that ends in front of `j`, where the token behind the equals
/// sign is a literal that says `literal`.
pub fn find_text(ts: &Vec<Token>, j: usize, literal: Result<String, String>) -> (r: Result<
    String,
    String,
>)
    requires
        j <= ts@.len(),
    ensures
        result_view(r) == text_behind(tokens::tokens_view(ts@), j as int, result_view(literal)),
{
    let n: usize = ts.len();
    if !is_punct(ts, j, '=') {
        return Err("expected `=`".to_string());
    }
    match literal {
        Ok(value) => if j + 1 >= n || can_end(ts, j + 2) {
            Ok(value)
        } else {
            Err("expected `,`".to_string())
        },
        Err(message) => Err(message),
    }
}

/// The tokens in the square brackets that stand behind a key that ends in front of `j`.
pub fn find_list(ts: &Vec<Token>, j: usize) -> (r: Result<String, String>)
    requires
        j <= ts@.len(),
    ensures
        result_view(r) == list_behind(tokens::tokens_view(ts@), j as int),
{
    let n: usize = ts.len();
    if !is_punct(ts, j, '=') {
        return Err("expected `=`".to_string());
    }
    if j + 1 >= n {
        return Err("unexpected end of input, expected square brackets".to_string());
    }
    match &ts[j + 1] {
        Token::Group(Brackets::Square, inner) => if can_end(ts, j + 2) {
            Ok(inner.clone())
        } else {
            Err("expected `,`".to_string())
        },
        _ => Err("expected square brackets".to_string()),
    }
}

/// The end of the expression that starts at `i`.
fn find_expr_end(ts: &Vec<Token>, i: usize) -> (r: Result<usize, String>)
    requires
        i <= ts@.len(),
    ensures
        match r {
            Ok(e) => i <= e <= ts@.len() && expr_end(
                tokens::tokens_view(ts@),
                i as int,
                i as int,
            ) == Ok::<int, Seq<char>>(e as int),
            Err(message) => expr_end(tokens::tokens_view(ts@), i as int, i as int) == Err::<
                int,
                Seq<char>,
            >(message@),
        },
{
    let ghost all = tokens::tokens_view(ts@);
    let n: usize = ts.len();
    let mut e: usize = i;
    while e < n
        invariant
            i <= e <= n == ts@.len(),
            all == tokens::tokens_view(ts@),
            expr_end(all, i as int, i as int) == expr_end(all, i as int, e as int),
        decreases n - e,
    {
        if is_punct(ts, e, ',') {
            if read_expr(print_range(ts, i, e).as_str()).is_ok() {
                return Ok(e);
            }
        }
        e += 1;
    }
    match read_expr(print_range(ts, i, n).as_str()) {
        Ok(_) => Ok(n),
        Err(message) => Err(message),
    }
}

/// Whether brackets stand at `i`.
fn is_group(ts: &Vec<Token>, i: usize) -> (r: bool)
    ensures
        r == (i < ts@.len() && tokens::tokens_view(ts@)[i as int] is Group),
{
    if i < ts.len() {
        match &ts[i] {
            Token::Group(_, _) => true,
            _ => false,
        }
    } else {
        false
    }
}

/// The end of what stands behind a key that ends in front of `j`.
fn find_value_end(ts: &Vec<Token>, j: usize) -> (r: Result<usize, String>)
    requires
        j <= ts@.len(),
    ensures
        match r {
            Ok(e) => j <= e <= ts@.len() && value_end(tokens::tokens_view(ts@), j as int) == Ok::<
                int,
                Seq<char>,
            >(e as int),
            Err(message) => value_end(tokens::tokens_view(ts@), j as int) == Err::<int, Seq<char>>(
                message@,
            ),
        },
{
    if j < ts.len() && is_punct(ts, j, '=') {
        if is_group(ts, j + 1) && can_end(ts, j + 2) {
            Ok(j + 2)
        } else {
            find_expr_end(ts, j + 1)
        }
    } else if is_group(ts, j) {
        Ok(j + 1)
    } else {
        Ok(j)
    }
}

/// Where the entry behind the one whose key ends in front of `j` starts.
fn find_next_entry(ts: &Vec<Token>, j: usize) -> (r: Result<usize, String>)
    requires
        j <= ts@.len(),
    ensures
        match r {
            Ok(n) => j <= n <= ts@.len() && next_entry(tokens::tokens_view(ts@), j as int) == Ok::<
                int,
                Seq<char>,
            >(n as int),
            Err(message) => next_entry(tokens::tokens_view(ts@), j as int) == Err::<int, Seq<char>>(
                message@,
            ),
        },
{
    let e: usize = find_value_end(ts, j)?;
    if e >= ts.len() {
        Ok(ts.len())
    } else if is_punct(ts, e, ',') {
        Ok(e + 1)
    } else {
        Err("expected `,`".to_string())
    }
}

/// The entry with a key that ends in front of `j`.
fn find_entry(ts: &Vec<Token>, key: Option<String>, j: usize) -> (r: Entry)
    requires
        j <= ts@.len(),
    ensures
        r@ == entry_of(tokens::tokens_view(ts@), text::optional(key), j as int),
{
    let n: usize = ts.len();
    let written = if j < n && j + 1 < n {
        print_range(ts, j + 1, j + 2)
    } else {
        "".to_string()
    };
    let literal = read_string(written.as_str());
    Entry { key, text: find_text(ts, j, literal), list: find_list(ts, j) }
}

/// The entries that tokens hold, or what is wrong with them.
pub fn find_entries(ts: &Vec<Token>) -> (r: Nested)
    ensures
        r@ == nested_of(Ok(tokens::tokens_view(ts@))),
{
    let ghost all = tokens::tokens_view(ts@);
    let n: usize = ts.len();
    let mut entries: Vec<Entry> = Vec::new();
    let mut i: usize = 0;
    assert(entries_view(entries@) =~= seq![]);
    while i < n
        invariant
            i <= n == ts@.len(),
            all == tokens::tokens_view(ts@),
            nested_from(all, 0, seq![]) == nested_from(all, i as int, entries_view(entries@)),
        decreases n - i,
    {
        match read_key(print_range(ts, i, n).as_str()) {
            Err(message) => {
                return Nested { entries, error: Some(message) };
            },
            Ok(None) => {
                return Nested { entries, error: None };
            },
            Ok(Some(key)) => {
                let j: usize = if key.behind < n - i {
                    n - key.behind
                } else {
                    i + 1
                };
                let entry = find_entry(ts, key.ident, j);
                proof {
                    assert(entries_view(entries@.push(entry)) =~= entries_view(entries@).push(
                        entry@,
                    ));
                }
                entries.push(entry);
                match find_next_entry(ts, j) {
                    Err(message) => {
                        return Nested { entries, error: Some(message) };
                    },
                    Ok(next) => {
                        i = next;
                    },
                }
            },
        }
    }
    Nested { entries, error: None }
}

/// The entries that a text holds, or what is wrong with it.
pub fn read_entries(source: &str) -> (r: Nested)
    ensures
        r@ == nested_of(tokens::tokens_of(source@)),
{
    match parse_tokens(source) {
        Err(message) => {
            let entries: Vec<Entry> = Vec::new();
            assert(entries_view(entries@) =~= seq![]);
            Nested { entries, error: Some(message) }
        },
        Ok(ts) => find_entries(&ts),
    }
}

} // verus!
