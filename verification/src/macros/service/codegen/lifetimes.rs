//! The lifetimes in the types of parameters and replies.
//!
//! A generated type has one lifetime of its own, and a constant has only `'static`. So a type that a
//! method writes with a lifetime of the method, or with one left out, gets the lifetime of the place
//! that it is put to. Lifetimes that the type binds itself stay, and so do constants in it.

use vstd::prelude::*;

use crate::introspect::str_eq;
use crate::macros::tokens;
use crate::macros::tokens::{
    bracket, join, parse_tokens, print_token, Brackets, Piece, PieceView, Token, TokenView,
};
use crate::text;

verus! {

/// Whether an identifier stands at `i`.
pub open spec fn ident_at(ts: Seq<TokenView>, i: int, name: Seq<char>) -> bool {
    0 <= i < ts.len() && ts[i] == TokenView::Ident(name)
}

/// Whether a lifetime stands at `i`: a quote and an identifier.
pub open spec fn lifetime_at(ts: Seq<TokenView>, i: int) -> bool {
    tokens::punct_at(ts, i, '\'') && i + 1 < ts.len() && ts[i + 1] is Ident
}

/// The lifetime at `i`.
pub open spec fn lifetime(ts: Seq<TokenView>, i: int) -> Seq<char> {
    "'"@ + ts[i + 1]->Ident_0
}

/// Whether an arrow stands at `i`.
pub open spec fn arrow_at(ts: Seq<TokenView>, i: int) -> bool {
    tokens::punct_at(ts, i, '-') && tokens::punct_at(ts, i + 1, '>')
}

/// The lifetimes that `for<..>` binds from `i` on, `inside` being whether `i` is in such brackets.
pub open spec fn binders(ts: Seq<TokenView>, i: int, inside: bool) -> Seq<Seq<char>>
    decreases ts.len() - i,
{
    if i < 0 || i >= ts.len() {
        seq![]
    } else if inside {
        if tokens::punct_at(ts, i, '>') {
            binders(ts, i + 1, false)
        } else if lifetime_at(ts, i) {
            seq![lifetime(ts, i)] + binders(ts, i + 1, true)
        } else {
            binders(ts, i + 1, true)
        }
    } else if ident_at(ts, i, "for"@) && tokens::punct_at(ts, i + 1, '<') {
        binders(ts, i + 1, true)
    } else {
        binders(ts, i + 1, false)
    }
}

/// What holds where a type is put.
pub struct ScopeView {
    /// The lifetime that is put there.
    pub name: Seq<char>,
    /// The lifetimes that are bound there.
    pub bound: Seq<Seq<char>>,
    /// Whether a lifetime that is left out is put there too.
    pub elided: bool,
}

/// What stands for a lifetime: `'static`, and one that is bound, for itself, and so `'_` where it is
/// bound by what it stands in; the lifetime of the place for any other.
pub open spec fn put_for(lifetime: Seq<char>, scope: ScopeView) -> Seq<char> {
    if lifetime == "'static"@ || scope.bound.contains(lifetime) || (lifetime == "'_"@
        && !scope.elided) {
        lifetime
    } else {
        scope.name
    }
}

/// Whether the round brackets at `i` hold the arguments of a function type: lifetimes that are left
/// out in them are bound there.
pub open spec fn holds_arguments(ts: Seq<TokenView>, i: int) -> bool {
    &&& 0 < i < ts.len()
    &&& ts[i] matches TokenView::Group(Brackets::Round, _)
    &&& ts[i - 1] is Ident
    &&& !ident_at(ts, i - 1, "mut"@)
    &&& !ident_at(ts, i - 1, "const"@)
    &&& !ident_at(ts, i - 1, "dyn"@)
    &&& !ident_at(ts, i - 1, "impl"@)
}

/// The first position from `i` on that holds a semicolon, or the end: the length of an array stands
/// behind it.
pub open spec fn type_end(ts: Seq<TokenView>, i: int) -> int
    decreases ts.len() - i,
{
    if 0 <= i < ts.len() && !tokens::punct_at(ts, i, ';') {
        type_end(ts, i + 1)
    } else {
        i
    }
}

/// The tokens of a type from `i` on, with the lifetime of the place for every lifetime, and in every
/// reference that leaves its lifetime out. Behind an arrow, up to a comma, what is left out is bound.
/// Brackets are looked into down to `depth`.
pub open spec fn put_from(
    ts: Seq<TokenView>,
    i: int,
    scope: ScopeView,
    behind_arrow: bool,
    depth: nat,
) -> Seq<PieceView>
    decreases depth, ts.len() - i, 0int,
{
    let here = ScopeView { elided: scope.elided && !behind_arrow, ..scope };
    if i < 0 || i >= ts.len() {
        seq![]
    } else if lifetime_at(ts, i) {
        seq![PieceView { text: put_for(lifetime(ts, i), here), joint: false }] + put_from(
            ts,
            i + 2,
            scope,
            behind_arrow,
            depth,
        )
    } else if tokens::punct_at(ts, i, '&') && here.elided && !lifetime_at(ts, i + 1) {
        seq![
            PieceView { text: "&"@, joint: true },
            PieceView { text: scope.name, joint: false },
        ] + put_from(ts, i + 1, scope, behind_arrow, depth)
    } else if ts[i] is Group {
        let inner = ScopeView { elided: here.elided && !holds_arguments(ts, i), ..scope };
        seq![put_in_group(ts[i], inner, depth)] + put_from(ts, i + 1, scope, behind_arrow, depth)
    } else {
        let behind_arrow = arrow_at(ts, i) || (behind_arrow && !tokens::punct_at(ts, i, ','));
        seq![tokens::piece_of(ts[i])] + put_from(ts, i + 1, scope, behind_arrow, depth)
    }
}

/// Brackets, with the lifetime of the place in the types in them. Curly brackets hold a constant.
pub open spec fn put_in_group(token: TokenView, scope: ScopeView, depth: nat) -> PieceView
    decreases depth, 0int, 0int,
{
    match token {
        TokenView::Group(brackets, inner) => if depth == 0 || brackets is Curly {
            tokens::piece_of(token)
        } else {
            match tokens::tokens_of(inner) {
                Err(_) => tokens::piece_of(token),
                Ok(us) => {
                    let e = if brackets is Square {
                        type_end(us, 0)
                    } else {
                        us.len() as int
                    };
                    let text = tokens::joined(
                        put(us.take(e), scope, (depth - 1) as nat) + tokens::pieces_of(us.skip(e)),
                    );
                    PieceView { text: tokens::bracketed(brackets, text), joint: false }
                },
            }
        },
        _ => tokens::piece_of(token),
    }
}

/// The tokens of a type with the lifetime of the place; those that the type binds stay.
pub open spec fn put(ts: Seq<TokenView>, scope: ScopeView, depth: nat) -> Seq<PieceView>
    decreases depth, ts.len() + 1, 1int,
{
    put_from(
        ts,
        0,
        ScopeView { bound: scope.bound + binders(ts, 0, false), ..scope },
        false,
        depth,
    )
}

/// The tokens of a type with the lifetime `name`. A text that holds no tokens stays.
pub open spec fn with_lifetime(s: Seq<char>, name: Seq<char>) -> Seq<char> {
    match tokens::tokens_of(s) {
        Err(_) => s,
        Ok(ts) => tokens::joined(
            put(ts, ScopeView { name, bound: seq![], elided: true }, s.len()),
        ),
    }
}

/// The first `end` tokens.
spec fn first(ts: &Vec<Token>, end: usize) -> Seq<TokenView> {
    tokens::tokens_view(ts@).take(end as int)
}

/// Whether a punctuation character stands at `i`, of the first `end` tokens.
fn is_punct(ts: &Vec<Token>, end: usize, i: usize, c: char) -> (r: bool)
    requires
        end <= ts@.len(),
    ensures
        r == tokens::punct_at(first(ts, end), i as int, c),
{
    if i < end {
        match &ts[i] {
            Token::Punct(d, _) => *d == c,
            _ => false,
        }
    } else {
        false
    }
}

/// Whether an identifier stands at `i`.
fn is_ident(ts: &Vec<Token>, end: usize, i: usize, name: &str) -> (r: bool)
    requires
        end <= ts@.len(),
    ensures
        r == ident_at(first(ts, end), i as int, name@),
{
    if i < end {
        match &ts[i] {
            Token::Ident(s) => str_eq(s.as_str(), name),
            _ => false,
        }
    } else {
        false
    }
}

/// The lifetime at `i`.
fn find_lifetime(ts: &Vec<Token>, end: usize, i: usize) -> (r: Option<String>)
    requires
        end <= ts@.len(),
    ensures
        match r {
            Some(l) => lifetime_at(first(ts, end), i as int) && l@ == lifetime(
                first(ts, end),
                i as int,
            ),
            None => !lifetime_at(first(ts, end), i as int),
        },
{
    if is_punct(ts, end, i, '\'') && i + 1 < end {
        if let Token::Ident(s) = &ts[i + 1] {
            let mut l = "'".to_string();
            l.append(s.as_str());
            return Some(l);
        }
    }
    None
}

/// Whether a text is in a list.
fn is_listed(list: &Vec<String>, t: &str) -> (r: bool)
    ensures
        r == text::texts(list@).contains(t@),
{
    super::find_text(list, t).is_some()
}

/// Adds the lifetimes that the tokens bind.
fn add_binders(ts: &Vec<Token>, end: usize, bound: &mut Vec<String>)
    requires
        end <= ts@.len(),
    ensures
        text::texts(final(bound)@) == text::texts(old(bound)@) + binders(first(ts, end), 0, false),
{
    let ghost all = first(ts, end);
    let ghost start = text::texts(bound@);
    let mut inside = false;
    let mut i: usize = 0;
    assert(all.len() == end);
    while i < end
        invariant
            i <= end <= ts@.len(),
            all == first(ts, end),
            all.len() == end,
            start == text::texts(old(bound)@),
            start + binders(all, 0, false) == text::texts(bound@) + binders(
                all,
                i as int,
                inside,
            ),
        decreases end - i,
    {
        let ghost before = text::texts(bound@);
        if inside {
            if is_punct(ts, end, i, '>') {
                inside = false;
            } else if let Some(l) = find_lifetime(ts, end, i) {
                proof {
                    text::lemma_texts_push(bound@, l);
                    assert(before + (seq![l@] + binders(all, i + 1, true)) =~= before.push(l@)
                        + binders(all, i + 1, true));
                }
                bound.push(l);
            }
        } else if is_ident(ts, end, i, "for") && i + 1 < end && is_punct(ts, end, i + 1, '<') {
            inside = true;
        }
        i += 1;
    }
    assert(text::texts(bound@) + binders(all, end as int, inside) =~= text::texts(bound@));
}

/// Where a type is put.
pub struct Scope<'a> {
    /// The lifetime that is put there.
    pub name: &'a str,
    /// The lifetimes that are bound there.
    pub bound: &'a Vec<String>,
    /// Whether a lifetime that is left out is put there too.
    pub elided: bool,
}

impl View for Scope<'_> {
    type V = ScopeView;

    open spec fn view(&self) -> ScopeView {
        ScopeView { name: self.name@, bound: text::texts(self.bound@), elided: self.elided }
    }
}

/// Whether the round brackets at `i` hold the arguments of a function type.
fn has_arguments(ts: &Vec<Token>, end: usize, i: usize) -> (r: bool)
    requires
        end <= ts@.len(),
    ensures
        r == holds_arguments(first(ts, end), i as int),
{
    if i == 0 || i >= end {
        return false;
    }
    let round = match &ts[i] {
        Token::Group(brackets, _) => match brackets {
            Brackets::Round => true,
            _ => false,
        },
        _ => false,
    };
    let ident = match &ts[i - 1] {
        Token::Ident(_) => true,
        _ => false,
    };
    round && ident && !is_ident(ts, end, i - 1, "mut") && !is_ident(ts, end, i - 1, "const")
        && !is_ident(ts, end, i - 1, "dyn") && !is_ident(ts, end, i - 1, "impl")
}

/// The first position that holds a semicolon, or the end.
fn find_type_end(ts: &Vec<Token>) -> (r: usize)
    ensures
        r == type_end(tokens::tokens_view(ts@), 0),
        r <= ts@.len(),
{
    let n: usize = ts.len();
    let ghost all = tokens::tokens_view(ts@);
    assert(first(ts, n) =~= all);
    let mut i: usize = 0;
    while i < n && !is_punct(ts, n, i, ';')
        invariant
            i <= n == ts@.len(),
            all == tokens::tokens_view(ts@),
            first(ts, n) == all,
            type_end(all, 0) == type_end(all, i as int),
        decreases n - i,
    {
        i += 1;
    }
    i
}

/// What stands for a lifetime.
fn choose_lifetime(lifetime: String, scope: &Scope<'_>) -> (r: String)
    ensures
        r@ == put_for(lifetime@, scope@),
{
    if str_eq(lifetime.as_str(), "'static") || is_listed(scope.bound, lifetime.as_str()) || (
    !scope.elided && str_eq(lifetime.as_str(), "'_")) {
        lifetime
    } else {
        scope.name.to_string()
    }
}

/// Adds how the tokens from `from` on are printed.
fn print_rest(ts: &Vec<Token>, from: usize, pieces: &mut Vec<Piece>)
    requires
        from <= ts@.len(),
    ensures
        tokens::pieces_view(final(pieces)@) == tokens::pieces_view(old(pieces)@)
            + tokens::pieces_of(tokens::tokens_view(ts@).skip(from as int)),
{
    let ghost all = tokens::tokens_view(ts@);
    let ghost rest = tokens::pieces_of(all.skip(from as int));
    let ghost start = tokens::pieces_view(pieces@);
    let mut i: usize = from;
    assert(start + rest.take(0) =~= start);
    while i < ts.len()
        invariant
            from <= i <= ts@.len(),
            all == tokens::tokens_view(ts@),
            rest == tokens::pieces_of(all.skip(from as int)),
            start == tokens::pieces_view(old(pieces)@),
            tokens::pieces_view(pieces@) == start + rest.take(i - from),
        decreases ts@.len() - i,
    {
        let piece = print_token(&ts[i]);
        proof {
            tokens::lemma_pieces_push(pieces@, piece);
            assert(start + rest.take(i + 1 - from) =~= (start + rest.take(i - from)).push(
                piece@,
            ));
        }
        pieces.push(piece);
        i += 1;
    }
    assert(rest.take(i - from) =~= rest);
}

/// Brackets, with the lifetime of the place in the types in them.
fn put_in_brackets(token: &Token, scope: &Scope<'_>, depth: usize) -> (r: Piece)
    ensures
        r@ == put_in_group(token@, scope@, depth as nat),
    decreases depth, 0int,
{
    if let Token::Group(brackets, inner) = token {
        let curly = match brackets {
            Brackets::Curly => true,
            _ => false,
        };
        if depth > 0 && !curly {
            if let Ok(us) = parse_tokens(inner.as_str()) {
                let square = match brackets {
                    Brackets::Square => true,
                    _ => false,
                };
                let e: usize = if square {
                    find_type_end(&us)
                } else {
                    us.len()
                };
                let mut pieces = put_tokens(&us, e, scope, depth - 1);
                print_rest(&us, e, &mut pieces);
                let inner = join(&pieces);
                return Piece { text: bracket(*brackets, inner.as_str()), joint: false };
            }
        }
    }
    print_token(token)
}

/// The first `end` tokens of a type with the lifetime of the place.
pub fn put_tokens(ts: &Vec<Token>, end: usize, scope: &Scope<'_>, depth: usize) -> (r: Vec<Piece>)
    requires
        end <= ts@.len(),
    ensures
        tokens::pieces_view(r@) == put(
            tokens::tokens_view(ts@).take(end as int),
            scope@,
            depth as nat,
        ),
    decreases depth, 1int,
{
    let ghost all = first(ts, end);
    assert(all.len() == end);
    let mut bound: Vec<String> = Vec::new();
    let mut k: usize = 0;
    assert(text::texts(bound@) =~= text::texts(scope.bound@).take(0));
    while k < scope.bound.len()
        invariant
            k <= scope.bound@.len(),
            text::texts(bound@) == text::texts(scope.bound@).take(k as int),
        decreases scope.bound@.len() - k,
    {
        let l = scope.bound[k].clone();
        proof {
            text::lemma_texts_push(bound@, l);
            assert(text::texts(scope.bound@).take(k + 1) =~= text::texts(scope.bound@).take(
                k as int,
            ).push(l@));
        }
        bound.push(l);
        k += 1;
    }
    assert(text::texts(scope.bound@).take(k as int) =~= text::texts(scope.bound@));
    add_binders(ts, end, &mut bound);
    let ghost outer = ScopeView {
        bound: scope@.bound + binders(all, 0, false),
        ..scope@
    };
    let mut pieces: Vec<Piece> = Vec::new();
    let mut behind_arrow = false;
    let mut i: usize = 0;
    assert(tokens::pieces_view(pieces@) + put_from(all, 0, outer, false, depth as nat)
        =~= put_from(all, 0, outer, false, depth as nat));
    while i < end
        invariant
            i <= end <= ts@.len(),
            all == first(ts, end),
            all.len() == end,
            text::texts(bound@) == outer.bound,
            outer.name == scope.name@,
            outer.elided == scope.elided,
            put_from(all, 0, outer, false, depth as nat) == tokens::pieces_view(pieces@)
                + put_from(all, i as int, outer, behind_arrow, depth as nat),
        decreases end - i,
    {
        let ghost before = tokens::pieces_view(pieces@);
        let elided = scope.elided && !behind_arrow;
        let here = Scope { name: scope.name, bound: &bound, elided };
        assert(here@ == ScopeView { elided: outer.elided && !behind_arrow, ..outer });
        assert(all[i as int] == ts@[i as int]@);
        if let Some(l) = find_lifetime(ts, end, i) {
            let piece = Piece { text: choose_lifetime(l, &here), joint: false };
            proof {
                tokens::lemma_pieces_push(pieces@, piece);
                let rest = put_from(all, i + 2, outer, behind_arrow, depth as nat);
                assert(before + (seq![piece@] + rest) =~= before.push(piece@) + rest);
            }
            pieces.push(piece);
            i += 2;
        } else if elided && is_punct(ts, end, i, '&') && find_lifetime(
            ts,
            end,
            i + 1,
        ).is_none() {
            let amp = Piece { text: "&".to_string(), joint: true };
            let name = Piece { text: scope.name.to_string(), joint: false };
            proof {
                tokens::lemma_pieces_push(pieces@, amp);
                tokens::lemma_pieces_push(pieces@.push(amp), name);
                let rest = put_from(all, i + 1, outer, behind_arrow, depth as nat);
                assert(before + (seq![amp@, name@] + rest) =~= before.push(amp@).push(name@)
                    + rest);
            }
            pieces.push(amp);
            pieces.push(name);
            i += 1;
        } else {
            let group = match &ts[i] {
                Token::Group(_, _) => true,
                _ => false,
            };
            let piece = if group {
                let inner = Scope {
                    name: scope.name,
                    bound: &bound,
                    elided: elided && !has_arguments(ts, end, i),
                };
                assert(inner@ == ScopeView {
                    elided: here@.elided && !holds_arguments(all, i as int),
                    ..outer
                });
                put_in_brackets(&ts[i], &inner, depth)
            } else {
                print_token(&ts[i])
            };
            if !group {
                let arrow = is_punct(ts, end, i, '-') && i + 1 < end && is_punct(
                    ts,
                    end,
                    i + 1,
                    '>',
                );
                behind_arrow = arrow || (behind_arrow && !is_punct(ts, end, i, ','));
            }
            proof {
                tokens::lemma_pieces_push(pieces@, piece);
                let rest = put_from(all, i + 1, outer, behind_arrow, depth as nat);
                assert(before + (seq![piece@] + rest) =~= before.push(piece@) + rest);
            }
            pieces.push(piece);
            i += 1;
        }
    }
    assert(tokens::pieces_view(pieces@) + put_from(all, i as int, outer, behind_arrow, depth as nat)
        =~= tokens::pieces_view(pieces@));
    pieces
}

/// The tokens of a type with the lifetime `name`.
pub fn put_lifetime(ty: &str, name: &str) -> (r: String)
    ensures
        r@ == with_lifetime(ty@, name@),
{
    match parse_tokens(ty) {
        Err(_) => ty.to_string(),
        Ok(ts) => {
            let bound: Vec<String> = Vec::new();
            assert(text::texts(bound@) =~= seq![]);
            let scope = Scope { name, bound: &bound, elided: true };
            assert(tokens::tokens_view(ts@).take(ts@.len() as int) =~= tokens::tokens_view(ts@));
            join(&put_tokens(&ts, ts.len(), &scope, ty.unicode_len()))
        },
    }
}

proof fn lemma_plain_from(
    ts: Seq<TokenView>,
    i: int,
    scope: ScopeView,
    behind_arrow: bool,
    depth: nat,
)
    requires
        0 <= i <= ts.len(),
        forall|k: int|
            0 <= k < ts.len() ==> !(#[trigger] ts[k] is Group) && !tokens::punct_at(ts, k, '\'')
                && !tokens::punct_at(ts, k, '&'),
    ensures
        put_from(ts, i, scope, behind_arrow, depth) == tokens::pieces_of(ts).skip(i),
    decreases ts.len() - i,
{
    let all = tokens::pieces_of(ts);
    if i < ts.len() {
        assert(!(ts[i] is Group));
        let next = arrow_at(ts, i) || (behind_arrow && !tokens::punct_at(ts, i, ','));
        lemma_plain_from(ts, i + 1, scope, next, depth);
        assert(seq![all[i]] + all.skip(i + 1) =~= all.skip(i));
    } else {
        assert(all.skip(i) =~= seq![]);
    }
}

/// A type without lifetimes, references and brackets stays as it is.
pub proof fn law_types_without_lifetimes_stay(ts: Seq<TokenView>, scope: ScopeView, depth: nat)
    requires
        forall|k: int|
            0 <= k < ts.len() ==> !(#[trigger] ts[k] is Group) && !tokens::punct_at(ts, k, '\'')
                && !tokens::punct_at(ts, k, '&'),
    ensures
        put(ts, scope, depth) == tokens::pieces_of(ts),
{
    let inner = ScopeView { bound: scope.bound + binders(ts, 0, false), ..scope };
    lemma_plain_from(ts, 0, inner, false, depth);
    assert(tokens::pieces_of(ts).skip(0) =~= tokens::pieces_of(ts));
}

/// A lifetime in the brackets of `for<..>`, which start in front of `i`, stays, whatever lifetime the
/// place has.
pub proof fn law_bound_lifetimes_stay(
    ts: Seq<TokenView>,
    i: int,
    j: int,
    scope: ScopeView,
)
    requires
        0 <= i <= j,
        forall|k: int| i <= k < j ==> !tokens::punct_at(ts, k, '>'),
        lifetime_at(ts, j),
        scope.bound == binders(ts, i, true),
    ensures
        put_for(lifetime(ts, j), scope) == lifetime(ts, j),
{
    lemma_binder_listed(ts, i, j);
}

/// A lifetime that is neither `'static` nor bound gets the lifetime of the place, and so does one that
/// is left out where nothing else binds it.
pub proof fn law_other_lifetimes_are_put(
    ts: Seq<TokenView>,
    i: int,
    scope: ScopeView,
    depth: nat,
)
    requires
        scope.elided,
        lifetime_at(ts, i) ==> lifetime(ts, i) != "'static"@ && !scope.bound.contains(
            lifetime(ts, i),
        ),
        lifetime_at(ts, i) || (tokens::punct_at(ts, i, '&') && !lifetime_at(ts, i + 1)),
    ensures
        lifetime_at(ts, i) ==> put_from(ts, i, scope, false, depth) == seq![
            PieceView { text: scope.name, joint: false },
        ] + put_from(ts, i + 2, scope, false, depth),
        tokens::punct_at(ts, i, '&') ==> put_from(ts, i, scope, false, depth) == seq![
            PieceView { text: "&"@, joint: true },
            PieceView { text: scope.name, joint: false },
        ] + put_from(ts, i + 1, scope, false, depth),
{
    reveal_with_fuel(put_from, 2);
}

/// Constants stay: a block in curly brackets as it is, and of an array the semicolon and the length.
pub proof fn law_constants_stay(
    inner: Seq<char>,
    us: Seq<TokenView>,
    scope: ScopeView,
    depth: nat,
)
    requires
        tokens::tokens_of(inner) == Ok::<Seq<TokenView>, Seq<char>>(us),
        depth > 0,
    ensures
        put_in_group(TokenView::Group(Brackets::Curly, inner), scope, depth) == tokens::piece_of(
            TokenView::Group(Brackets::Curly, inner),
        ),
        put_in_group(TokenView::Group(Brackets::Square, inner), scope, depth).text
            == tokens::bracketed(
            Brackets::Square,
            tokens::joined(
                put(us.take(type_end(us, 0)), scope, (depth - 1) as nat) + tokens::pieces_of(
                    us.skip(type_end(us, 0)),
                ),
            ),
        ),
{
    reveal_with_fuel(put_in_group, 2);
}

proof fn lemma_binder_listed(ts: Seq<TokenView>, i: int, j: int)
    requires
        0 <= i <= j,
        forall|k: int| i <= k < j ==> !tokens::punct_at(ts, k, '>'),
        lifetime_at(ts, j),
    ensures
        binders(ts, i, true).contains(lifetime(ts, j)),
    decreases j - i,
{
    if i == j {
        assert(binders(ts, i, true)[0] == lifetime(ts, j));
    } else {
        lemma_binder_listed(ts, i + 1, j);
        let rest = binders(ts, i + 1, true);
        let k = choose|k: int| 0 <= k < rest.len() && rest[k] == lifetime(ts, j);
        if lifetime_at(ts, i) {
            assert(binders(ts, i, true)[k + 1] == rest[k]);
        } else {
            assert(binders(ts, i, true)[k] == rest[k]);
        }
    }
}

/// `'static` stays wherever it stands, and the lifetime that is put somewhere is the one that is asked
/// for there.
pub proof fn law_static_stays(ts: Seq<TokenView>, i: int, scope: ScopeView, behind: bool, depth: nat)
    requires
        lifetime_at(ts, i),
    ensures
        lifetime(ts, i) == "'static"@ ==> put_from(ts, i, scope, behind, depth) == seq![
            PieceView { text: "'static"@, joint: false },
        ] + put_from(ts, i + 2, scope, behind, depth),
        lifetime(ts, i) != "'static"@ && lifetime(ts, i) != "'_"@ && !scope.bound.contains(
            lifetime(ts, i),
        ) ==> put_from(ts, i, scope, behind, depth) == seq![
            PieceView { text: scope.name, joint: false },
        ] + put_from(ts, i + 2, scope, behind, depth),
        lifetime(ts, i) == "'"@ + ts[i + 1]->Ident_0,
{
    reveal_with_fuel(put_from, 2);
}

/// Behind the arrow of a function, and among its arguments, lifetimes that are left out are bound by
/// the function: nothing is put there.
pub proof fn law_functions_bind_what_is_left_out(
    ts: Seq<TokenView>,
    i: int,
    scope: ScopeView,
    behind: bool,
    depth: nat,
)
    requires
        0 <= i < ts.len(),
        !scope.elided || behind,
        !lifetime_at(ts, i),
    ensures
        tokens::punct_at(ts, i, '&') ==> put_from(ts, i, scope, behind, depth) == seq![
            tokens::piece_of(ts[i]),
        ] + put_from(ts, i + 1, scope, behind, depth),
{
    reveal_with_fuel(put_from, 2);
}

/// What stands behind an arrow ends at a comma: the arrow opens it, and only a comma closes it.
pub proof fn law_arrows_reach_to_the_comma(
    ts: Seq<TokenView>,
    i: int,
    scope: ScopeView,
    behind: bool,
    depth: nat,
)
    requires
        0 <= i < ts.len(),
        ts[i] is Punct,
        !tokens::punct_at(ts, i, '&'),
        !lifetime_at(ts, i),
    ensures
        put_from(ts, i, scope, behind, depth) == seq![tokens::piece_of(ts[i])] + put_from(
            ts,
            i + 1,
            scope,
            if tokens::punct_at(ts, i, '-') && tokens::punct_at(ts, i + 1, '>') {
                true
            } else if tokens::punct_at(ts, i, ',') {
                false
            } else {
                behind
            },
            depth,
        ),
{
    reveal_with_fuel(put_from, 2);
}

/// What is in brackets is treated as what is outside of them, but for the arguments of a function,
/// where nothing is put for what is left out.
pub proof fn law_brackets_are_gone_into(
    ts: Seq<TokenView>,
    i: int,
    scope: ScopeView,
    depth: nat,
    inner: Seq<char>,
    us: Seq<TokenView>,
)
    requires
        0 <= i < ts.len(),
        ts[i] == TokenView::Group(Brackets::Round, inner),
        tokens::tokens_of(inner) == Ok::<Seq<TokenView>, Seq<char>>(us),
        depth > 0,
    ensures
        ({
            let named = i > 0 && ts[i - 1] is Ident && ts[i - 1] != TokenView::Ident("mut"@)
                && ts[i - 1] != TokenView::Ident("const"@) && ts[i - 1] != TokenView::Ident("dyn"@)
                && ts[i - 1] != TokenView::Ident("impl"@);
            let within = ScopeView { elided: scope.elided && !named, ..scope };
            put_from(ts, i, scope, false, depth) == seq![
                PieceView {
                    text: "("@ + tokens::joined(put(us, within, (depth - 1) as nat)) + ")"@,
                    joint: false,
                },
            ] + put_from(ts, i + 1, scope, false, depth)
        }),
{
    reveal_with_fuel(put_from, 2);
    reveal_with_fuel(put_in_group, 2);
    assert(us.take(us.len() as int) =~= us);
    assert(tokens::pieces_of(us.skip(us.len() as int)) =~= seq![]);
    let named = i > 0 && ts[i - 1] is Ident && ts[i - 1] != TokenView::Ident("mut"@) && ts[i - 1]
        != TokenView::Ident("const"@) && ts[i - 1] != TokenView::Ident("dyn"@) && ts[i - 1]
        != TokenView::Ident("impl"@);
    assert(holds_arguments(ts, i) == named);
    let within = ScopeView { elided: scope.elided && !named, ..scope };
    assert(put(us, within, (depth - 1) as nat) + seq![] =~= put(us, within, (depth - 1) as nat));
}

/// The type of the elements of an array reaches to the semicolon.
pub proof fn law_element_types_reach_to_the_semicolon(ts: Seq<TokenView>, i: int, k: int)
    requires
        0 <= i <= k <= ts.len(),
        forall|j: int| i <= j < k ==> !#[trigger] tokens::punct_at(ts, j, ';'),
        k < ts.len() ==> tokens::punct_at(ts, k, ';'),
    ensures
        type_end(ts, i) == k,
    decreases k - i,
{
    if i < k {
        assert(!tokens::punct_at(ts, i, ';'));
        law_element_types_reach_to_the_semicolon(ts, i + 1, k);
    }
}

/// Without `for` nothing is bound.
pub proof fn law_only_for_binds(ts: Seq<TokenView>, i: int)
    requires
        0 <= i,
        forall|k: int| i <= k < ts.len() ==> #[trigger] ts[k] != TokenView::Ident("for"@),
    ensures
        binders(ts, i, false).len() == 0,
    decreases ts.len() - i,
{
    if i < ts.len() {
        assert(ts[i] != TokenView::Ident("for"@));
        law_only_for_binds(ts, i + 1);
    }
}

/// A type that is no tokens stays as it is; any other is printed anew, with the lifetime that is asked
/// for.
pub proof fn law_types_are_printed_anew(s: Seq<char>, name: Seq<char>, ts: Seq<TokenView>)
    ensures
        tokens::tokens_of(s) is Err ==> with_lifetime(s, name) == s,
        tokens::tokens_of(s) == Ok::<Seq<TokenView>, Seq<char>>(ts) ==> with_lifetime(s, name)
            == tokens::joined(
            put_from(
                ts,
                0,
                ScopeView { name, bound: binders(ts, 0, false), elided: true },
                false,
                s.len(),
            ),
        ),
{
    assert(Seq::<Seq<char>>::empty() + binders(ts, 0, false) =~= binders(ts, 0, false));
}

/// The brackets of `for` end at the closing one, and what they bind is bound in all that they stand in,
/// beside what is bound around it.
pub proof fn law_binders_end_with_their_brackets(
    ts: Seq<TokenView>,
    i: int,
    scope: ScopeView,
    depth: nat,
)
    requires
        0 <= i < ts.len(),
    ensures
        tokens::punct_at(ts, i, '>') ==> binders(ts, i, true) == binders(ts, i + 1, false),
        ts[i] == TokenView::Ident("for"@) && tokens::punct_at(ts, i + 1, '<') ==> binders(
            ts,
            i,
            false,
        ) == binders(ts, i + 1, true),
        put(ts, scope, depth) == put_from(
            ts,
            0,
            ScopeView {
                name: scope.name,
                bound: scope.bound + binders(ts, 0, false),
                elided: scope.elided,
            },
            false,
            depth,
        ),
{
    reveal_with_fuel(binders, 2);
    reveal_with_fuel(put, 2);
}

} // verus!
