//! Tokens, as plain values.

use vstd::prelude::*;

use proc_macro2::{Delimiter, Spacing, TokenStream, TokenTree};

use crate::text;

verus! {

/// The kind of brackets.
#[derive(Debug, Clone, Copy, PartialEq, Eq, Structural)]
pub enum Brackets {
    /// `( .. )`
    Round,
    /// `[ .. ]`
    Square,
    /// `{ .. }`
    Curly,
    /// Brackets that are not written.
    Unwritten,
}

/// A token. What stands in brackets is one token, with the text in them.
#[derive(Debug)]
pub enum Token {
    /// An identifier or a keyword.
    Ident(String),
    /// A punctuation character, and whether the next one belongs to it.
    Punct(char, bool),
    /// A literal, as it is written.
    Literal(String),
    /// Tokens in brackets.
    Group(Brackets, String),
}

/// The model of a [`Token`].
pub enum TokenView {
    /// An identifier or a keyword.
    Ident(Seq<char>),
    /// A punctuation character, and whether the next one belongs to it.
    Punct(char, bool),
    /// A literal, as it is written.
    Literal(Seq<char>),
    /// Tokens in brackets.
    Group(Brackets, Seq<char>),
}

impl View for Token {
    type V = TokenView;

    open spec fn view(&self) -> TokenView {
        match *self {
            Token::Ident(name) => TokenView::Ident(name@),
            Token::Punct(c, joint) => TokenView::Punct(c, joint),
            Token::Literal(written) => TokenView::Literal(written@),
            Token::Group(brackets, inner) => TokenView::Group(brackets, inner@),
        }
    }
}

/// What a list of tokens says.
pub open spec fn tokens_view(tokens: Seq<Token>) -> Seq<TokenView> {
    Seq::new(tokens.len(), |i: int| tokens[i]@)
}

/// The tokens that a text holds, or what is wrong with it.
pub uninterp spec fn tokens_of(source: Seq<char>) -> Result<Seq<TokenView>, Seq<char>>;

/// Calls [`syn::parse_str`] for a token stream, with proc_macro2's own implementation of tokens,
/// which [`proc_macro2::fallback::force`] puts in use: with it the tokens depend on the text alone.
/// What stands in brackets is printed.
#[verifier::external_body]
pub(crate) fn parse_tokens(source: &str) -> (r: Result<Vec<Token>, String>)
    ensures
        match r {
            Ok(tokens) => tokens_of(source@) == Ok::<Seq<TokenView>, Seq<char>>(
                tokens_view(tokens@),
            ),
            Err(message) => tokens_of(source@) == Err::<Seq<TokenView>, Seq<char>>(message@),
        },
{
    proc_macro2::fallback::force();
    let stream: TokenStream = syn::parse_str(source).map_err(|e: syn::Error| e.to_string())?;
    let brackets = |d: Delimiter| match d {
        Delimiter::Parenthesis => Brackets::Round,
        Delimiter::Bracket => Brackets::Square,
        Delimiter::Brace => Brackets::Curly,
        Delimiter::None => Brackets::Unwritten,
    };
    Ok(stream.into_iter().map(|tree| match tree {
        TokenTree::Ident(i) => Token::Ident(i.to_string()),
        TokenTree::Punct(p) => Token::Punct(p.as_char(), p.spacing() == Spacing::Joint),
        TokenTree::Literal(l) => Token::Literal(l.to_string()),
        TokenTree::Group(g) => Token::Group(brackets(g.delimiter()), g.stream().to_string()),
    }).collect())
}

/// How the tokens that a text holds are printed, or what is wrong with it.
pub uninterp spec fn stream_text_of(source: Seq<char>) -> Result<Seq<char>, Seq<char>>;

/// Calls [`syn::parse_str`] for a token stream and prints it, with proc_macro2's own implementation
/// of tokens, which [`proc_macro2::fallback::force`] puts in use: with it the result depends on the
/// text alone.
#[verifier::external_body]
pub(crate) fn print_stream(source: &str) -> (r: Result<String, String>)
    ensures
        match r {
            Ok(printed) => stream_text_of(source@) == Ok::<Seq<char>, Seq<char>>(printed@),
            Err(message) => stream_text_of(source@) == Err::<Seq<char>, Seq<char>>(message@),
        },
{
    proc_macro2::fallback::force();
    let stream: TokenStream = syn::parse_str(source).map_err(|e: syn::Error| e.to_string())?;
    Ok(stream.to_string())
}

/// A piece of printed tokens, and whether no space follows it.
pub struct Piece {
    /// The text.
    pub text: String,
    /// Whether no space follows it.
    pub joint: bool,
}

/// The model of a [`Piece`].
pub struct PieceView {
    /// The text.
    pub text: Seq<char>,
    /// Whether no space follows it.
    pub joint: bool,
}

impl View for Piece {
    type V = PieceView;

    open spec fn view(&self) -> PieceView {
        PieceView { text: self.text@, joint: self.joint }
    }
}

/// What a list of pieces says.
pub open spec fn pieces_view(pieces: Seq<Piece>) -> Seq<PieceView> {
    Seq::new(pieces.len(), |i: int| pieces[i]@)
}

/// A text in brackets.
pub open spec fn bracketed(brackets: Brackets, inner: Seq<char>) -> Seq<char> {
    match brackets {
        Brackets::Round => "("@ + inner + ")"@,
        Brackets::Square => "["@ + inner + "]"@,
        Brackets::Curly => "{ "@ + inner + " }"@,
        Brackets::Unwritten => inner,
    }
}

/// Puts a text in brackets.
pub fn bracket(brackets: Brackets, inner: &str) -> (r: String)
    ensures
        r@ == bracketed(brackets, inner@),
{
    match brackets {
        Brackets::Round => {
            let mut out = "(".to_string();
            out.append(inner);
            out.append(")");
            out
        },
        Brackets::Square => {
            let mut out = "[".to_string();
            out.append(inner);
            out.append("]");
            out
        },
        Brackets::Curly => {
            let mut out = "{ ".to_string();
            out.append(inner);
            out.append(" }");
            out
        },
        Brackets::Unwritten => inner.to_string(),
    }
}

/// How a token is printed.
pub open spec fn piece_of(token: TokenView) -> PieceView {
    match token {
        TokenView::Ident(name) => PieceView { text: name, joint: false },
        TokenView::Punct(c, joint) => PieceView { text: seq![c], joint },
        TokenView::Literal(written) => PieceView { text: written, joint: false },
        TokenView::Group(brackets, inner) => PieceView {
            text: bracketed(brackets, inner),
            joint: false,
        },
    }
}

/// Prints a token.
pub fn print_token(token: &Token) -> (r: Piece)
    ensures
        r@ == piece_of(token@),
{
    match token {
        Token::Ident(name) => Piece { text: name.clone(), joint: false },
        Token::Punct(c, joint) => {
            let mut text = String::new();
            text.push(*c);
            assert(text@ =~= seq![*c]);
            Piece { text, joint: *joint }
        },
        Token::Literal(written) => Piece { text: written.clone(), joint: false },
        Token::Group(brackets, inner) => Piece {
            text: bracket(*brackets, inner.as_str()),
            joint: false,
        },
    }
}

/// Pieces one behind the other, with a space behind each but the last, unless it is joint.
pub open spec fn joined(pieces: Seq<PieceView>) -> Seq<char>
    decreases pieces.len(),
{
    if pieces.len() == 0 {
        seq![]
    } else if pieces.len() == 1 {
        pieces[0].text
    } else if pieces[pieces.len() - 2].joint {
        joined(pieces.drop_last()) + pieces.last().text
    } else {
        joined(pieces.drop_last()) + " "@ + pieces.last().text
    }
}

/// Puts pieces one behind the other.
pub fn join(pieces: &Vec<Piece>) -> (r: String)
    ensures
        r@ == joined(pieces_view(pieces@)),
{
    let ghost all = pieces_view(pieces@);
    let mut out = String::new();
    let mut i: usize = 0;
    assert(out@ =~= joined(all.take(0)));
    while i < pieces.len()
        invariant
            i <= pieces@.len(),
            all == pieces_view(pieces@),
            out@ == joined(all.take(i as int)),
        decreases pieces@.len() - i,
    {
        let ghost before = out@;
        if i > 0 && !pieces[i - 1].joint {
            out.append(" ");
        }
        out.append(pieces[i].text.as_str());
        proof {
            let next = all.take(i + 1);
            assert(next.drop_last() =~= all.take(i as int));
            if i == 0 {
                assert(before =~= seq![]);
                assert(out@ =~= next[0].text);
            }
        }
        i += 1;
    }
    assert(all.take(all.len() as int) =~= all);
    out
}

/// How tokens are printed.
pub open spec fn pieces_of(tokens: Seq<TokenView>) -> Seq<PieceView> {
    tokens.map_values(|t: TokenView| piece_of(t))
}

/// How the tokens from `i` up to, not including, `e` are printed.
pub open spec fn printed(tokens: Seq<TokenView>, i: int, e: int) -> Seq<char> {
    joined(pieces_of(tokens.subrange(i, e)))
}

/// Prints the tokens from `i` up to, not including, `e`.
pub fn print_range(tokens: &Vec<Token>, i: usize, e: usize) -> (r: String)
    requires
        i <= e <= tokens@.len(),
    ensures
        r@ == printed(tokens_view(tokens@), i as int, e as int),
{
    let ghost all = tokens_view(tokens@);
    let mut pieces: Vec<Piece> = Vec::new();
    let mut k: usize = i;
    assert(pieces_view(pieces@) =~= pieces_of(all.subrange(i as int, i as int)));
    while k < e
        invariant
            i <= k <= e <= tokens@.len(),
            all == tokens_view(tokens@),
            pieces_view(pieces@) == pieces_of(all.subrange(i as int, k as int)),
        decreases e - k,
    {
        let piece = print_token(&tokens[k]);
        proof {
            lemma_pieces_push(pieces@, piece);
            assert(pieces_of(all.subrange(i as int, k + 1)) =~= pieces_of(
                all.subrange(i as int, k as int),
            ).push(piece@));
        }
        pieces.push(piece);
        k += 1;
    }
    join(&pieces)
}

/// Whether a punctuation character stands at `i`.
pub open spec fn punct_at(tokens: Seq<TokenView>, i: int, c: char) -> bool {
    0 <= i < tokens.len() && (tokens[i] matches TokenView::Punct(d, _) && d == c)
}

/// Whether a punctuation character stands at `i`.
pub fn is_punct(tokens: &Vec<Token>, i: usize, c: char) -> (r: bool)
    ensures
        r == punct_at(tokens_view(tokens@), i as int, c),
{
    if i < tokens.len() {
        match &tokens[i] {
            Token::Punct(d, _) => *d == c,
            _ => false,
        }
    } else {
        false
    }
}

/// A list with one more piece says one more thing.
pub proof fn lemma_pieces_push(pieces: Seq<Piece>, piece: Piece)
    ensures
        pieces_view(pieces.push(piece)) == pieces_view(pieces).push(piece@),
{
    assert(pieces_view(pieces.push(piece)) =~= pieces_view(pieces).push(piece@));
}

} // verus!
