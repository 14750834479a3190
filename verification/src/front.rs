//! The grammar front-end boundary: lexing and syntax checking are done by
//! the outside parser crates behind trusted wrappers; everything after the
//! flat token sequence is verified.

use crate::tokens::{toks_view, Delim, SyntaxTree, Tok, TokView};
use proc_macro2::{Delimiter, Spacing, TokenTree};
use vstd::prelude::*;

verus! {

/// A parse failure, with the front-end's message and reported location.
#[derive(Debug)]
pub struct ParseError {
    pub message: String,
    pub line: usize,
    pub column: usize,
}

/// Whether the grammar front-end accepts `s` as a program.
pub uninterp spec fn parses(s: Seq<char>) -> bool;

/// The tokens that the lexer produces for `s`, or nothing when the lexer
/// refuses `s`.
pub uninterp spec fn lex_of(s: Seq<char>) -> Option<Seq<TokView>>;

/// The flattened contents of an outside token stream: leaf tokens in source
/// order, each delimited group bracketed by open and close markers.
pub uninterp spec fn stream_view(ts: proc_macro2::TokenStream) -> Seq<TokView>;

#[verifier::external_type_specification]
#[verifier::external_body]
pub struct ExTokenStream(proc_macro2::TokenStream);

/// Relies on `syn::parse_file`: reports the parse failure, if any, with its
/// message and the line and column of the offending span. Acceptance is a
/// function of the text alone.
#[verifier::external_body]
fn check_syntax(text: &str) -> (r: Option<ParseError>)
    ensures
        r is None <==> parses(text@),
{
    match syn::parse_file(text) {
        Ok(_) => None,
        Err(e) => {
            let start = e.span().start();
            Some(ParseError { message: e.to_string(), line: start.line, column: start.column })
        },
    }
}

/// Relies on `proc_macro2::TokenStream`'s `FromStr` (`str::parse`): lexing
/// succeeds or fails, and yields its tokens, as a function of the text alone.
#[verifier::external_body]
fn lex_source(text: &str) -> (r: Option<proc_macro2::TokenStream>)
    ensures
        r is Some <==> lex_of(text@) is Some,
        (r matches Some(ts) ==> Some(stream_view(ts)) == lex_of(text@)),
{
    text.parse().ok()
}

/// Relies on iterating a `proc_macro2::TokenStream` and on the accessors of
/// its `Group`, `Ident`, `Punct` and `Literal` tokens: hands out the stream's
/// contents, flattened in source order with explicit delimiters. The body
/// recurses into nested groups, as the parser that built the stream already
/// did, so pathologically deep nesting exhausts the stack.
#[verifier::external_body]
fn flatten(ts: proc_macro2::TokenStream) -> (r: Vec<Tok>)
    ensures
        toks_view(r@) == stream_view(ts),
{
    let mut out: Vec<Tok> = Vec::new();
    for tt in ts {
        match tt {
            TokenTree::Group(g) => {
                let d = match g.delimiter() { Delimiter::Parenthesis => Delim::Paren, Delimiter::Bracket => Delim::Bracket, Delimiter::Brace => Delim::Brace, Delimiter::None => Delim::Invisible };
                out.push(Tok::Open(d)); out.append(&mut flatten(g.stream())); out.push(Tok::Close(d));
            }
            TokenTree::Ident(i) => out.push(Tok::Ident(i.to_string())),
            TokenTree::Punct(p) => out.push(Tok::Punct(p.as_char(), p.spacing() == Spacing::Joint)),
            TokenTree::Literal(l) => out.push(Tok::Lit(l.to_string())),
        }
    }
    out
}

/// Parses a source text into the crate's token tree. Succeeds exactly when
/// the grammar front-end accepts the text and the lexer reads it; the tree
/// then holds the lexer's tokens for this text.
pub fn parse(text: &str) -> (r: Result<SyntaxTree, ParseError>)
    ensures
        r is Ok <==> parses(text@) && lex_of(text@) is Some,
        (r matches Ok(t) ==> Some(t@) == lex_of(text@)),
{
    match check_syntax(text) {
        Some(e) => Err(e),
        None => match lex_source(text) {
            Some(ts) => Ok(SyntaxTree { toks: flatten(ts) }),
            None => Err(
                ParseError {
                    message: String::from_str("the lexer does not accept this text"),
                    line: 0,
                    column: 0,
                },
            ),
        },
    }
}

} // verus!
