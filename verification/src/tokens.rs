//! The crate's own model of a lexed program: a flat sequence of tokens in
//! source order, with explicit open/close markers for delimited groups.

use vstd::prelude::*;

verus! {

/// A delimiter kind for grouped tokens.
#[derive(Clone, Copy, PartialEq, Eq, Structural, Debug)]
pub enum Delim {
    Paren,
    Bracket,
    Brace,
    /// Invisible grouping; carries no characters in the rendered text.
    Invisible,
}

/// One token of a program, as the lexer hands it over.
#[derive(Debug)]
pub enum Tok {
    /// An identifier or keyword, by its text.
    Ident(String),
    /// A punctuation character; the flag is true when the character is glued
    /// to the following token (as the first `:` of `::` is).
    Punct(char, bool),
    /// A literal, by its verbatim source text.
    Lit(String),
    /// Start of a delimited group.
    Open(Delim),
    /// End of a delimited group.
    Close(Delim),
}

/// The mathematical value of one token.
pub enum TokView {
    Ident(Seq<char>),
    Punct(char, bool),
    Lit(Seq<char>),
    Open(Delim),
    Close(Delim),
}

impl View for Tok {
    type V = TokView;

    open spec fn view(&self) -> TokView {
        match self {
            Tok::Ident(s) => TokView::Ident(s@),
            Tok::Punct(c, j) => TokView::Punct(*c, *j),
            Tok::Lit(s) => TokView::Lit(s@),
            Tok::Open(d) => TokView::Open(*d),
            Tok::Close(d) => TokView::Close(*d),
        }
    }
}

/// The value of a token sequence: each token by its view.
pub open spec fn toks_view(ts: Seq<Tok>) -> Seq<TokView> {
    ts.map_values(|t: Tok| t@)
}

/// A parsed program: the flat token sequence of its source text.
#[derive(Debug)]
pub struct SyntaxTree {
    pub toks: Vec<Tok>,
}

impl View for SyntaxTree {
    type V = Seq<TokView>;

    open spec fn view(&self) -> Seq<TokView> {
        toks_view(self.toks@)
    }
}

impl Tok {
    /// An equal token, field for field.
    pub fn duplicate(&self) -> (r: Tok)
        ensures
            r@ == self@,
    {
        match self {
            Tok::Ident(s) => Tok::Ident(s.clone()),
            Tok::Punct(c, j) => Tok::Punct(*c, *j),
            Tok::Lit(s) => Tok::Lit(s.clone()),
            Tok::Open(d) => Tok::Open(*d),
            Tok::Close(d) => Tok::Close(*d),
        }
    }

    /// Whether this token is the identifier with text `w`.
    pub fn is_ident(&self, w: &str) -> (r: bool)
        ensures
            r <==> self@ == TokView::Ident(w@),
    {
        match self {
            Tok::Ident(s) => str_eq(s.as_str(), w),
            _ => false,
        }
    }

    /// Whether this token is the stand-alone punctuation character `c`.
    pub fn is_punct_alone(&self, c: char) -> (r: bool)
        ensures
            r <==> self@ == TokView::Punct(c, false),
    {
        match self {
            Tok::Punct(pc, j) => *pc == c && !*j,
            _ => false,
        }
    }

    /// Whether this token is the punctuation character `c` with gluing `joint`.
    pub fn is_punct(&self, c: char, joint: bool) -> (r: bool)
        ensures
            r <==> self@ == TokView::Punct(c, joint),
    {
        match self {
            Tok::Punct(pc, j) => *pc == c && *j == joint,
            _ => false,
        }
    }

    /// Whether this token opens a group with delimiter `d`.
    pub fn is_open(&self, d: Delim) -> (r: bool)
        ensures
            r <==> self@ == TokView::Open(d),
    {
        match self {
            Tok::Open(dd) => *dd == d,
            _ => false,
        }
    }

    /// Whether this token closes a group with delimiter `d`.
    pub fn is_close(&self, d: Delim) -> (r: bool)
        ensures
            r <==> self@ == TokView::Close(d),
    {
        match self {
            Tok::Close(dd) => *dd == d,
            _ => false,
        }
    }

    /// Whether this token is the punctuation character `c`, glued or not.
    pub fn is_punct_char(&self, c: char) -> (r: bool)
        ensures
            r <==> (self@ matches TokView::Punct(cc, _) && cc == c),
    {
        match self {
            Tok::Punct(pc, _) => *pc == c,
            _ => false,
        }
    }

    /// Whether this token opens a group, whatever its delimiter.
    pub fn opens_group(&self) -> (r: bool)
        ensures
            r <==> self@ is Open,
    {
        match self {
            Tok::Open(_) => true,
            _ => false,
        }
    }

    /// Whether this token is an identifier, whatever its text.
    pub fn is_any_ident(&self) -> (r: bool)
        ensures
            r <==> self@ is Ident,
    {
        match self {
            Tok::Ident(_) => true,
            _ => false,
        }
    }

    /// Whether this token is a glued punctuation character.
    pub fn is_joint_punct(&self) -> (r: bool)
        ensures
            r <==> (self@ matches TokView::Punct(_, j) && j),
    {
        match self {
            Tok::Punct(_, j) => *j,
            _ => false,
        }
    }
}

/// Whether two string slices carry the same characters.
pub fn str_eq(a: &str, b: &str) -> (r: bool)
    ensures
        r <==> a@ == b@,
{
    let sa = String::from_str(a);
    let sb = String::from_str(b);
    sa == sb
}

} // verus!
