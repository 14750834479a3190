//! Regenerating canonical source text from a token tree. Every token is
//! rendered with a separating space after it, except a punctuation character
//! glued to its successor; the result re-parses, though it does not preserve
//! the original formatting.

use crate::text::{chars_to_string, push_str_chars};
use crate::tokens::{Delim, SyntaxTree, Tok, TokView};
use vstd::prelude::*;

verus! {

/// The characters that one token contributes to the regenerated text.
pub open spec fn tok_chars(t: TokView) -> Seq<char> {
    match t {
        TokView::Ident(s) => s + seq![' '],
        TokView::Punct(c, j) => if j {
            seq![c]
        } else {
            seq![c, ' ']
        },
        TokView::Lit(s) => s + seq![' '],
        TokView::Open(d) => match d {
            Delim::Paren => seq!['(', ' '],
            Delim::Bracket => seq!['[', ' '],
            Delim::Brace => seq!['{', ' '],
            Delim::Invisible => Seq::empty(),
        },
        TokView::Close(d) => match d {
            Delim::Paren => seq![')', ' '],
            Delim::Bracket => seq![']', ' '],
            Delim::Brace => seq!['}', ' '],
            Delim::Invisible => Seq::empty(),
        },
    }
}

/// The regenerated text of a whole token sequence.
pub open spec fn unparse_spec(ts: Seq<TokView>) -> Seq<char>
    decreases ts.len(),
{
    if ts.len() == 0 {
        Seq::empty()
    } else {
        tok_chars(ts[0]) + unparse_spec(ts.drop_first())
    }
}

/// Unfolds one step of `unparse_spec` at an arbitrary split point.
proof fn lemma_unparse_step(ts: Seq<TokView>, i: int)
    requires
        0 <= i < ts.len(),
    ensures
        unparse_spec(ts.subrange(i, ts.len() as int)) == tok_chars(ts[i]) + unparse_spec(
            ts.subrange(i + 1, ts.len() as int),
        ),
{
    let suffix = ts.subrange(i, ts.len() as int);
    assert(suffix[0] == ts[i]);
    assert(suffix.drop_first() =~= ts.subrange(i + 1, ts.len() as int));
}

/// Appends the rendered characters of one token to `out`.
fn push_tok_chars(out: &mut Vec<char>, t: &Tok)
    ensures
        final(out)@ == old(out)@ + tok_chars(t@),
{
    match t {
        Tok::Ident(s) => {
            push_str_chars(out, s.as_str());
            out.push(' ');
            proof {
                assert(out@ =~= old(out)@ + tok_chars(t@));
            }
        },
        Tok::Punct(c, j) => {
            out.push(*c);
            if !*j {
                out.push(' ');
            }
            proof {
                assert(out@ =~= old(out)@ + tok_chars(t@));
            }
        },
        Tok::Lit(s) => {
            push_str_chars(out, s.as_str());
            out.push(' ');
            proof {
                assert(out@ =~= old(out)@ + tok_chars(t@));
            }
        },
        Tok::Open(d) => {
            match d {
                Delim::Paren => {
                    out.push('(');
                    out.push(' ');
                },
                Delim::Bracket => {
                    out.push('[');
                    out.push(' ');
                },
                Delim::Brace => {
                    out.push('{');
                    out.push(' ');
                },
                Delim::Invisible => {},
            }
            proof {
                assert(out@ =~= old(out)@ + tok_chars(t@));
            }
        },
        Tok::Close(d) => {
            match d {
                Delim::Paren => {
                    out.push(')');
                    out.push(' ');
                },
                Delim::Bracket => {
                    out.push(']');
                    out.push(' ');
                },
                Delim::Brace => {
                    out.push('}');
                    out.push(' ');
                },
                Delim::Invisible => {},
            }
            proof {
                assert(out@ =~= old(out)@ + tok_chars(t@));
            }
        },
    }
}

/// The no-op rename changes nothing in the regenerated text either:
/// renaming a name to itself leaves the unparsed source identical.
pub proof fn lemma_noop_rename_unparse(ts: Seq<TokView>, name: Seq<char>)
    ensures
        unparse_spec(crate::rename::rename_spec(ts, name, name)) == unparse_spec(ts),
{
    crate::rename::lemma_rename_same_name_identity(ts, name);
}

/// Regenerates canonical source text from the tree.
pub fn unparse(tree: &SyntaxTree) -> (r: String)
    ensures
        r@ == unparse_spec(tree@),
{
    let n = tree.toks.len();
    let mut out: Vec<char> = Vec::new();
    let mut i: usize = 0;
    proof {
        assert(tree@.subrange(0, n as int) =~= tree@);
        assert(out@ + unparse_spec(tree@) =~= unparse_spec(tree@));
    }
    while i < n
        invariant
            i <= n,
            n == tree.toks.len(),
            out@ + unparse_spec(tree@.subrange(i as int, n as int)) == unparse_spec(tree@),
            n == tree@.len(),
        decreases n - i,
    {
        proof {
            lemma_unparse_step(tree@, i as int);
            assert(tree@[i as int] == tree.toks@[i as int]@);
        }
        push_tok_chars(&mut out, &tree.toks[i]);
        i = i + 1;
        proof {
            assert(out@ + unparse_spec(tree@.subrange(i as int, n as int)) =~= unparse_spec(
                tree@,
            ));
        }
    }
    proof {
        assert(tree@.subrange(n as int, n as int) =~= Seq::<TokView>::empty());
        assert(out@ =~= unparse_spec(tree@));
    }
    chars_to_string(&out)
}

} // verus!
