//! Textual-identity rename: every identifier token whose text equals the old
//! name is rewritten to the new name, at any nesting depth and in any
//! syntactic role. The rename has no notion of scope or shadowing.

use crate::tokens::{toks_view, SyntaxTree, Tok, TokView};
use vstd::prelude::*;

verus! {

/// One token after the rename: an identifier equal to `old_name` becomes
/// `new_name`; every other token is unchanged.
pub open spec fn rename_tok(t: TokView, old_name: Seq<char>, new_name: Seq<char>) -> TokView {
    match t {
        TokView::Ident(s) => if s == old_name {
            TokView::Ident(new_name)
        } else {
            t
        },
        _ => t,
    }
}

/// The whole token sequence after the rename, token by token.
pub open spec fn rename_spec(ts: Seq<TokView>, old_name: Seq<char>, new_name: Seq<char>) -> Seq<
    TokView,
> {
    ts.map_values(|t: TokView| rename_tok(t, old_name, new_name))
}

/// Rewrites every identifier token equal to `old_name` into `new_name`,
/// throughout the tree, and leaves every other token untouched.
pub fn rename(tree: &SyntaxTree, old_name: &str, new_name: &str) -> (r: SyntaxTree)
    ensures
        r@ == rename_spec(tree@, old_name@, new_name@),
{
    let n = tree.toks.len();
    let mut toks: Vec<Tok> = Vec::new();
    let mut i: usize = 0;
    while i < n
        invariant
            i <= n,
            n == tree.toks.len(),
            toks.len() == i,
            forall|k: int|
                0 <= k < i ==> toks@[k]@ == rename_tok(tree.toks@[k]@, old_name@, new_name@),
        decreases n - i,
    {
        let t = &tree.toks[i];
        if t.is_ident(old_name) {
            toks.push(Tok::Ident(String::from_str(new_name)));
        } else {
            toks.push(t.duplicate());
        }
        i = i + 1;
    }
    proof {
        assert(toks_view(toks@) =~= rename_spec(tree@, old_name@, new_name@));
    }
    SyntaxTree { toks }
}

/// Renaming a name to itself changes no token at all. Together with the
/// discovery contract this gives the no-op-rename round trip: a later
/// discovery pass over the renamed tree sees the identical token sequence,
/// hence yields the identical variable list.
pub proof fn lemma_rename_same_name_identity(ts: Seq<TokView>, name: Seq<char>)
    ensures
        rename_spec(ts, name, name) == ts,
{
    assert forall|i: int| 0 <= i < ts.len() implies rename_spec(ts, name, name)[i] == ts[i] by {
        match ts[i] {
            TokView::Ident(s) => {},
            _ => {},
        }
    }
    assert(rename_spec(ts, name, name) =~= ts);
}

} // verus!
