//! Variable discovery: one pass over the flat token sequence finds every
//! typed local-variable declaration, in source order and at any nesting
//! depth, classifies its declared type, and reads a recognized literal
//! initializer into the variable's value. A macro invocation's token
//! stream is opaque: the scan steps over it whole.

use crate::lit::{lit_info, lit_info_of, LitInfo, LitInfoView};
use crate::model::{
    classify, classify_spec, default_value, default_value_spec, value_fits, var_wf, vars_view,
    SemanticType, ValueView, Variable, VariableValue, VariableView,
};
use crate::tokens::{str_eq, toks_view, Delim, SyntaxTree, Tok, TokView};
use vstd::prelude::*;

verus! {

/// Whether the token at `j` ends a declaration statement: a stand-alone `;`.
pub open spec fn is_stmt_end(ts: Seq<TokView>, j: int) -> bool {
    ts[j] == TokView::Punct(';', false)
}

/// Whether the token at `j` is an assignment `=`: stand-alone, and not the
/// tail of a glued operator such as `==` or `+=`.
pub open spec fn is_assign(ts: Seq<TokView>, j: int) -> bool {
    &&& ts[j] == TokView::Punct('=', false)
    &&& (j == 0 || !(ts[j - 1] matches TokView::Punct(_, jj) && jj))
}

/// The first position at or after `j` holding an assignment `=` or a
/// statement-ending `;`.
pub open spec fn find_eq_or_semi(ts: Seq<TokView>, j: int) -> Option<int>
    decreases ts.len() - j,
{
    if j >= ts.len() {
        None
    } else if is_stmt_end(ts, j) || is_assign(ts, j) {
        Some(j)
    } else {
        find_eq_or_semi(ts, j + 1)
    }
}

pub proof fn lemma_find_eq_or_semi_bounds(ts: Seq<TokView>, j: int)
    ensures
        find_eq_or_semi(ts, j) matches Some(k) ==> j <= k < ts.len(),
    decreases ts.len() - j,
{
    if j >= ts.len() {
    } else if is_stmt_end(ts, j) || is_assign(ts, j) {
    } else {
        lemma_find_eq_or_semi_bounds(ts, j + 1);
    }
}

/// The declared type's text, read from the annotation tokens `ts[start..end]`:
/// a single identifier is taken verbatim, exactly `&` followed by `str` is
/// the borrowed text type, and every other shape collapses to a placeholder
/// name outside the closed classification table.
pub open spec fn type_text_of(ts: Seq<TokView>, start: int, end: int) -> Seq<char> {
    match ts[start] {
        TokView::Ident(s) => if end == start + 1 {
            s
        } else {
            "Unknown"@
        },
        TokView::Punct(c, _) => if c == '&' && end == start + 2 && ts[start + 1]
            == TokView::Ident("str"@) {
            "&str"@
        } else {
            "Unsupported"@
        },
        _ => "Unsupported"@,
    }
}

/// The value read from a single literal token of text `ltext`, when that
/// literal matches the declared semantic kind; an integer too wide for `i64`
/// collapses to zero.
pub open spec fn lit_value_spec(ltext: Seq<char>, sem: SemanticType) -> Option<ValueView> {
    match lit_info_of(ltext) {
        LitInfoView::IntLit(o) => if sem == SemanticType::Integer {
            Some(
                ValueView::IntVal(
                    match o {
                        Some(v) => v,
                        None => 0,
                    },
                ),
            )
        } else {
            None
        },
        LitInfoView::FloatLit(d) => if sem == SemanticType::Float {
            Some(ValueView::FloatVal(d))
        } else {
            None
        },
        LitInfoView::StrLit(s) => if sem == SemanticType::Text {
            Some(ValueView::TextVal(s))
        } else {
            None
        },
        LitInfoView::BoolLit(_) => None,
        LitInfoView::OtherLit => None,
    }
}

/// Whether the initializer starting at `p` is a call of the owned-text
/// constructor on a quoted literal, closed off by the statement's `;`.
pub open spec fn is_text_ctor_init(ts: Seq<TokView>, p: int) -> bool {
    &&& p + 7 < ts.len()
    &&& ts[p] == TokView::Ident("String"@)
    &&& ts[p + 1] == TokView::Punct(':', true)
    &&& ts[p + 2] == TokView::Punct(':', false)
    &&& ts[p + 3] == TokView::Ident("from"@)
    &&& ts[p + 4] == TokView::Open(Delim::Paren)
    &&& (ts[p + 5] matches TokView::Lit(_))
    &&& ts[p + 6] == TokView::Close(Delim::Paren)
    &&& ts[p + 7] == TokView::Punct(';', false)
}

/// The value a declaration's initializer contributes, reading the tokens
/// from `p` (just after the `=`): a direct literal of the declared kind, a
/// boolean keyword, or the owned-text constructor on a quoted literal; any
/// other initializer form leaves the kind's default in place.
pub open spec fn init_value_spec(ts: Seq<TokView>, p: int, sem: SemanticType) -> ValueView {
    if p + 1 < ts.len() && ts[p + 1] == TokView::Punct(';', false) {
        match ts[p] {
            TokView::Lit(lt) => match lit_value_spec(lt, sem) {
                Some(v) => v,
                None => default_value_spec(sem),
            },
            TokView::Ident(w) => if sem == SemanticType::Boolean && w == "true"@ {
                ValueView::BoolVal(true)
            } else if sem == SemanticType::Boolean && w == "false"@ {
                ValueView::BoolVal(false)
            } else {
                default_value_spec(sem)
            },
            _ => default_value_spec(sem),
        }
    } else if sem == SemanticType::Text && is_text_ctor_init(ts, p) {
        match ts[p + 5] {
            TokView::Lit(lt) => match lit_info_of(lt) {
                LitInfoView::StrLit(s) => ValueView::TextVal(s),
                _ => default_value_spec(sem),
            },
            _ => default_value_spec(sem),
        }
    } else {
        default_value_spec(sem)
    }
}

/// The declaration starting at token `i`, if the tokens there read
/// `let` [`mut`] name `:` type, followed by `;` or by `=` and an
/// initializer. Yields the discovered variable and the position just past
/// the type annotation's delimiter, where scanning resumes (so that
/// declarations nested inside an initializer are still found).
pub open spec fn decl_at(ts: Seq<TokView>, i: int) -> Option<(VariableView, int)> {
    if !(0 <= i < ts.len() && ts[i] == TokView::Ident("let"@)) {
        None
    } else {
        let ni = if i + 1 < ts.len() && ts[i + 1] == TokView::Ident("mut"@) {
            i + 2
        } else {
            i + 1
        };
        if !(ni + 1 < ts.len()) {
            None
        } else {
            match ts[ni] {
                TokView::Ident(name) => if ts[ni + 1] == TokView::Punct(':', false) {
                    match find_eq_or_semi(ts, ni + 2) {
                        Some(j) => if j == ni + 2 {
                            None
                        } else {
                            let ty = type_text_of(ts, ni + 2, j);
                            let sem = classify_spec(ty);
                            let value = if is_stmt_end(ts, j) {
                                default_value_spec(sem)
                            } else {
                                init_value_spec(ts, j + 1, sem)
                            };
                            Some(
                                (
                                    VariableView {
                                        name,
                                        type_text: ty,
                                        semantic_type: sem,
                                        value,
                                    },
                                    j + 1,
                                ),
                            )
                        },
                        None => None,
                    }
                } else {
                    None
                },
                _ => None,
            }
        }
    }
}

pub proof fn lemma_decl_at_bounds(ts: Seq<TokView>, i: int)
    ensures
        decl_at(ts, i) matches Some((v, next)) ==> i < next <= ts.len(),
{
    if 0 <= i < ts.len() && ts[i] == TokView::Ident("let"@) {
        let ni = if i + 1 < ts.len() && ts[i + 1] == TokView::Ident("mut"@) {
            i + 2
        } else {
            i + 1
        };
        lemma_find_eq_or_semi_bounds(ts, ni + 2);
    }
}

/// The index just past the group scanned from `j` at nesting `depth`:
/// openers raise the depth, the closer that brings it back down ends the
/// group; nothing when it never closes.
pub open spec fn group_end(ts: Seq<TokView>, j: int, depth: int) -> Option<int>
    decreases ts.len() - j,
{
    if j >= ts.len() {
        None
    } else {
        match ts[j] {
            TokView::Open(_) => group_end(ts, j + 1, depth + 1),
            TokView::Close(_) => if depth <= 1 {
                Some(j + 1)
            } else {
                group_end(ts, j + 1, depth - 1)
            },
            _ => group_end(ts, j + 1, depth),
        }
    }
}

pub proof fn lemma_group_end_bounds(ts: Seq<TokView>, j: int, depth: int)
    ensures
        group_end(ts, j, depth) matches Some(k) ==> j < k <= ts.len(),
    decreases ts.len() - j,
{
    if j >= ts.len() {
    } else {
        match ts[j] {
            TokView::Open(_) => lemma_group_end_bounds(ts, j + 1, depth + 1),
            TokView::Close(_) => lemma_group_end_bounds(ts, j + 1, depth - 1),
            _ => lemma_group_end_bounds(ts, j + 1, depth),
        }
    }
}

/// Where a macro invocation's token group starts, when the token at `i` is
/// the macro bang: directly after the `!`, or after one name token, as in a
/// macro definition's `name { .. }`.
pub open spec fn macro_group_start(ts: Seq<TokView>, i: int) -> Option<int> {
    if !(ts[i] matches TokView::Punct(c, _) && c == '!') {
        None
    } else if i + 1 < ts.len() && ts[i + 1] is Open {
        Some(i + 1)
    } else if i + 2 < ts.len() && ts[i + 1] is Ident && ts[i + 2] is Open {
        Some(i + 2)
    } else {
        None
    }
}

/// The ordered variables of all declarations found from token `i` on: a
/// single top-to-bottom scan, entering every nested region except a macro
/// invocation's token group, which is opaque and stepped over whole.
pub open spec fn discover_from(ts: Seq<TokView>, i: int) -> Seq<VariableView>
    decreases ts.len() - i,
    when i >= 0
    via discover_from_decreases
{
    if i >= ts.len() {
        Seq::empty()
    } else {
        match decl_at(ts, i) {
            Some((v, next)) => seq![v] + discover_from(ts, next),
            None => match macro_group_start(ts, i) {
                Some(g) => match group_end(ts, g, 0) {
                    Some(k) => discover_from(ts, k),
                    None => discover_from(ts, i + 1),
                },
                None => discover_from(ts, i + 1),
            },
        }
    }
}

#[via_fn]
proof fn discover_from_decreases(ts: Seq<TokView>, i: int) {
    lemma_decl_at_bounds(ts, i);
    if 0 <= i < ts.len() {
        match macro_group_start(ts, i) {
            Some(g) => {
                lemma_group_end_bounds(ts, g, 0);
            },
            None => {},
        }
    }
}

/// The variable list of one discovery pass over the whole tree.
pub open spec fn discover_spec(ts: Seq<TokView>) -> Seq<VariableView> {
    discover_from(ts, 0)
}

fn find_eq_or_semi_exec(toks: &Vec<Tok>, j0: usize) -> (r: Option<usize>)
    ensures
        match r {
            Some(k) => j0 <= k < toks.len() && find_eq_or_semi(toks_view(toks@), j0 as int)
                == Some(k as int),
            None => find_eq_or_semi(toks_view(toks@), j0 as int) is None,
        },
{
    let ghost ts = toks_view(toks@);
    let n = toks.len();
    let mut j = j0;
    while j < n
        invariant
            j0 <= j,
            n == toks.len(),
            ts == toks_view(toks@),
            find_eq_or_semi(ts, j0 as int) == find_eq_or_semi(ts, j as int),
        decreases n - j,
    {
        proof {
            assert(ts[j as int] == toks@[j as int]@);
            if j > 0 {
                assert(ts[j as int - 1] == toks@[j as int - 1]@);
            }
        }
        let semi = toks[j].is_punct_alone(';');
        let assign = toks[j].is_punct_alone('=') && (j == 0 || !toks[j - 1].is_joint_punct());
        if semi || assign {
            proof {
                assert(is_stmt_end(ts, j as int) || is_assign(ts, j as int));
                assert(find_eq_or_semi(ts, j as int) == Some(j as int));
            }
            return Some(j);
        }
        proof {
            assert(!(is_stmt_end(ts, j as int) || is_assign(ts, j as int)));
            assert(find_eq_or_semi(ts, j as int) == find_eq_or_semi(ts, j as int + 1));
        }
        j = j + 1;
    }
    None
}

fn type_text_exec(toks: &Vec<Tok>, start: usize, end: usize) -> (r: String)
    requires
        start < end <= toks.len(),
    ensures
        r@ == type_text_of(toks_view(toks@), start as int, end as int),
{
    proof {
        assert(toks_view(toks@)[start as int] == toks@[start as int]@);
        if start + 1 < toks.len() {
            assert(toks_view(toks@)[start as int + 1] == toks@[start as int + 1]@);
        }
    }
    match &toks[start] {
        Tok::Ident(s) => if end - start == 1 {
            s.clone()
        } else {
            String::from_str("Unknown")
        },
        Tok::Punct(c, _) => if *c == '&' && end - start == 2 && toks[start + 1].is_ident("str") {
            String::from_str("&str")
        } else {
            String::from_str("Unsupported")
        },
        _ => String::from_str("Unsupported"),
    }
}

/// Reads a single literal initializer of the declared kind, if it is one.
fn lit_value_exec(lt: &str, sem: SemanticType) -> (r: Option<VariableValue>)
    ensures
        match r {
            Some(v) => lit_value_spec(lt@, sem) == Some(v@),
            None => lit_value_spec(lt@, sem) is None,
        },
{
    let info = lit_info(lt);
    match info {
        LitInfo::IntLit(o) => if sem == SemanticType::Integer {
            match o {
                Some(v) => Some(VariableValue::IntVal(v)),
                None => Some(VariableValue::IntVal(0)),
            }
        } else {
            None
        },
        LitInfo::FloatLit(d) => if sem == SemanticType::Float {
            Some(VariableValue::FloatVal(d))
        } else {
            None
        },
        LitInfo::StrLit(s) => if sem == SemanticType::Text {
            Some(VariableValue::TextVal(s))
        } else {
            None
        },
        LitInfo::BoolLit(_) => None,
        LitInfo::OtherLit => None,
    }
}

fn init_value_exec(toks: &Vec<Tok>, p: usize, sem: SemanticType) -> (r: VariableValue)
    requires
        p <= toks.len(),
    ensures
        r@ == init_value_spec(toks_view(toks@), p as int, sem),
{
    let ghost ts = toks_view(toks@);
    let n = toks.len();
    if p < n {
        proof {
            assert(ts[p as int] == toks@[p as int]@);
            if p + 1 < n {
                assert(ts[p as int + 1] == toks@[p as int + 1]@);
            }
        }
        if p + 1 < n && toks[p + 1].is_punct_alone(';') {
            match &toks[p] {
                Tok::Lit(lt) => match lit_value_exec(lt.as_str(), sem) {
                    Some(v) => v,
                    None => default_value(sem),
                },
                Tok::Ident(w) => {
                    if sem == SemanticType::Boolean && str_eq(w.as_str(), "true") {
                        VariableValue::BoolVal(true)
                    } else if sem == SemanticType::Boolean && str_eq(w.as_str(), "false") {
                        VariableValue::BoolVal(false)
                    } else {
                        default_value(sem)
                    }
                },
                _ => default_value(sem),
            }
        } else if sem == SemanticType::Text && n - p > 7 {
            proof {
                assert forall|k: int| 0 <= k < 8 implies ts[p as int + k] == (#[trigger] toks@[p
                    as int + k])@ by {}
            }
            let ctor = toks[p].is_ident("String") && toks[p + 1].is_punct(':', true) && toks[p
                + 2].is_punct(':', false) && toks[p + 3].is_ident("from") && toks[p + 4].is_open(
                Delim::Paren,
            ) && toks[p + 6].is_close(Delim::Paren) && toks[p + 7].is_punct_alone(';');
            if ctor {
                match &toks[p + 5] {
                    Tok::Lit(lt) => {
                        let info = lit_info(lt.as_str());
                        match info {
                            LitInfo::StrLit(s) => VariableValue::TextVal(s),
                            _ => default_value(sem),
                        }
                    },
                    _ => default_value(sem),
                }
            } else {
                proof {
                    assert(!is_text_ctor_init(ts, p as int));
                }
                default_value(sem)
            }
        } else {
            default_value(sem)
        }
    } else {
        default_value(sem)
    }
}

fn macro_start_exec(toks: &Vec<Tok>, i: usize) -> (r: Option<usize>)
    requires
        i < toks.len(),
    ensures
        match r {
            Some(g) => i < g < toks.len() && macro_group_start(toks_view(toks@), i as int)
                == Some(g as int),
            None => macro_group_start(toks_view(toks@), i as int) is None,
        },
{
    let ghost ts = toks_view(toks@);
    let n = toks.len();
    proof {
        assert(ts[i as int] == toks@[i as int]@);
    }
    if !toks[i].is_punct_char('!') {
        return None;
    }
    if i + 1 < n {
        proof {
            assert(ts[i as int + 1] == toks@[i as int + 1]@);
        }
        if toks[i + 1].opens_group() {
            return Some(i + 1);
        }
        if i + 2 < n {
            proof {
                assert(ts[i as int + 2] == toks@[i as int + 2]@);
            }
            if toks[i + 1].is_any_ident() && toks[i + 2].opens_group() {
                return Some(i + 2);
            }
        }
    }
    None
}

fn skip_group_exec(toks: &Vec<Tok>, g: usize) -> (r: Option<usize>)
    requires
        g <= toks.len(),
    ensures
        match r {
            Some(k) => g < k <= toks.len() && group_end(toks_view(toks@), g as int, 0) == Some(
                k as int,
            ),
            None => group_end(toks_view(toks@), g as int, 0) is None,
        },
{
    let ghost ts = toks_view(toks@);
    let n = toks.len();
    let mut j = g;
    let mut depth: usize = 0;
    while j < n
        invariant
            g <= j <= n,
            n == toks.len(),
            ts == toks_view(toks@),
            depth <= j,
            group_end(ts, g as int, 0) == group_end(ts, j as int, depth as int),
        decreases n - j,
    {
        proof {
            assert(ts[j as int] == toks@[j as int]@);
        }
        match &toks[j] {
            Tok::Open(_) => {
                proof {
                    assert(group_end(ts, j as int, depth as int) == group_end(
                        ts,
                        j as int + 1,
                        depth as int + 1,
                    ));
                }
                depth = depth + 1;
            },
            Tok::Close(_) => {
                if depth <= 1 {
                    proof {
                        assert(group_end(ts, j as int, depth as int) == Some(j as int + 1));
                    }
                    return Some(j + 1);
                }
                proof {
                    assert(group_end(ts, j as int, depth as int) == group_end(
                        ts,
                        j as int + 1,
                        depth as int - 1,
                    ));
                }
                depth = depth - 1;
            },
            _ => {
                proof {
                    assert(group_end(ts, j as int, depth as int) == group_end(
                        ts,
                        j as int + 1,
                        depth as int,
                    ));
                }
            },
        }
        j = j + 1;
    }
    None
}

fn try_decl(toks: &Vec<Tok>, i: usize) -> (r: Option<(Variable, usize)>)
    requires
        i < toks.len(),
    ensures
        match r {
            Some((v, next)) => i < next <= toks.len() && decl_at(toks_view(toks@), i as int)
                == Some((v@, next as int)),
            None => decl_at(toks_view(toks@), i as int) is None,
        },
{
    let ghost ts = toks_view(toks@);
    let n = toks.len();
    proof {
        assert(ts[i as int] == toks@[i as int]@);
    }
    if !toks[i].is_ident("let") {
        return None;
    }
    proof {
        if i + 1 < n {
            assert(ts[i as int + 1] == toks@[i as int + 1]@);
        }
    }
    let ni = if i + 1 < n && toks[i + 1].is_ident("mut") {
        i + 2
    } else {
        i + 1
    };
    if !(ni < n - 1) {
        return None;
    }
    proof {
        assert(ts[ni as int] == toks@[ni as int]@);
        assert(ts[ni as int + 1] == toks@[ni as int + 1]@);
    }
    let name: String = match &toks[ni] {
        Tok::Ident(s) => s.clone(),
        _ => {
            return None;
        },
    };
    if !toks[ni + 1].is_punct_alone(':') {
        return None;
    }
    match find_eq_or_semi_exec(toks, ni + 2) {
        Some(j) => {
            if j == ni + 2 {
                return None;
            }
            proof {
                assert(ts[j as int] == toks@[j as int]@);
            }
            let ty = type_text_exec(toks, ni + 2, j);
            let sem = classify(ty.as_str());
            let value = if toks[j].is_punct_alone(';') {
                default_value(sem)
            } else {
                init_value_exec(toks, j + 1, sem)
            };
            let var = Variable { name, type_text: ty, semantic_type: sem, value };
            Some((var, j + 1))
        },
        None => None,
    }
}

/// One discovery pass: the ordered list of every typed local-variable
/// declaration in the tree, each well formed, with its classified kind and
/// its literal or default value.
pub fn discover(tree: &SyntaxTree) -> (r: Vec<Variable>)
    ensures
        vars_view(r@) == discover_spec(tree@),
        forall|k: int| 0 <= k < r@.len() ==> var_wf(#[trigger] vars_view(r@)[k]),
{
    let ghost ts = tree@;
    let n = tree.toks.len();
    let mut out: Vec<Variable> = Vec::new();
    let mut i: usize = 0;
    proof {
        assert(vars_view(out@) + discover_from(ts, 0) =~= discover_from(ts, 0));
    }
    while i < n
        invariant
            i <= n,
            n == tree.toks.len(),
            ts == tree@,
            discover_spec(ts) == vars_view(out@) + discover_from(ts, i as int),
        decreases n - i,
    {
        match try_decl(&tree.toks, i) {
            Some((var, next)) => {
                proof {
                    assert(discover_from(ts, i as int) == seq![var@] + discover_from(
                        ts,
                        next as int,
                    ));
                }
                let ghost old_out = out@;
                out.push(var);
                proof {
                    assert(vars_view(out@) =~= vars_view(old_out) + seq![out@[out@.len() - 1]@]);
                    assert((vars_view(old_out) + seq![out@[out@.len() - 1]@]) + discover_from(
                        ts,
                        next as int,
                    ) =~= vars_view(old_out) + (seq![out@[out@.len() - 1]@] + discover_from(
                        ts,
                        next as int,
                    )));
                }
                i = next;
            },
            None => {
                match macro_start_exec(&tree.toks, i) {
                    Some(g) => match skip_group_exec(&tree.toks, g) {
                        Some(k) => {
                            proof {
                                assert(discover_from(ts, i as int) == discover_from(ts, k as int));
                            }
                            i = k;
                        },
                        None => {
                            proof {
                                assert(discover_from(ts, i as int) == discover_from(
                                    ts,
                                    i as int + 1,
                                ));
                            }
                            i = i + 1;
                        },
                    },
                    None => {
                        proof {
                            assert(discover_from(ts, i as int) == discover_from(ts, i as int + 1));
                        }
                        i = i + 1;
                    },
                }
            },
        }
    }
    proof {
        assert(discover_from(ts, i as int) =~= Seq::<VariableView>::empty());
        assert(vars_view(out@) + Seq::<VariableView>::empty() =~= vars_view(out@));
        lemma_discover_wf(ts, 0);
    }
    out
}

/// Parses a source text and runs one discovery pass over it. The variable
/// list is a function of the text alone: repeated passes over the same text
/// yield identical ordered lists.
pub fn discover_source(text: &str) -> (r: Result<Vec<Variable>, crate::front::ParseError>)
    ensures
        r is Ok <==> crate::front::parses(text@) && crate::front::lex_of(text@) is Some,
        (r matches Ok(vs) ==> crate::front::lex_of(text@) matches Some(ts) && vars_view(vs@)
            == discover_spec(ts)),
{
    match crate::front::parse(text) {
        Ok(tree) => Ok(discover(&tree)),
        Err(e) => Err(e),
    }
}

/// Every variable a declaration yields is well formed: its kind is the
/// classification of its type text, and its value fits its kind.
pub proof fn lemma_decl_at_wf(ts: Seq<TokView>, i: int)
    ensures
        decl_at(ts, i) matches Some((v, next)) ==> var_wf(v),
{
    assert forall|t: SemanticType| value_fits(t, default_value_spec(t)) by {}
}

/// Every variable of a discovery pass is well formed.
pub proof fn lemma_discover_wf(ts: Seq<TokView>, i: int)
    requires
        i >= 0,
    ensures
        forall|k: int|
            0 <= k < discover_from(ts, i).len() ==> var_wf(#[trigger] discover_from(ts, i)[k]),
    decreases ts.len() - i,
{
    if i >= ts.len() {
    } else {
        match decl_at(ts, i) {
            Some((v, next)) => {
                lemma_decl_at_bounds(ts, i);
                lemma_decl_at_wf(ts, i);
                lemma_discover_wf(ts, next);
                let d = discover_from(ts, i);
                let tail = discover_from(ts, next);
                assert(d == seq![v] + tail);
                assert forall|k: int| 0 <= k < d.len() implies var_wf(#[trigger] d[k]) by {
                    if k == 0 {
                        assert(d[k] == v);
                    } else {
                        assert(d[k] == tail[k - 1]);
                    }
                }
            },
            None => {
                match macro_group_start(ts, i) {
                    Some(g) => {
                        lemma_group_end_bounds(ts, g, 0);
                        match group_end(ts, g, 0) {
                            Some(k) => {
                                lemma_discover_wf(ts, k);
                                assert(discover_from(ts, i) == discover_from(ts, k));
                            },
                            None => {
                                lemma_discover_wf(ts, i + 1);
                                assert(discover_from(ts, i) == discover_from(ts, i + 1));
                            },
                        }
                    },
                    None => {
                        lemma_discover_wf(ts, i + 1);
                        assert(discover_from(ts, i) == discover_from(ts, i + 1));
                    },
                }
            },
        }
    }
}

/// Type-default consistency: a declaration whose annotation runs straight
/// into the statement's `;`, so that it has no initializer, yields the
/// documented default value of its semantic kind.
pub proof fn lemma_type_default_consistency(ts: Seq<TokView>, i: int, v: VariableView, next: int)
    requires
        decl_at(ts, i) == Some((v, next)),
        is_stmt_end(ts, next - 1),
    ensures
        v.value == default_value_spec(v.semantic_type),
{
}

/// No-op-rename round trip: renaming a name to itself changes no token, so
/// a discovery pass over the renamed tree yields the identical variable
/// sequence.
pub proof fn lemma_noop_rename_discovery(ts: Seq<TokView>, name: Seq<char>)
    ensures
        discover_spec(crate::rename::rename_spec(ts, name, name)) == discover_spec(ts),
{
    crate::rename::lemma_rename_same_name_identity(ts, name);
}

/// Discovery determinism: two trees holding the lexer's tokens of one and
/// the same source text yield the same ordered variable list.
pub proof fn lemma_discovery_deterministic(t1: Seq<TokView>, t2: Seq<TokView>, s: Seq<char>)
    requires
        Some(t1) == crate::front::lex_of(s),
        Some(t2) == crate::front::lex_of(s),
    ensures
        discover_spec(t1) == discover_spec(t2),
{
}

} // verus!
