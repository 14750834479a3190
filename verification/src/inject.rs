//! Value injection: splices freshly rendered literals for the variables'
//! current values back into the original source text. The text is scanned
//! forward only, variable by variable in discovery order, each search
//! starting after the previous variable's splice point; everything outside
//! the replaced initializer spans is kept verbatim.

use crate::model::{vars_view, ValueView, Variable, VariableValue, VariableView};
use crate::text::{chars_to_string, push_str_chars, str_chars};
use crate::tokens::str_eq;
use vstd::prelude::*;
use vstd::string::StrSliceExecFns;

verus! {

/// Injection's one fatal failure: a matched declaration prefix with no
/// terminating `;` anywhere after it.
#[derive(Debug)]
pub enum InjectError {
    MalformedDeclaration,
}

/// Whether `pat` occurs in `text` at position `p`.
pub open spec fn match_at(text: Seq<char>, pat: Seq<char>, p: int) -> bool {
    &&& 0 <= p
    &&& p + pat.len() <= text.len()
    &&& text.subrange(p, p + pat.len()) == pat
}

/// The first position at or after `from` where `pat` occurs in `text`.
pub open spec fn find_from(text: Seq<char>, pat: Seq<char>, from: int) -> Option<int>
    decreases text.len() + 1 - from,
{
    if from + pat.len() > text.len() {
        None
    } else if match_at(text, pat, from) {
        Some(from)
    } else {
        find_from(text, pat, from + 1)
    }
}

pub proof fn lemma_find_from_bounds(text: Seq<char>, pat: Seq<char>, from: int)
    ensures
        find_from(text, pat, from) matches Some(a) ==> from <= a && a + pat.len() <= text.len(),
    decreases text.len() + 1 - from,
{
    if from + pat.len() > text.len() {
    } else if match_at(text, pat, from) {
    } else {
        lemma_find_from_bounds(text, pat, from + 1);
    }
}

/// The first position at or after `from` holding the character `c`.
pub open spec fn find_char_from(text: Seq<char>, c: char, from: int) -> Option<int>
    decreases text.len() - from,
{
    if from >= text.len() {
        None
    } else if text[from] == c {
        Some(from)
    } else {
        find_char_from(text, c, from + 1)
    }
}

pub proof fn lemma_find_char_bounds(text: Seq<char>, c: char, from: int)
    ensures
        find_char_from(text, c, from) matches Some(d) ==> from <= d < text.len(),
    decreases text.len() - from,
{
    if from >= text.len() {
    } else if text[from] == c {
    } else {
        lemma_find_char_bounds(text, c, from + 1);
    }
}

/// The declaration-prefix search pattern for a variable: `let` (or
/// `let mut`), its name, the type annotation, up to and including the
/// assignment token.
pub open spec fn pattern_spec(v: VariableView, mutable: bool) -> Seq<char> {
    (if mutable {
        "let mut "@
    } else {
        "let "@
    }) + v.name + ": "@ + v.type_text + " = "@
}

/// The next occurrence at or after `from` of either of the variable's two
/// declaration patterns: the earlier match wins, the immutable form on a
/// tie. Yields the position and the matched pattern's length.
pub open spec fn find_decl(text: Seq<char>, v: VariableView, from: int) -> Option<(int, int)> {
    let r1 = find_from(text, pattern_spec(v, false), from);
    let r2 = find_from(text, pattern_spec(v, true), from);
    match (r1, r2) {
        (Some(a), Some(b)) => if a <= b {
            Some((a, pattern_spec(v, false).len() as int))
        } else {
            Some((b, pattern_spec(v, true).len() as int))
        },
        (Some(a), None) => Some((a, pattern_spec(v, false).len() as int)),
        (None, Some(b)) => Some((b, pattern_spec(v, true).len() as int)),
        (None, None) => None,
    }
}

pub proof fn lemma_find_decl_bounds(text: Seq<char>, v: VariableView, from: int)
    ensures
        find_decl(text, v, from) matches Some((p, plen)) ==> from <= p && 0 <= plen && p + plen
            <= text.len(),
{
    lemma_find_from_bounds(text, pattern_spec(v, false), from);
    lemma_find_from_bounds(text, pattern_spec(v, true), from);
}

/// The decimal character of one digit.
pub open spec fn digit_of(d: int) -> char {
    if d == 0 {
        '0'
    } else if d == 1 {
        '1'
    } else if d == 2 {
        '2'
    } else if d == 3 {
        '3'
    } else if d == 4 {
        '4'
    } else if d == 5 {
        '5'
    } else if d == 6 {
        '6'
    } else if d == 7 {
        '7'
    } else if d == 8 {
        '8'
    } else {
        '9'
    }
}

/// The decimal digit text of a non-negative integer.
pub open spec fn nat_chars(n: int) -> Seq<char>
    decreases n,
{
    if n < 10 {
        seq![digit_of(n)]
    } else {
        nat_chars(n / 10) + seq![digit_of(n % 10)]
    }
}

/// The decimal text of an integer, with a leading minus sign if negative.
pub open spec fn int_chars(i: int) -> Seq<char> {
    if i < 0 {
        seq!['-'] + nat_chars(-i)
    } else {
        nat_chars(i)
    }
}

/// One character of a text value as it stands inside a quoted literal: a
/// quote or backslash is escaped, every other character stands as itself.
pub open spec fn escape_one(c: char) -> Seq<char> {
    if c == '"' || c == '\\' {
        seq!['\\', c]
    } else {
        seq![c]
    }
}

/// A text value's characters as they stand inside a quoted literal.
pub open spec fn escape_text(s: Seq<char>) -> Seq<char>
    decreases s.len(),
{
    if s.len() == 0 {
        Seq::empty()
    } else {
        escape_one(s[0]) + escape_text(s.drop_first())
    }
}

/// Unfolds one step of `escape_text` at an arbitrary split point.
proof fn lemma_escape_step(s: Seq<char>, i: int)
    requires
        0 <= i < s.len(),
    ensures
        escape_text(s.subrange(i, s.len() as int)) == escape_one(s[i]) + escape_text(
            s.subrange(i + 1, s.len() as int),
        ),
{
    let suffix = s.subrange(i, s.len() as int);
    assert(suffix[0] == s[i]);
    assert(suffix.drop_first() =~= s.subrange(i + 1, s.len() as int));
}

/// The freshly synthesized literal text for a variable's current value:
/// integers and floats in their decimal textual form, booleans as their
/// keyword, text as a quoted literal with quotes and backslashes escaped,
/// wrapped in the owned-text constructor call exactly when the declared
/// type is the owned-text kind.
pub open spec fn render_spec(v: VariableView) -> Seq<char> {
    match v.value {
        ValueView::IntVal(x) => int_chars(x as int),
        ValueView::FloatVal(d) => d,
        ValueView::BoolVal(b) => if b {
            "true"@
        } else {
            "false"@
        },
        ValueView::TextVal(s) => if v.type_text == "String"@ {
            seq!['"'] + escape_text(s) + seq!['"'] + ".to_string()"@
        } else {
            seq!['"'] + escape_text(s) + seq!['"']
        },
        ValueView::Unset => Seq::empty(),
    }
}

/// The rewritten text for the variables from `vi` on, scanning from `pos`:
/// an unset variable, or one whose patterns no longer occur, is skipped and
/// its declaration passes through unchanged; a matched declaration keeps the
/// text up to the end of its prefix, takes the fresh literal and `;`, and
/// resumes after the old delimiter. `None` is the fatal missing-delimiter
/// failure.
pub open spec fn inject_from(
    text: Seq<char>,
    vars: Seq<VariableView>,
    vi: int,
    pos: int,
) -> Option<Seq<char>>
    decreases vars.len() - vi,
{
    if vi >= vars.len() {
        Some(text.skip(pos))
    } else {
        let v = vars[vi];
        if v.value is Unset {
            inject_from(text, vars, vi + 1, pos)
        } else {
            match find_decl(text, v, pos) {
                None => inject_from(text, vars, vi + 1, pos),
                Some((p, plen)) => match find_char_from(text, ';', p + plen) {
                    None => None,
                    Some(d) => match inject_from(text, vars, vi + 1, d + 1) {
                        None => None,
                        Some(rest) => Some(
                            text.subrange(pos, p + plen) + render_spec(v) + seq![';'] + rest,
                        ),
                    },
                },
            }
        }
    }
}

/// The rewritten text of one whole injection pass.
pub open spec fn inject_spec(text: Seq<char>, vars: Seq<VariableView>) -> Option<Seq<char>> {
    inject_from(text, vars, 0, 0)
}

fn match_at_exec(text: &Vec<char>, pat: &Vec<char>, p: usize) -> (r: bool)
    requires
        p + pat@.len() <= text@.len(),
    ensures
        r == match_at(text@, pat@, p as int),
{
    let m = pat.len();
    let mut k: usize = 0;
    while k < m
        invariant
            k <= m,
            m == pat.len(),
            p + m <= text.len(),
            forall|t: int| 0 <= t < k ==> text@[p + t] == pat@[t],
        decreases m - k,
    {
        if text[p + k] != pat[k] {
            proof {
                assert(text@.subrange(p as int, p + m) [ k as int ] != pat@[k as int]);
            }
            return false;
        }
        k = k + 1;
    }
    proof {
        assert(text@.subrange(p as int, p + m) =~= pat@);
    }
    true
}

fn find_from_exec(text: &Vec<char>, pat: &Vec<char>, from: usize) -> (r: Option<usize>)
    ensures
        match r {
            Some(a) => from <= a && a + pat@.len() <= text@.len() && find_from(
                text@,
                pat@,
                from as int,
            ) == Some(a as int),
            None => find_from(text@, pat@, from as int) is None,
        },
{
    let n = text.len();
    let m = pat.len();
    if m > n {
        return None;
    }
    if m == 0 {
        if from <= n {
            proof {
                assert(text@.subrange(from as int, from as int) =~= pat@);
            }
            return Some(from);
        } else {
            return None;
        }
    }
    let mut p = from;
    while p <= n - m
        invariant
            from <= p,
            n == text.len(),
            m == pat.len(),
            1 <= m <= n,
            find_from(text@, pat@, from as int) == find_from(text@, pat@, p as int),
        decreases n - p,
    {
        if match_at_exec(text, pat, p) {
            proof {
                assert(find_from(text@, pat@, p as int) == Some(p as int));
            }
            return Some(p);
        }
        proof {
            assert(find_from(text@, pat@, p as int) == find_from(text@, pat@, p as int + 1));
        }
        p = p + 1;
    }
    None
}

fn find_char_exec(text: &Vec<char>, c: char, from: usize) -> (r: Option<usize>)
    ensures
        match r {
            Some(d) => from <= d < text@.len() && find_char_from(text@, c, from as int) == Some(
                d as int,
            ),
            None => find_char_from(text@, c, from as int) is None,
        },
{
    let n = text.len();
    let mut p = from;
    while p < n
        invariant
            from <= p,
            n == text.len(),
            find_char_from(text@, c, from as int) == find_char_from(text@, c, p as int),
        decreases n - p,
    {
        if text[p] == c {
            return Some(p);
        }
        p = p + 1;
    }
    None
}

fn pattern_exec(v: &Variable, mutable: bool) -> (r: Vec<char>)
    ensures
        r@ == pattern_spec(v@, mutable),
{
    let mut out: Vec<char> = Vec::new();
    if mutable {
        push_str_chars(&mut out, "let mut ");
    } else {
        push_str_chars(&mut out, "let ");
    }
    push_str_chars(&mut out, v.name.as_str());
    push_str_chars(&mut out, ": ");
    push_str_chars(&mut out, v.type_text.as_str());
    push_str_chars(&mut out, " = ");
    proof {
        assert(out@ =~= pattern_spec(v@, mutable));
    }
    out
}

fn push_digit(out: &mut Vec<char>, d: u64)
    requires
        d < 10,
    ensures
        final (out)@ == old(out)@ + seq![digit_of(d as int)],
{
    if d == 0 {
        out.push('0');
    } else if d == 1 {
        out.push('1');
    } else if d == 2 {
        out.push('2');
    } else if d == 3 {
        out.push('3');
    } else if d == 4 {
        out.push('4');
    } else if d == 5 {
        out.push('5');
    } else if d == 6 {
        out.push('6');
    } else if d == 7 {
        out.push('7');
    } else if d == 8 {
        out.push('8');
    } else {
        out.push('9');
    }
    proof {
        assert(out@ =~= old(out)@ + seq![digit_of(d as int)]);
    }
}

fn push_nat_chars(out: &mut Vec<char>, n: u64)
    ensures
        final (out)@ == old(out)@ + nat_chars(n as int),
    decreases n,
{
    if n < 10 {
        push_digit(out, n);
    } else {
        push_nat_chars(out, n / 10);
        push_digit(out, n % 10);
        proof {
            assert(out@ =~= old(out)@ + nat_chars(n as int));
        }
    }
}

fn push_int_chars(out: &mut Vec<char>, i: i64)
    ensures
        final (out)@ == old(out)@ + int_chars(i as int),
{
    if i < 0 {
        out.push('-');
        let m: u64 = (-(i as i128)) as u64;
        proof {
            assert(m as int == -(i as int));
        }
        push_nat_chars(out, m);
        proof {
            assert(out@ =~= old(out)@ + int_chars(i as int));
        }
    } else {
        push_nat_chars(out, i as u64);
    }
}

/// Appends the characters of `s` as they stand inside a quoted literal.
fn push_escaped(out: &mut Vec<char>, s: &str)
    ensures
        final (out)@ == old(out)@ + escape_text(s@),
{
    let n = s.unicode_len();
    let mut i: usize = 0;
    proof {
        assert(s@.subrange(0, n as int) =~= s@);
        assert(old(out)@ + escape_text(s@) =~= out@ + escape_text(s@.subrange(0, n as int)));
    }
    while i < n
        invariant
            i <= n,
            n == s@.len(),
            old(out)@ + escape_text(s@) == out@ + escape_text(s@.subrange(i as int, n as int)),
        decreases n - i,
    {
        proof {
            lemma_escape_step(s@, i as int);
        }
        let ghost prev = out@;
        let c = s.get_char(i);
        if c == '"' || c == '\\' {
            out.push('\\');
            out.push(c);
        } else {
            out.push(c);
        }
        i = i + 1;
        proof {
            assert(out@ =~= prev + escape_one(s@[i as int - 1]));
            assert(old(out)@ + escape_text(s@) =~= out@ + escape_text(
                s@.subrange(i as int, n as int),
            ));
        }
    }
    proof {
        assert(s@.subrange(n as int, n as int) =~= Seq::<char>::empty());
        assert(out@ =~= old(out)@ + escape_text(s@));
    }
}

/// Appends the fresh literal text for the variable's current value.
fn push_render(out: &mut Vec<char>, v: &Variable)
    ensures
        final (out)@ == old(out)@ + render_spec(v@),
{
    match &v.value {
        VariableValue::IntVal(x) => push_int_chars(out, *x),
        VariableValue::FloatVal(d) => push_str_chars(out, d.as_str()),
        VariableValue::BoolVal(b) => if *b {
            push_str_chars(out, "true")
        } else {
            push_str_chars(out, "false")
        },
        VariableValue::TextVal(s) => {
            out.push('"');
            push_escaped(out, s.as_str());
            out.push('"');
            if str_eq(v.type_text.as_str(), "String") {
                push_str_chars(out, ".to_string()");
            }
            proof {
                assert(out@ =~= old(out)@ + render_spec(v@));
            }
        },
        VariableValue::Unset => {},
    }
}

/// Appends `text[a..b]` to `out`.
fn push_range(out: &mut Vec<char>, text: &Vec<char>, a: usize, b: usize)
    requires
        a <= b <= text@.len(),
    ensures
        final (out)@ == old(out)@ + text@.subrange(a as int, b as int),
{
    let mut k = a;
    while k < b
        invariant
            a <= k <= b <= text.len(),
            out@ == old(out)@ + text@.subrange(a as int, k as int),
        decreases b - k,
    {
        out.push(text[k]);
        k = k + 1;
        proof {
            assert(out@ =~= old(out)@ + text@.subrange(a as int, k as int));
        }
    }
    proof {
        assert(out@ =~= old(out)@ + text@.subrange(a as int, b as int));
    }
}

/// One injection pass over a character buffer.
#[verifier::rlimit(60)]
pub fn inject_chars(text: &Vec<char>, vars: &Vec<Variable>) -> (r: Result<Vec<char>, InjectError>)
    ensures
        match r {
            Ok(o) => inject_spec(text@, vars_view(vars@)) == Some(o@),
            Err(_) => inject_spec(text@, vars_view(vars@)) is None,
        },
{
    let ghost vsv = vars_view(vars@);
    let nv = vars.len();
    let mut out: Vec<char> = Vec::new();
    let mut pos: usize = 0;
    let mut vi: usize = 0;
    while vi < nv
        invariant
            vi <= nv,
            nv == vars.len(),
            pos <= text.len(),
            vsv == vars_view(vars@),
            match inject_from(text@, vsv, vi as int, pos as int) {
                Some(rest) => inject_spec(text@, vsv) == Some(out@ + rest),
                None => inject_spec(text@, vsv) is None,
            },
        decreases nv - vi,
    {
        let v = &vars[vi];
        proof {
            assert(vsv[vi as int] == vars@[vi as int]@);
        }
        let unset = match &v.value {
            VariableValue::Unset => true,
            _ => false,
        };
        if unset {
            proof {
                assert(inject_from(text@, vsv, vi as int, pos as int) == inject_from(
                    text@,
                    vsv,
                    vi as int + 1,
                    pos as int,
                ));
            }
            vi = vi + 1;
            continue ;
        }
        let pat1 = pattern_exec(v, false);
        let pat2 = pattern_exec(v, true);
        let r1 = find_from_exec(text, &pat1, pos);
        let r2 = find_from_exec(text, &pat2, pos);
        let hit: Option<(usize, usize)> = match (r1, r2) {
            (Some(a), Some(b)) => if a <= b {
                Some((a, pat1.len()))
            } else {
                Some((b, pat2.len()))
            },
            (Some(a), None) => Some((a, pat1.len())),
            (None, Some(b)) => Some((b, pat2.len())),
            (None, None) => None,
        };
        match hit {
            None => {
                proof {
                    assert(find_decl(text@, vsv[vi as int], pos as int) is None);
                    assert(inject_from(text@, vsv, vi as int, pos as int) == inject_from(
                        text@,
                        vsv,
                        vi as int + 1,
                        pos as int,
                    ));
                }
                vi = vi + 1;
            },
            Some((p, plen)) => {
                proof {
                    assert(find_decl(text@, vsv[vi as int], pos as int) == Some(
                        (p as int, plen as int),
                    ));
                }
                let e = p + plen;
                match find_char_exec(text, ';', e) {
                    None => {
                        proof {
                            assert(inject_from(text@, vsv, vi as int, pos as int) is None);
                        }
                        return Err(InjectError::MalformedDeclaration);
                    },
                    Some(d) => {
                        let ghost old_out = out@;
                        push_range(&mut out, text, pos, e);
                        push_render(&mut out, v);
                        out.push(';');
                        proof {
                            let seg = text@.subrange(pos as int, e as int) + render_spec(
                                vsv[vi as int],
                            ) + seq![';'];
                            assert(out@ =~= old_out + seg);
                            match inject_from(text@, vsv, vi as int + 1, d as int + 1) {
                                Some(rest2) => {
                                    assert(inject_from(text@, vsv, vi as int, pos as int) == Some(
                                        seg + rest2,
                                    ));
                                    assert(old_out + (seg + rest2) =~= (old_out + seg) + rest2);
                                },
                                None => {
                                    assert(inject_from(text@, vsv, vi as int, pos as int) is None);
                                },
                            }
                        }
                        pos = d + 1;
                        vi = vi + 1;
                    },
                }
            },
        }
    }
    let ghost old_out = out@;
    let tlen = text.len();
    push_range(&mut out, text, pos, tlen);
    proof {
        assert(inject_from(text@, vsv, vi as int, pos as int) == Some(
            text@.skip(pos as int),
        ));
        assert(text@.subrange(pos as int, tlen as int) =~= text@.skip(pos as int));
        assert(out@ =~= old_out + text@.skip(pos as int));
    }
    Ok(out)
}

/// One injection pass: for each variable in discovery order, the next
/// occurrence of its declaration prefix is rewritten with a fresh literal
/// for its current value; unset variables and variables whose declaration
/// text no longer occurs are skipped, everything outside the replaced spans
/// is returned verbatim, and the pass fails only on a matched declaration
/// with no terminating `;` after it.
pub fn inject(text: &str, vars: &Vec<Variable>) -> (r: Result<String, InjectError>)
    ensures
        match r {
            Ok(o) => inject_spec(text@, vars_view(vars@)) == Some(o@),
            Err(_) => inject_spec(text@, vars_view(vars@)) is None,
        },
{
    let tc = str_chars(text);
    match inject_chars(&tc, vars) {
        Ok(o) => Ok(chars_to_string(&o)),
        Err(e) => Err(e),
    }
}

/// Skip on missing pattern: when every remaining variable is unset or its
/// declaration patterns occur nowhere at or after the scan position, the
/// pass returns the remaining text unchanged — no failure, no truncation.
pub proof fn lemma_inject_all_missing(
    text: Seq<char>,
    vars: Seq<VariableView>,
    vi: int,
    pos: int,
)
    requires
        0 <= vi <= vars.len(),
        forall|k: int|
            vi <= k < vars.len() ==> (#[trigger] vars[k]).value is Unset || find_decl(
                text,
                vars[k],
                pos,
            ) is None,
    ensures
        inject_from(text, vars, vi, pos) == Some(text.skip(pos)),
    decreases vars.len() - vi,
{
    if vi >= vars.len() {
    } else {
        lemma_inject_all_missing(text, vars, vi + 1, pos);
    }
}

/// A well-formed variable of unsupported type never carries a concrete
/// value, so an injection pass steps over it without touching the text.
pub proof fn lemma_unsupported_excluded(
    text: Seq<char>,
    vars: Seq<VariableView>,
    vi: int,
    pos: int,
)
    requires
        0 <= vi < vars.len(),
        crate::model::var_wf(vars[vi]),
        vars[vi].semantic_type == crate::model::SemanticType::Unsupported,
    ensures
        inject_from(text, vars, vi, pos) == inject_from(text, vars, vi + 1, pos),
{
}

/// One splice of an injection pass, in ghost form: the output keeps the
/// input text up to `keep_to`, holds a fresh literal and its `;`, and
/// resumes copying the input at `resume`.
pub struct Splice {
    pub keep_to: int,
    pub resume: int,
    pub lit: Seq<char>,
}

/// Whether a splice list is well formed from `pos`: its replaced spans lie
/// in order, never overlap, and never reach back before `pos`.
pub open spec fn splices_wf(text: Seq<char>, pos: int, sps: Seq<Splice>) -> bool
    decreases sps.len(),
{
    if sps.len() == 0 {
        true
    } else {
        &&& pos <= sps[0].keep_to <= sps[0].resume <= text.len()
        &&& splices_wf(text, sps[0].resume, sps.drop_first())
    }
}

/// The text a splice list produces: the input's own untouched segments, in
/// order, interleaved with the fresh literals and their delimiters.
pub open spec fn splices_text(text: Seq<char>, pos: int, sps: Seq<Splice>) -> Seq<char>
    decreases sps.len(),
{
    if sps.len() == 0 {
        text.skip(pos)
    } else {
        text.subrange(pos, sps[0].keep_to) + sps[0].lit + seq![';'] + splices_text(
            text,
            sps[0].resume,
            sps.drop_first(),
        )
    }
}

/// Injection preserves untouched regions, in general: every successful pass
/// is a splice of its input. The output consists of the input's own
/// characters, in order, outside the replaced initializer spans, with only
/// the freshly rendered literals and their delimiters in between.
pub proof fn lemma_inject_decomposition(
    text: Seq<char>,
    vars: Seq<VariableView>,
    vi: int,
    pos: int,
) -> (sps: Seq<Splice>)
    requires
        0 <= vi <= vars.len(),
        0 <= pos <= text.len(),
        inject_from(text, vars, vi, pos) is Some,
    ensures
        splices_wf(text, pos, sps),
        inject_from(text, vars, vi, pos) == Some(splices_text(text, pos, sps)),
    decreases vars.len() - vi,
{
    if vi >= vars.len() {
        let sps = Seq::<Splice>::empty();
        assert(splices_text(text, pos, sps) == text.skip(pos));
        sps
    } else {
        let v = vars[vi];
        if v.value is Unset {
            lemma_inject_decomposition(text, vars, vi + 1, pos)
        } else {
            match find_decl(text, v, pos) {
                None => lemma_inject_decomposition(text, vars, vi + 1, pos),
                Some((p, plen)) => {
                    lemma_find_decl_bounds(text, v, pos);
                    match find_char_from(text, ';', p + plen) {
                        None => {
                            assert(false);
                            Seq::empty()
                        },
                        Some(d) => {
                            lemma_find_char_bounds(text, ';', p + plen);
                            let tail = lemma_inject_decomposition(text, vars, vi + 1, d + 1);
                            let head = Splice {
                                keep_to: p + plen,
                                resume: d + 1,
                                lit: render_spec(v),
                            };
                            let sps = seq![head] + tail;
                            assert(sps.drop_first() =~= tail);
                            assert(sps[0] == head);
                            assert(splices_text(text, pos, sps) == text.subrange(pos, p + plen)
                                + render_spec(v) + seq![';'] + splices_text(text, d + 1, tail));
                            sps
                        },
                    }
                },
            }
        }
    }
}

/// The pass-level statement: any successful injection output is a splice of
/// its input, so all characters outside the replaced spans are identical to
/// the input's.
pub proof fn lemma_inject_spec_decomposition(text: Seq<char>, vars: Seq<VariableView>) -> (sps:
    Seq<Splice>)
    requires
        inject_spec(text, vars) is Some,
    ensures
        splices_wf(text, 0, sps),
        inject_spec(text, vars) == Some(splices_text(text, 0, sps)),
{
    lemma_inject_decomposition(text, vars, 0, 0)
}

/// Injection preserves untouched regions: for a pass over a single variable
/// whose declaration prefix is matched at `p` (ending at `p + plen`) and
/// whose old initializer ends at the `;` at `d`, the output is exactly the
/// unchanged text up to the end of the prefix, the fresh literal with its
/// delimiter, and the unchanged text after the old delimiter: every
/// character outside the replaced span `text[p + plen .. d + 1]` is kept.
pub proof fn lemma_inject_preserves_untouched(
    text: Seq<char>,
    v: VariableView,
    p: int,
    plen: int,
    d: int,
)
    requires
        !(v.value is Unset),
        find_decl(text, v, 0) == Some((p, plen)),
        find_char_from(text, ';', p + plen) == Some(d),
    ensures
        inject_spec(text, seq![v]) == Some(
            text.subrange(0, p + plen) + render_spec(v) + seq![';'] + text.skip(d + 1),
        ),
{
    lemma_find_decl_bounds(text, v, 0);
    lemma_find_char_bounds(text, ';', p + plen);
    let vars = seq![v];
    assert(vars[0] == v);
    assert(inject_from(text, vars, 1, d + 1) == Some(text.skip(d + 1)));
}

} // verus!
