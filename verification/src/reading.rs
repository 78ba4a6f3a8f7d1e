//! Reading tokens: searching, splitting and the expression parser.
use vstd::prelude::*;

use crate::grammar::{
    and_also_at, field_of_a, field_of_b, first_text, first_word, is_sep, is_word, last_word,
    lemma_first_word, lemma_math_search, lemma_relation_search, math_at, math_search, name_of,
    relation_at, relation_search, s_and_values, s_cond_or_value, s_expr, s_math, s_single,
    s_value, s_values_from, split_from, starts_the_of, texts, word_of, words, drop_and,
    fault_at, SFault, PRes, Toks,
};
use crate::lexer::{toks_view, SSpanned, SToken, Spanned, Token};
use crate::parser::{
    lemma_se_list_push, lemma_views_push, se_list, Comparison, Expr, LogicOp, Op, SExpr, Value,
    opt_view,
};
use crate::text::{concat, is_kw, join_strings, lit, on_line_text, views};

verus! {

/// Why a parse gave no tree.
#[derive(Debug)]
pub enum Fault {
    Msg(String),
}

impl View for Fault {
    type V = SFault;

    open spec fn view(&self) -> SFault {
        match *self {
            Fault::Msg(m) => SFault::Msg(m@),
        }
    }
}

pub open spec fn pv_expr<N>(r: Result<Expr<N>, Fault>) -> PRes<SExpr<N>> {
    match r {
        Ok(e) => Ok(e@),
        Err(f) => Err(f@),
    }
}

pub open spec fn pv_exprs<N>(r: Result<Vec<Expr<N>>, Fault>) -> PRes<Seq<SExpr<N>>> {
    match r {
        Ok(v) => Ok(se_list(v@)),
        Err(f) => Err(f@),
    }
}

pub open spec fn cls_view<N>(s: Seq<Vec<Spanned<N>>>) -> Seq<Toks<N>> {
    s.map_values(|v: Vec<Spanned<N>>| toks_view(v@))
}

pub proof fn lemma_tv_sub<N>(s: Seq<Spanned<N>>, a: int, b: int)
    requires
        0 <= a <= b <= s.len(),
    ensures
        toks_view(s.subrange(a, b)) == toks_view(s).subrange(a, b),
{
    assert(toks_view(s.subrange(a, b)) =~= toks_view(s).subrange(a, b));
}

pub proof fn lemma_tv_push<N>(s: Seq<Spanned<N>>, t: Spanned<N>)
    ensures
        toks_view(s.push(t)) == toks_view(s).push(t@),
{
    assert(toks_view(s.push(t)) =~= toks_view(s).push(t@));
}

pub proof fn lemma_cls_push<N>(s: Seq<Vec<Spanned<N>>>, v: Vec<Spanned<N>>)
    ensures
        cls_view(s.push(v)) == cls_view(s).push(toks_view(v@)),
{
    assert(cls_view(s.push(v)) =~= cls_view(s).push(toks_view(v@)));
}

/// The fault `m` on line `line`.
pub(crate) fn fault(m: &str, line: usize) -> (r: Fault)
    ensures
        r@ == fault_at(m@, line),
{
    Fault::Msg(concat(&lit(m), &on_line_text(line)))
}

// ─── Tokens ─────────────────────────────────────────────────────────────────

pub(crate) fn tok_is_word<N>(t: &Spanned<N>, w: &str) -> (r: bool)
    ensures
        r == is_word(t@, w@),
{
    match &t.token {
        Token::Word(x) => is_kw(x, w),
        _ => false,
    }
}

pub(crate) fn tok_word<N>(t: &Spanned<N>) -> (r: Option<String>)
    ensures
        opt_view(r) == word_of(t@),
{
    match &t.token {
        Token::Word(x) => Some(x.clone()),
        _ => None,
    }
}

/// The word at index `i` of `ts`, if there is one.
pub(crate) fn word_at_exec<N>(ts: &[Spanned<N>], i: usize) -> (r: Option<String>)
    ensures
        opt_view(r) == crate::grammar::word_at(toks_view(ts@), i as int),
{
    if i < ts.len() {
        tok_word(&ts[i])
    } else {
        None
    }
}

pub(crate) fn clone_token<N: Copy>(t: &Spanned<N>) -> (r: Spanned<N>)
    ensures
        r@ == t@,
{
    let token = match &t.token {
        Token::Word(w) => Token::Word(w.clone()),
        Token::Number(x) => Token::Number(*x),
        Token::StringLit(s) => Token::StringLit(s.clone()),
        Token::Comma => Token::Comma,
        Token::Period => Token::Period,
        Token::Eof => Token::Eof,
    };
    Spanned { token, line: t.line }
}

pub(crate) fn clone_tokens<N: Copy>(ts: &[Spanned<N>]) -> (r: Vec<Spanned<N>>)
    ensures
        toks_view(r@) == toks_view(ts@),
{
    let mut out: Vec<Spanned<N>> = Vec::new();
    let mut i: usize = 0;
    while i < ts.len()
        invariant
            i <= ts@.len(),
            toks_view(out@) == toks_view(ts@.subrange(0, i as int)),
        decreases ts@.len() - i,
    {
        let c = clone_token(&ts[i]);
        proof {
            lemma_tv_push(out@, c);
            assert(ts@.subrange(0, i + 1) == ts@.subrange(0, i as int).push(ts@[i as int]));
            lemma_tv_push(ts@.subrange(0, i as int), ts@[i as int]);
        }
        out.push(c);
        i += 1;
    }
    proof {
        assert(ts@.subrange(0, ts@.len() as int) == ts@);
    }
    out
}

/// The first index at or after `from` holding the word `w`, or the length.
pub(crate) fn position_word<N>(ts: &[Spanned<N>], w: &str, from: usize) -> (r: usize)
    ensures
        r as int == first_word(toks_view(ts@), w@, from as int),
{
    let ghost t = toks_view(ts@);
    if from >= ts.len() {
        return ts.len();
    }
    let mut i: usize = from;
    while i < ts.len()
        invariant
            from <= i <= ts@.len(),
            t == toks_view(ts@),
            first_word(t, w@, from as int) == first_word(t, w@, i as int),
        decreases ts@.len() - i,
    {
        if tok_is_word(&ts[i], w) {
            return i;
        }
        i += 1;
    }
    i
}

/// The last index holding the word `w`.
pub(crate) fn rposition_word<N>(ts: &[Spanned<N>], w: &str) -> (r: Option<usize>)
    ensures
        last_word(toks_view(ts@), w@, ts@.len() as int) == match r {
            Some(i) => i as int,
            None => -1,
        },
{
    let ghost t = toks_view(ts@);
    let mut j: usize = ts.len();
    while j > 0
        invariant
            j <= ts@.len(),
            t == toks_view(ts@),
            last_word(t, w@, ts@.len() as int) == last_word(t, w@, j as int),
        decreases j,
    {
        if tok_is_word(&ts[j - 1], w) {
            return Some(j - 1);
        }
        j -= 1;
    }
    None
}

/// The words of `ts`, in order.
pub(crate) fn words_of<N>(ts: &[Spanned<N>]) -> (r: Vec<String>)
    ensures
        views(r@) == words(toks_view(ts@)),
{
    let ghost t = toks_view(ts@);
    let mut out: Vec<String> = Vec::new();
    let mut i: usize = 0;
    proof {
        assert(views(out@) =~= Seq::<Seq<char>>::empty());
        assert(t.subrange(0, 0) =~= Seq::<SSpanned<N>>::empty());
    }
    while i < ts.len()
        invariant
            i <= ts@.len(),
            t == toks_view(ts@),
            views(out@) == words(t.subrange(0, i as int)),
        decreases ts@.len() - i,
    {
        proof {
            assert(t.subrange(0, i + 1).drop_last() =~= t.subrange(0, i as int));
        }
        match tok_word(&ts[i]) {
            Some(w) => {
                proof {
                    lemma_views_push(out@, w);
                }
                out.push(w);
            },
            None => {},
        }
        i += 1;
    }
    proof {
        assert(t.subrange(0, ts@.len() as int) =~= t);
    }
    out
}

/// The words of `ts` joined by single spaces.
pub(crate) fn name_of_toks<N>(ts: &[Spanned<N>]) -> (r: String)
    ensures
        r@ == name_of(toks_view(ts@)),
{
    let ws = words_of(ts);
    join_strings(&ws, " ")
}

/// The texts of the words and string literals of `ts`.
pub(crate) fn texts_of<N>(ts: &[Spanned<N>]) -> (r: Vec<String>)
    ensures
        views(r@) == texts(toks_view(ts@)),
{
    let ghost t = toks_view(ts@);
    let mut out: Vec<String> = Vec::new();
    let mut i: usize = 0;
    proof {
        assert(views(out@) =~= Seq::<Seq<char>>::empty());
        assert(t.subrange(0, 0) =~= Seq::<SSpanned<N>>::empty());
    }
    while i < ts.len()
        invariant
            i <= ts@.len(),
            t == toks_view(ts@),
            views(out@) == texts(t.subrange(0, i as int)),
        decreases ts@.len() - i,
    {
        proof {
            assert(t.subrange(0, i + 1).drop_last() =~= t.subrange(0, i as int));
        }
        match &ts[i].token {
            Token::Word(w) => {
                let c = w.clone();
                proof {
                    lemma_views_push(out@, c);
                }
                out.push(c);
            },
            Token::StringLit(s) => {
                let c = s.clone();
                proof {
                    lemma_views_push(out@, c);
                }
                out.push(c);
            },
            _ => {},
        }
        i += 1;
    }
    proof {
        assert(t.subrange(0, ts@.len() as int) =~= t);
    }
    out
}

/// The first index at or after `from` of `w` in `ws`, or the length.
pub(crate) fn position_text(ws: &Vec<String>, w: &str, from: usize) -> (r: usize)
    ensures
        r as int == first_text(views(ws@), w@, from as int),
{
    if from >= ws.len() {
        return ws.len();
    }
    let mut i: usize = from;
    while i < ws.len()
        invariant
            from <= i <= ws@.len(),
            first_text(views(ws@), w@, from as int) == first_text(views(ws@), w@, i as int),
        decreases ws@.len() - i,
    {
        if is_kw(&ws[i], w) {
            return i;
        }
        i += 1;
    }
    i
}

/// `ws[from..]` without its `and`s.
pub(crate) fn names_after(ws: &Vec<String>, from: usize) -> (r: Vec<String>)
    requires
        from <= ws@.len(),
    ensures
        views(r@) == drop_and(views(ws@).subrange(from as int, ws@.len() as int)),
{
    let ghost v = views(ws@);
    let mut out: Vec<String> = Vec::new();
    let mut i: usize = from;
    proof {
        assert(views(out@) =~= Seq::<Seq<char>>::empty());
        assert(v.subrange(from as int, from as int) =~= Seq::<Seq<char>>::empty());
    }
    while i < ws.len()
        invariant
            from <= i <= ws@.len(),
            v == views(ws@),
            views(out@) == drop_and(v.subrange(from as int, i as int)),
        decreases ws@.len() - i,
    {
        proof {
            assert(v.subrange(from as int, i + 1).drop_last() =~= v.subrange(from as int, i as int));
        }
        if !is_kw(&ws[i], "and") {
            let c = ws[i].clone();
            proof {
                lemma_views_push(out@, c);
            }
            out.push(c);
        }
        i += 1;
    }
    out
}

/// Splits on commas (`by_comma`) or on the word `and`: a separator always
/// closes a piece, the end only a non-empty one.
pub(crate) fn split_tokens<N: Copy>(ts: &[Spanned<N>], by_comma: bool) -> (r: Vec<Vec<Spanned<N>>>)
    ensures
        cls_view(r@) == split_from(toks_view(ts@), by_comma, 0, Seq::empty(), Seq::empty()),
{
    let ghost t = toks_view(ts@);
    let mut acc: Vec<Vec<Spanned<N>>> = Vec::new();
    let mut cur: Vec<Spanned<N>> = Vec::new();
    let mut i: usize = 0;
    proof {
        assert(cls_view(acc@) =~= Seq::<Toks<N>>::empty());
        assert(toks_view(cur@) =~= Seq::<SSpanned<N>>::empty());
    }
    while i < ts.len()
        invariant
            i <= ts@.len(),
            t == toks_view(ts@),
            split_from(t, by_comma, 0, Seq::empty(), Seq::empty()) == split_from(
                t,
                by_comma,
                i as int,
                toks_view(cur@),
                cls_view(acc@),
            ),
        decreases ts@.len() - i,
    {
        let sep = if by_comma {
            match &ts[i].token {
                Token::Comma => true,
                _ => false,
            }
        } else {
            tok_is_word(&ts[i], "and")
        };
        assert(sep == is_sep(t[i as int], by_comma));
        if sep {
            proof {
                lemma_cls_push(acc@, cur);
            }
            acc.push(cur);
            cur = Vec::new();
            proof {
                assert(toks_view(cur@) =~= Seq::<SSpanned<N>>::empty());
            }
        } else {
            let c = clone_token(&ts[i]);
            proof {
                lemma_tv_push(cur@, c);
            }
            cur.push(c);
        }
        i += 1;
    }
    if cur.len() > 0 {
        proof {
            lemma_cls_push(acc@, cur);
        }
        acc.push(cur);
    }
    acc
}

// ─── Expressions ────────────────────────────────────────────────────────────

fn starts_the_of_exec<N>(ts: &[Spanned<N>], w: &str) -> (r: bool)
    ensures
        r == starts_the_of(toks_view(ts@), w@),
{
    ts.len() >= 3 && tok_is_word(&ts[0], "the") && tok_is_word(&ts[1], w) && tok_is_word(
        &ts[2],
        "of",
    )
}

/// The index of the first `and also`, or the length.
fn find_and_also<N>(ts: &[Spanned<N>]) -> (r: usize)
    ensures
        r as int == and_also_at(toks_view(ts@), 0),
{
    let ghost t = toks_view(ts@);
    let mut i: usize = 0;
    while i < ts.len() && ts.len() - i > 1
        invariant
            i <= ts@.len(),
            t == toks_view(ts@),
            and_also_at(t, 0) == and_also_at(t, i as int),
        decreases ts@.len() - i,
    {
        if tok_is_word(&ts[i], "and") && tok_is_word(&ts[i + 1], "also") {
            return i;
        }
        i += 1;
    }
    ts.len()
}

fn relation_at_exec<N>(ts: &[Spanned<N>], i: usize) -> (r: Option<(Comparison, usize)>)
    requires
        i < ts@.len(),
    ensures
        relation_at(toks_view(ts@), i as int) == match r {
            Some((c, k)) => Some((c, k as int)),
            None => None,
        },
{
    let n = ts.len();
    if tok_is_word(&ts[i], "is") {
        if n - i > 1 && tok_is_word(&ts[i + 1], "not") && !(n - i > 2 && tok_is_word(
            &ts[i + 2],
            "the",
        )) {
            Some((Comparison::IsNot, i + 2))
        } else if n - i > 2 && tok_is_word(&ts[i + 1], "greater") && tok_is_word(
            &ts[i + 2],
            "than",
        ) {
            Some((Comparison::GreaterThan, i + 3))
        } else if n - i > 2 && tok_is_word(&ts[i + 1], "less") && tok_is_word(&ts[i + 2], "than") {
            Some((Comparison::LessThan, i + 3))
        } else if n - i > 2 && tok_is_word(&ts[i + 1], "at") && tok_is_word(&ts[i + 2], "least") {
            Some((Comparison::AtLeast, i + 3))
        } else if n - i > 2 && tok_is_word(&ts[i + 1], "at") && tok_is_word(&ts[i + 2], "most") {
            Some((Comparison::AtMost, i + 3))
        } else {
            Some((Comparison::Is, i + 1))
        }
    } else if tok_is_word(&ts[i], "contains") {
        Some((Comparison::Contains, i + 1))
    } else if tok_is_word(&ts[i], "starts") && n - i > 1 && tok_is_word(&ts[i + 1], "with") {
        Some((Comparison::StartsWith, i + 2))
    } else if tok_is_word(&ts[i], "ends") && n - i > 1 && tok_is_word(&ts[i + 1], "with") {
        Some((Comparison::EndsWith, i + 2))
    } else {
        None
    }
}

/// The first comparison: where it starts, which it is, where its right side starts.
fn find_comparison<N>(ts: &[Spanned<N>]) -> (r: Option<(usize, Comparison, usize)>)
    ensures
        relation_search(toks_view(ts@), 0) == match r {
            Some((i, c, k)) => Some((i as int, c, k as int)),
            None => None,
        },
{
    let ghost t = toks_view(ts@);
    let mut i: usize = 0;
    while i < ts.len()
        invariant
            i <= ts@.len(),
            t == toks_view(ts@),
            relation_search(t, 0) == relation_search(t, i as int),
        decreases ts@.len() - i,
    {
        match relation_at_exec(ts, i) {
            Some((c, k)) => {
                return Some((i, c, k));
            },
            None => {},
        }
        i += 1;
    }
    None
}

fn math_at_exec<N>(ts: &[Spanned<N>], i: usize) -> (r: Option<(Op, usize)>)
    requires
        i < ts@.len(),
    ensures
        math_at(toks_view(ts@), i as int) == match r {
            Some((op, k)) => Some((op, k as int)),
            None => None,
        },
{
    let n = ts.len();
    if tok_is_word(&ts[i], "remainder") && n - i > 3 && tok_is_word(&ts[i + 1], "of")
        && tok_is_word(&ts[i + 2], "divided") && tok_is_word(&ts[i + 3], "by") {
        Some((Op::Remainder, i + 4))
    } else if tok_is_word(&ts[i], "divided") && n - i > 1 && tok_is_word(&ts[i + 1], "by") {
        Some((Op::DividedBy, i + 2))
    } else if tok_is_word(&ts[i], "plus") {
        Some((Op::Plus, i + 1))
    } else if tok_is_word(&ts[i], "minus") {
        Some((Op::Minus, i + 1))
    } else if tok_is_word(&ts[i], "times") {
        Some((Op::Times, i + 1))
    } else {
        None
    }
}

fn find_math<N>(ts: &[Spanned<N>]) -> (r: Option<(usize, Op, usize)>)
    ensures
        math_search(toks_view(ts@), 0) == match r {
            Some((i, op, k)) => Some((i as int, op, k as int)),
            None => None,
        },
{
    let ghost t = toks_view(ts@);
    let mut i: usize = 0;
    while i < ts.len()
        invariant
            i <= ts@.len(),
            t == toks_view(ts@),
            math_search(t, 0) == math_search(t, i as int),
        decreases ts@.len() - i,
    {
        match math_at_exec(ts, i) {
            Some((op, k)) => {
                return Some((i, op, k));
            },
            None => {},
        }
        i += 1;
    }
    None
}

/// An expression: `or`, then `and also`, then `it is not the case that`,
/// then a comparison or a value.
pub(crate) fn parse_expr<N: Copy>(ts: &[Spanned<N>], line: usize) -> (r: Result<Expr<N>, Fault>)
    ensures
        pv_expr(r) == s_expr(toks_view(ts@), line),
    decreases ts@.len(), 3nat,
{
    let ghost t = toks_view(ts@);
    let n = ts.len();
    if n == 0 {
        return Err(fault("OrimaLang Error: expected expression", line));
    }
    let p = position_word(ts, "or", 0);
    proof {
        lemma_first_word(t, "or"@, 0);
    }
    if p < n {
        proof {
            lemma_tv_sub(ts@, 0, p as int);
            lemma_tv_sub(ts@, p + 1, n as int);
        }
        let a = match parse_expr(&ts[0..p], line) {
            Ok(x) => x,
            Err(f) => return Err(f),
        };
        let b = match parse_expr(&ts[p + 1..n], line) {
            Ok(x) => x,
            Err(f) => return Err(f),
        };
        return Ok(Expr::LogicalOp(Box::new(a), LogicOp::Or, Box::new(b)));
    }
    let q = find_and_also(ts);
    if q < n && n - q > 1 {
        proof {
            lemma_tv_sub(ts@, 0, q as int);
            lemma_tv_sub(ts@, q + 2, n as int);
        }
        let a = match parse_expr(&ts[0..q], line) {
            Ok(x) => x,
            Err(f) => return Err(f),
        };
        let b = match parse_expr(&ts[q + 2..n], line) {
            Ok(x) => x,
            Err(f) => return Err(f),
        };
        return Ok(Expr::LogicalOp(Box::new(a), LogicOp::And, Box::new(b)));
    }
    if n >= 6 && tok_is_word(&ts[0], "it") && tok_is_word(&ts[1], "is") && tok_is_word(
        &ts[2],
        "not",
    ) && tok_is_word(&ts[3], "the") && tok_is_word(&ts[4], "case") && tok_is_word(
        &ts[5],
        "that",
    ) {
        proof {
            lemma_tv_sub(ts@, 6, n as int);
        }
        let a = match parse_expr(&ts[6..n], line) {
            Ok(x) => x,
            Err(f) => return Err(f),
        };
        return Ok(Expr::Not(Box::new(a)));
    }
    parse_condition_or_value(ts, line)
}

/// A comparison between two values, or else an arithmetic expression.
fn parse_condition_or_value<N: Copy>(ts: &[Spanned<N>], line: usize) -> (r: Result<
    Expr<N>,
    Fault,
>)
    ensures
        pv_expr(r) == s_cond_or_value(toks_view(ts@), line),
    decreases ts@.len(), 2nat,
{
    let ghost t = toks_view(ts@);
    proof {
        lemma_relation_search(t, 0);
    }
    match find_comparison(ts) {
        Some((i, c, k)) => {
            let n = ts.len();
            proof {
                lemma_tv_sub(ts@, 0, i as int);
                lemma_tv_sub(ts@, k as int, n as int);
            }
            let a = match parse_value_expr(&ts[0..i], line) {
                Ok(x) => x,
                Err(f) => return Err(f),
            };
            let b = match parse_value_expr(&ts[k..n], line) {
                Ok(x) => x,
                Err(f) => return Err(f),
            };
            Ok(Expr::Condition(Box::new(a), c, Box::new(b)))
        },
        None => parse_math_expr(ts, line),
    }
}

/// One arithmetic operator between two values, or a single value.
fn parse_math_expr<N: Copy>(ts: &[Spanned<N>], line: usize) -> (r: Result<Expr<N>, Fault>)
    ensures
        pv_expr(r) == s_math(toks_view(ts@), line),
    decreases ts@.len(), 1nat,
{
    let ghost t = toks_view(ts@);
    proof {
        lemma_math_search(t, 0);
    }
    match find_math(ts) {
        Some((i, op, k)) => {
            let n = ts.len();
            proof {
                lemma_tv_sub(ts@, 0, i as int);
                lemma_tv_sub(ts@, k as int, n as int);
            }
            let a = match parse_value_expr(&ts[0..i], line) {
                Ok(x) => x,
                Err(f) => return Err(f),
            };
            let b = match parse_value_expr(&ts[k..n], line) {
                Ok(x) => x,
                Err(f) => return Err(f),
            };
            Ok(Expr::BinaryOp(Box::new(a), op, Box::new(b)))
        },
        None => parse_value_expr(ts, line),
    }
}

/// `<field> of <object>` (an optional `the` first), closing the tokens.
fn field_of_first<N>(ts: &[Spanned<N>]) -> (r: Option<(String, String)>)
    requires
        ts@.len() > 0,
    ensures
        field_of_a(toks_view(ts@)) == match r {
            Some((o, f)) => Some((o@, f@)),
            None => None,
        },
{
    let ghost t = toks_view(ts@);
    let n = ts.len();
    let p = position_word(ts, "of", 0);
    proof {
        lemma_first_word(t, "of"@, 0);
    }
    let fs: usize = if tok_is_word(&ts[0], "the") {
        1
    } else {
        0
    };
    if p < n && p >= 1 && p + 1 < n && p > fs {
        proof {
            lemma_tv_sub(ts@, fs as int, p as int);
        }
        let field = name_of_toks(&ts[fs..p]);
        match tok_word(&ts[p + 1]) {
            Some(obj) => if !field.as_str().is_empty() && n == p + 2 {
                Some((obj, field))
            } else {
                None
            },
            None => None,
        }
    } else {
        None
    }
}

/// `the <field> of <object> ...`.
fn field_of_second<N>(ts: &[Spanned<N>]) -> (r: Option<(String, String)>)
    requires
        ts@.len() > 0,
    ensures
        field_of_b(toks_view(ts@)) == match r {
            Some((o, f)) => Some((o@, f@)),
            None => None,
        },
{
    let ghost t = toks_view(ts@);
    let n = ts.len();
    let p = position_word(ts, "of", 0);
    proof {
        lemma_first_word(t, "of"@, 0);
    }
    if tok_is_word(&ts[0], "the") && n >= 3 && p < n && p >= 2 {
        proof {
            lemma_tv_sub(ts@, 1, p as int);
        }
        let field = name_of_toks(&ts[1..p]);
        if !field.as_str().is_empty() {
            match word_at_exec(ts, p + 1) {
                Some(obj) => Some((obj, field)),
                None => None,
            }
        } else {
            None
        }
    } else {
        None
    }
}

/// A value: a literal, a variable, or one of the value phrases.
pub(crate) fn parse_value_expr<N: Copy>(ts: &[Spanned<N>], line: usize) -> (r: Result<Expr<N>, Fault>)
    ensures
        pv_expr(r) == s_value(toks_view(ts@), line),
    decreases ts@.len(), 0nat,
{
    let ghost t = toks_view(ts@);
    let n = ts.len();
    if n == 0 {
        return Err(fault("OrimaLang Error: expected value expression", line));
    }
    if n == 1 {
        match &ts[0].token {
            Token::StringLit(s) => {
                return Ok(Expr::Literal(Value::Str(s.clone())));
            },
            _ => {},
        }
    }
    if tok_is_word(&ts[0], "item") && n >= 3 {
        let fp = position_word(ts, "from", 0);
        if fp < n {
            proof {
                reveal_strlit("item");
                reveal_strlit("from");
                assert("item"@[0] != "from"@[0]);
                assert(!is_word(t[0], "from"@));
                assert(fp == first_word(t, "from"@, 1));
                lemma_first_word(t, "from"@, 1);
            }
            if fp + 1 >= n {
                return Err(fault("OrimaLang Error: expected list name after 'from'", line));
            }
            let l = match tok_word(&ts[fp + 1]) {
                Some(w) => w,
                None => {
                    return Err(fault("OrimaLang Error: expected list name after 'from'", line));
                },
            };
            proof {
                lemma_tv_sub(ts@, 1, fp as int);
            }
            let e = match parse_expr(&ts[1..fp], line) {
                Ok(x) => x,
                Err(f) => return Err(f),
            };
            return Ok(Expr::ItemFrom(Box::new(e), l));
        }
    }
    if starts_the_of_exec(ts, "size") {
        return match word_at_exec(ts, 3) {
            Some(w) => Ok(Expr::SizeOf(w)),
            None => Err(fault("OrimaLang Error: expected list name in 'size of'", line)),
        };
    }
    if starts_the_of_exec(ts, "length") {
        return match word_at_exec(ts, 3) {
            Some(w) => Ok(Expr::LengthOf(w)),
            None => Err(fault("OrimaLang Error: expected variable name in 'length of'", line)),
        };
    }
    let j = position_word(ts, "joined", 0);
    proof {
        lemma_first_word(t, "joined"@, 0);
    }
    if j < n && n - j > 1 && tok_is_word(&ts[j + 1], "with") {
        proof {
            lemma_tv_sub(ts@, 0, j as int);
            lemma_tv_sub(ts@, j + 2, n as int);
        }
        let a = match parse_value_expr(&ts[0..j], line) {
            Ok(x) => x,
            Err(f) => return Err(f),
        };
        let b = match parse_value_expr(&ts[j + 2..n], line) {
            Ok(x) => x,
            Err(f) => return Err(f),
        };
        return Ok(Expr::JoinedWith(Box::new(a), Box::new(b)));
    }
    if n >= 3 && tok_is_word(&ts[n - 2], "in") {
        if tok_is_word(&ts[n - 1], "uppercase") {
            proof {
                lemma_tv_sub(ts@, 0, n - 2);
            }
            let a = match parse_value_expr(&ts[0..n - 2], line) {
                Ok(x) => x,
                Err(f) => return Err(f),
            };
            return Ok(Expr::InUppercase(Box::new(a)));
        }
        if tok_is_word(&ts[n - 1], "lowercase") {
            proof {
                lemma_tv_sub(ts@, 0, n - 2);
            }
            let a = match parse_value_expr(&ts[0..n - 2], line) {
                Ok(x) => x,
                Err(f) => return Err(f),
            };
            return Ok(Expr::InLowercase(Box::new(a)));
        }
    }
    if starts_the_of_exec(ts, "value") {
        return match word_at_exec(ts, 3) {
            Some(w) => Ok(Expr::Variable(w)),
            None => Err(fault("OrimaLang Error: expected variable name in 'value of'", line)),
        };
    }
    match field_of_first(ts) {
        Some((obj, field)) => {
            return Ok(Expr::GetField(obj, field));
        },
        None => {},
    }
    match field_of_second(ts) {
        Some((obj, field)) => {
            return Ok(Expr::GetField(obj, field));
        },
        None => {},
    }
    if n == 1 {
        return parse_single_token(&ts[0], line);
    }
    let mut m = concat(
        &lit("OrimaLang Error: unexpected multi-word expression"),
        &on_line_text(line),
    );
    m.append("; did you forget quotes?");
    Err(Fault::Msg(m))
}

/// A single token as a value.
fn parse_single_token<N: Copy>(tok: &Spanned<N>, line: usize) -> (r: Result<Expr<N>, Fault>)
    ensures
        pv_expr(r) == s_single(tok@, line),
{
    match &tok.token {
        Token::Number(x) => Ok(Expr::Literal(Value::Num(*x))),
        Token::StringLit(s) => Ok(Expr::Literal(Value::Str(s.clone()))),
        Token::Word(w) => {
            if is_kw(w, "true") {
                Ok(Expr::Literal(Value::Bool(true)))
            } else if is_kw(w, "false") {
                Ok(Expr::Literal(Value::Bool(false)))
            } else if is_kw(w, "nil") || is_kw(w, "nothing") {
                Ok(Expr::Literal(Value::Nil))
            } else {
                Ok(Expr::Variable(w.clone()))
            }
        },
        _ => Err(fault("OrimaLang Error: unexpected token in expression", line)),
    }
}

/// The values of the non-empty pieces `segs[k..]`, after `acc`.
pub(crate) fn parse_values<N: Copy>(segs: &Vec<Vec<Spanned<N>>>, line: usize) -> (r: Result<
    Vec<Expr<N>>,
    Fault,
>)
    ensures
        pv_exprs(r) == s_values_from(cls_view(segs@), 0, Seq::empty(), line),
{
    let ghost c = cls_view(segs@);
    let mut out: Vec<Expr<N>> = Vec::new();
    let mut k: usize = 0;
    proof {
        assert(se_list(out@) =~= Seq::<SExpr<N>>::empty());
    }
    while k < segs.len()
        invariant
            k <= segs@.len(),
            c == cls_view(segs@),
            s_values_from(c, 0, Seq::empty(), line) == s_values_from(
                c,
                k as int,
                se_list(out@),
                line,
            ),
        decreases segs@.len() - k,
    {
        if segs[k].len() > 0 {
            let e = match parse_value_expr(segs[k].as_slice(), line) {
                Ok(x) => x,
                Err(f) => return Err(f),
            };
            proof {
                lemma_se_list_push(out@, e);
            }
            out.push(e);
        }
        k += 1;
    }
    Ok(out)
}

/// The values of the `and`-separated parts of `ts`.
pub(crate) fn parse_and_values<N: Copy>(ts: &[Spanned<N>], line: usize) -> (r: Result<Vec<Expr<N>>, Fault>)
    ensures
        pv_exprs(r) == s_and_values(toks_view(ts@), line),
{
    let segs = split_tokens(ts, false);
    parse_values(&segs, line)
}

} // verus!
