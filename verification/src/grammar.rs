//! The grammar of OrimaLang: what the parser makes of a token sequence,
//! stated over token views.
use vstd::prelude::*;

use crate::lexer::{SSpanned, SToken};
use crate::parser::{Comparison, LogicOp, Op, SExpr, SMethod, SStmt, SValue};
use crate::text::{join, on_line};

verus! {

/// Why a parse gave no tree: the message of the error.
pub enum SFault {
    Msg(Seq<char>),
}

pub type Toks<N> = Seq<SSpanned<N>>;

pub type PRes<T> = Result<T, SFault>;

pub open spec fn fault_at(m: Seq<char>, line: usize) -> SFault {
    SFault::Msg(m + on_line(line as nat))
}

pub open spec fn fail_at<T>(m: Seq<char>, line: usize) -> PRes<T> {
    Err(fault_at(m, line))
}

pub open spec fn pair<A, B>(a: PRes<A>, b: PRes<B>) -> PRes<(A, B)> {
    match a {
        Ok(x) => match b {
            Ok(y) => Ok((x, y)),
            Err(f) => Err(f),
        },
        Err(f) => Err(f),
    }
}

/// The fault for a clause index outside the clauses. The readers only ever
/// ask for clauses that exist, so no parse gives it: `law_parse_errors_name_a_line`
/// shows that every parse error names a line, which this one does not.
pub open spec fn no_clause() -> SFault {
    SFault::Msg("OrimaLang Error: no clause to read"@)
}

// ─── Tokens ─────────────────────────────────────────────────────────────────

pub open spec fn is_word<N>(t: SSpanned<N>, w: Seq<char>) -> bool {
    t.token == SToken::<N>::Word(w)
}

pub open spec fn word_of<N>(t: SSpanned<N>) -> Option<Seq<char>> {
    match t.token {
        SToken::Word(w) => Some(w),
        _ => None,
    }
}

/// The word at index `i`, if `i` is in range and holds a word.
pub open spec fn word_at<N>(ts: Toks<N>, i: int) -> Option<Seq<char>> {
    if 0 <= i < ts.len() {
        word_of(ts[i])
    } else {
        None
    }
}

/// The first index at or after `i` holding the word `w`, or the length.
pub open spec fn first_word<N>(ts: Toks<N>, w: Seq<char>, i: int) -> int
    decreases ts.len() - i,
{
    if i < 0 || i >= ts.len() {
        ts.len() as int
    } else if is_word(ts[i], w) {
        i
    } else {
        first_word(ts, w, i + 1)
    }
}

/// The last index before `j` holding the word `w`, or -1.
pub open spec fn last_word<N>(ts: Toks<N>, w: Seq<char>, j: int) -> int
    decreases j,
{
    if j <= 0 || j > ts.len() {
        -1
    } else if is_word(ts[j - 1], w) {
        j - 1
    } else {
        last_word(ts, w, j - 1)
    }
}

/// The words of a token sequence, in order.
pub open spec fn words<N>(ts: Toks<N>) -> Seq<Seq<char>>
    decreases ts.len(),
{
    if ts.len() == 0 {
        Seq::empty()
    } else {
        match word_of(ts.last()) {
            Some(w) => words(ts.drop_last()).push(w),
            None => words(ts.drop_last()),
        }
    }
}

/// The words of `ts`, joined by single spaces: a multi-word name.
pub open spec fn name_of<N>(ts: Toks<N>) -> Seq<char> {
    join(words(ts), " "@)
}

/// The texts of the words and string literals of `ts`, in order.
pub open spec fn texts<N>(ts: Toks<N>) -> Seq<Seq<char>>
    decreases ts.len(),
{
    if ts.len() == 0 {
        Seq::empty()
    } else {
        match ts.last().token {
            SToken::Word(w) => texts(ts.drop_last()).push(w),
            SToken::StringLit(s) => texts(ts.drop_last()).push(s),
            _ => texts(ts.drop_last()),
        }
    }
}

/// The first index at or after `i` of the text `w` in `ws`, or the length.
pub open spec fn first_text(ws: Seq<Seq<char>>, w: Seq<char>, i: int) -> int
    decreases ws.len() - i,
{
    if i < 0 || i >= ws.len() {
        ws.len() as int
    } else if ws[i] == w {
        i
    } else {
        first_text(ws, w, i + 1)
    }
}

/// `ws` without its `and`s.
pub open spec fn drop_and(ws: Seq<Seq<char>>) -> Seq<Seq<char>>
    decreases ws.len(),
{
    if ws.len() == 0 {
        Seq::empty()
    } else if ws.last() == "and"@ {
        drop_and(ws.drop_last())
    } else {
        drop_and(ws.drop_last()).push(ws.last())
    }
}

/// The separator of clauses (a comma) or of parts (the word `and`).
pub open spec fn is_sep<N>(t: SSpanned<N>, by_comma: bool) -> bool {
    if by_comma {
        t.token == SToken::<N>::Comma
    } else {
        is_word(t, "and"@)
    }
}

/// The pieces of `ts[i..]` between separators, after the pieces `acc` and the
/// current piece `cur`: a separator always closes a piece, the end only a
/// non-empty one.
pub open spec fn split_from<N>(
    ts: Toks<N>,
    by_comma: bool,
    i: int,
    cur: Toks<N>,
    acc: Seq<Toks<N>>,
) -> Seq<Toks<N>>
    decreases ts.len() - i,
{
    if i < 0 || i >= ts.len() {
        if cur.len() > 0 {
            acc.push(cur)
        } else {
            acc
        }
    } else if is_sep(ts[i], by_comma) {
        split_from(ts, by_comma, i + 1, Seq::empty(), acc.push(cur))
    } else {
        split_from(ts, by_comma, i + 1, cur.push(ts[i]), acc)
    }
}

pub open spec fn split_clauses<N>(ts: Toks<N>) -> Seq<Toks<N>> {
    split_from(ts, true, 0, Seq::empty(), Seq::empty())
}

pub open spec fn split_on_and<N>(ts: Toks<N>) -> Seq<Toks<N>> {
    split_from(ts, false, 0, Seq::empty(), Seq::empty())
}

// ─── Operators ──────────────────────────────────────────────────────────────

/// The index of the first `and also` at or after `i`, or the length.
pub open spec fn and_also_at<N>(ts: Toks<N>, i: int) -> int
    decreases ts.len() - i,
{
    if i < 0 || i + 1 >= ts.len() {
        ts.len() as int
    } else if is_word(ts[i], "and"@) && is_word(ts[i + 1], "also"@) {
        i
    } else {
        and_also_at(ts, i + 1)
    }
}

/// The comparison that begins at `i`, with the index where its right side starts.
pub open spec fn relation_at<N>(ts: Toks<N>, i: int) -> Option<(Comparison, int)> {
    let n = ts.len();
    if is_word(ts[i], "is"@) {
        if i + 1 < n && is_word(ts[i + 1], "not"@) && !(i + 2 < n && is_word(ts[i + 2], "the"@)) {
            Some((Comparison::IsNot, i + 2))
        } else if i + 2 < n && is_word(ts[i + 1], "greater"@) && is_word(ts[i + 2], "than"@) {
            Some((Comparison::GreaterThan, i + 3))
        } else if i + 2 < n && is_word(ts[i + 1], "less"@) && is_word(ts[i + 2], "than"@) {
            Some((Comparison::LessThan, i + 3))
        } else if i + 2 < n && is_word(ts[i + 1], "at"@) && is_word(ts[i + 2], "least"@) {
            Some((Comparison::AtLeast, i + 3))
        } else if i + 2 < n && is_word(ts[i + 1], "at"@) && is_word(ts[i + 2], "most"@) {
            Some((Comparison::AtMost, i + 3))
        } else {
            Some((Comparison::Is, i + 1))
        }
    } else if is_word(ts[i], "contains"@) {
        Some((Comparison::Contains, i + 1))
    } else if is_word(ts[i], "starts"@) && i + 1 < n && is_word(ts[i + 1], "with"@) {
        Some((Comparison::StartsWith, i + 2))
    } else if is_word(ts[i], "ends"@) && i + 1 < n && is_word(ts[i + 1], "with"@) {
        Some((Comparison::EndsWith, i + 2))
    } else {
        None
    }
}

/// The first comparison at or after `i`: where it starts, which it is, and
/// where its right side starts.
pub open spec fn relation_search<N>(ts: Toks<N>, i: int) -> Option<(int, Comparison, int)>
    decreases ts.len() - i,
{
    if i < 0 || i >= ts.len() {
        None
    } else {
        match relation_at(ts, i) {
            Some((c, r)) => Some((i, c, r)),
            None => relation_search(ts, i + 1),
        }
    }
}

/// The arithmetic operator that begins at `i`, with the index where its right
/// side starts.
pub open spec fn math_at<N>(ts: Toks<N>, i: int) -> Option<(Op, int)> {
    let n = ts.len();
    if is_word(ts[i], "remainder"@) && i + 3 < n && is_word(ts[i + 1], "of"@) && is_word(
        ts[i + 2],
        "divided"@,
    ) && is_word(ts[i + 3], "by"@) {
        Some((Op::Remainder, i + 4))
    } else if is_word(ts[i], "divided"@) && i + 1 < n && is_word(ts[i + 1], "by"@) {
        Some((Op::DividedBy, i + 2))
    } else if is_word(ts[i], "plus"@) {
        Some((Op::Plus, i + 1))
    } else if is_word(ts[i], "minus"@) {
        Some((Op::Minus, i + 1))
    } else if is_word(ts[i], "times"@) {
        Some((Op::Times, i + 1))
    } else {
        None
    }
}

pub open spec fn math_search<N>(ts: Toks<N>, i: int) -> Option<(int, Op, int)>
    decreases ts.len() - i,
{
    if i < 0 || i >= ts.len() {
        None
    } else {
        match math_at(ts, i) {
            Some((op, r)) => Some((i, op, r)),
            None => math_search(ts, i + 1),
        }
    }
}

pub proof fn lemma_relation_search<N>(ts: Toks<N>, i: int)
    requires
        0 <= i,
    ensures
        relation_search(ts, i) matches Some((k, c, r)) ==> i <= k < r <= ts.len(),
    decreases ts.len() - i,
{
    if i < ts.len() && relation_at(ts, i) is None {
        lemma_relation_search(ts, i + 1);
    }
}

pub proof fn lemma_math_search<N>(ts: Toks<N>, i: int)
    requires
        0 <= i,
    ensures
        math_search(ts, i) matches Some((k, op, r)) ==> i <= k < r <= ts.len(),
    decreases ts.len() - i,
{
    if i < ts.len() && math_at(ts, i) is None {
        lemma_math_search(ts, i + 1);
    }
}

pub proof fn lemma_first_word<N>(ts: Toks<N>, w: Seq<char>, i: int)
    requires
        0 <= i <= ts.len(),
    ensures
        i <= first_word(ts, w, i) <= ts.len(),
        first_word(ts, w, i) < ts.len() ==> is_word(ts[first_word(ts, w, i)], w),
        forall|k: int| i <= k < first_word(ts, w, i) ==> !is_word(#[trigger] ts[k], w),
    decreases ts.len() - i,
{
    if i < ts.len() && !is_word(ts[i], w) {
        lemma_first_word(ts, w, i + 1);
    }
}

pub proof fn lemma_last_word<N>(ts: Toks<N>, w: Seq<char>, j: int)
    requires
        0 <= j <= ts.len(),
    ensures
        -1 <= last_word(ts, w, j) < j,
        last_word(ts, w, j) >= 0 ==> is_word(ts[last_word(ts, w, j)], w),
    decreases j,
{
    if j > 0 && !is_word(ts[j - 1], w) {
        lemma_last_word(ts, w, j - 1);
    }
}

/// A token sequence has no more words than tokens, and its first word is that
/// of its first token when that is a word.
pub proof fn lemma_words<N>(ts: Toks<N>)
    ensures
        words(ts).len() <= ts.len(),
        ts.len() > 0 && word_of(ts[0]) is Some ==> words(ts).len() > 0 && words(ts)[0]
            == word_of(ts[0])->0,
    decreases ts.len(),
{
    if ts.len() > 0 {
        lemma_words(ts.drop_last());
        if ts.len() > 1 {
            assert(ts.drop_last()[0] == ts[0]);
        } else {
            assert(words(ts.drop_last()) =~= Seq::<Seq<char>>::empty());
        }
    }
}

pub proof fn lemma_first_text(ws: Seq<Seq<char>>, w: Seq<char>, i: int)
    requires
        0 <= i <= ws.len(),
    ensures
        i <= first_text(ws, w, i) <= ws.len(),
        first_text(ws, w, i) < ws.len() ==> ws[first_text(ws, w, i)] == w,
    decreases ws.len() - i,
{
    if i < ws.len() && ws[i] != w {
        lemma_first_text(ws, w, i + 1);
    }
}

// ─── Expressions ────────────────────────────────────────────────────────────

/// An expression: `or`, then `and also`, then `it is not the case that`,
/// then a comparison or a value.
pub open spec fn s_expr<N>(ts: Toks<N>, line: usize) -> PRes<SExpr<N>>
    decreases ts.len(), 3nat,
{
    let n = ts.len() as int;
    if n == 0 {
        fail_at("OrimaLang Error: expected expression"@, line)
    } else {
        let p = first_word(ts, "or"@, 0);
        proof {
            lemma_first_word(ts, "or"@, 0);
        }
        if p < n {
            match pair(s_expr(ts.subrange(0, p), line), s_expr(ts.subrange(p + 1, n), line)) {
                Ok((a, b)) => Ok(SExpr::LogicalOp(Box::new(a), LogicOp::Or, Box::new(b))),
                Err(f) => Err(f),
            }
        } else {
            let q = and_also_at(ts, 0);
            if 0 <= q && q + 1 < n {
                match pair(s_expr(ts.subrange(0, q), line), s_expr(ts.subrange(q + 2, n), line)) {
                    Ok((a, b)) => Ok(SExpr::LogicalOp(Box::new(a), LogicOp::And, Box::new(b))),
                    Err(f) => Err(f),
                }
            } else if n >= 6 && is_word(ts[0], "it"@) && is_word(ts[1], "is"@) && is_word(
                ts[2],
                "not"@,
            ) && is_word(ts[3], "the"@) && is_word(ts[4], "case"@) && is_word(ts[5], "that"@) {
                match s_expr(ts.subrange(6, n), line) {
                    Ok(a) => Ok(SExpr::Not(Box::new(a))),
                    Err(f) => Err(f),
                }
            } else {
                s_cond_or_value(ts, line)
            }
        }
    }
}

/// A comparison between two values, or else an arithmetic expression.
pub open spec fn s_cond_or_value<N>(ts: Toks<N>, line: usize) -> PRes<SExpr<N>>
    decreases ts.len(), 2nat,
{
    proof {
        lemma_relation_search(ts, 0);
    }
    match relation_search(ts, 0) {
        Some((i, c, r)) => match pair(
            s_value(ts.subrange(0, i), line),
            s_value(ts.subrange(r, ts.len() as int), line),
        ) {
            Ok((a, b)) => Ok(SExpr::Condition(Box::new(a), c, Box::new(b))),
            Err(f) => Err(f),
        },
        None => s_math(ts, line),
    }
}

/// One arithmetic operator between two values, or a single value.
pub open spec fn s_math<N>(ts: Toks<N>, line: usize) -> PRes<SExpr<N>>
    decreases ts.len(), 1nat,
{
    proof {
        lemma_math_search(ts, 0);
    }
    match math_search(ts, 0) {
        Some((i, op, r)) => match pair(
            s_value(ts.subrange(0, i), line),
            s_value(ts.subrange(r, ts.len() as int), line),
        ) {
            Ok((a, b)) => Ok(SExpr::BinaryOp(Box::new(a), op, Box::new(b))),
            Err(f) => Err(f),
        },
        None => s_value(ts, line),
    }
}

/// `the <w1> of <name>` for a fixed `w1`: the name, or the error `m`.
pub open spec fn the_of_name<N>(ts: Toks<N>, m: Seq<char>, line: usize) -> PRes<Seq<char>> {
    match word_at(ts, 3) {
        Some(w) => Ok(w),
        None => fail_at(m, line),
    }
}

pub open spec fn starts_the_of<N>(ts: Toks<N>, w: Seq<char>) -> bool {
    ts.len() >= 3 && is_word(ts[0], "the"@) && is_word(ts[1], w) && is_word(ts[2], "of"@)
}

/// `<field> of <object>` (an optional `the` first), closing the tokens.
pub open spec fn field_of_a<N>(ts: Toks<N>) -> Option<(Seq<char>, Seq<char>)> {
    let n = ts.len() as int;
    let p = first_word(ts, "of"@, 0);
    let fs: int = if is_word(ts[0], "the"@) {
        1
    } else {
        0
    };
    if p < n && p >= 1 && p + 1 < n && p > fs {
        let field = name_of(ts.subrange(fs, p));
        match word_of(ts[p + 1]) {
            Some(obj) => if field.len() > 0 && n == p + 2 {
                Some((obj, field))
            } else {
                None
            },
            None => None,
        }
    } else {
        None
    }
}

/// `the <field> of <object> ...`.
pub open spec fn field_of_b<N>(ts: Toks<N>) -> Option<(Seq<char>, Seq<char>)> {
    let n = ts.len() as int;
    let p = first_word(ts, "of"@, 0);
    if is_word(ts[0], "the"@) && n >= 3 && p < n && p >= 2 {
        let field = name_of(ts.subrange(1, p));
        if field.len() > 0 {
            match word_at(ts, p + 1) {
                Some(obj) => Some((obj, field)),
                None => None,
            }
        } else {
            None
        }
    } else {
        None
    }
}

/// A value: a literal, a variable, or one of the value phrases.
pub open spec fn s_value<N>(ts: Toks<N>, line: usize) -> PRes<SExpr<N>>
    decreases ts.len(), 0nat,
{
    let n = ts.len() as int;
    if n == 0 {
        fail_at("OrimaLang Error: expected value expression"@, line)
    } else if n == 1 && ts[0].token is StringLit {
        Ok(SExpr::Literal(SValue::Str(ts[0].token->StringLit_0)))
    } else if is_word(ts[0], "item"@) && n >= 3 && first_word(ts, "from"@, 0) < n {
        let fp = first_word(ts, "from"@, 0);
        proof {
            reveal_strlit("item");
            reveal_strlit("from");
            assert("item"@[0] != "from"@[0]);
            assert(!is_word(ts[0], "from"@));
            assert(fp == first_word(ts, "from"@, 1));
            lemma_first_word(ts, "from"@, 1);
        }
        if fp + 1 >= n {
            fail_at("OrimaLang Error: expected list name after 'from'"@, line)
        } else {
            match word_of(ts[fp + 1]) {
                None => fail_at("OrimaLang Error: expected list name after 'from'"@, line),
                Some(l) => match s_expr(ts.subrange(1, fp), line) {
                    Ok(e) => Ok(SExpr::ItemFrom(Box::new(e), l)),
                    Err(f) => Err(f),
                },
            }
        }
    } else if starts_the_of(ts, "size"@) {
        match the_of_name(ts, "OrimaLang Error: expected list name in 'size of'"@, line) {
            Ok(w) => Ok(SExpr::SizeOf(w)),
            Err(f) => Err(f),
        }
    } else if starts_the_of(ts, "length"@) {
        match the_of_name(ts, "OrimaLang Error: expected variable name in 'length of'"@, line) {
            Ok(w) => Ok(SExpr::LengthOf(w)),
            Err(f) => Err(f),
        }
    } else if first_word(ts, "joined"@, 0) + 1 < n && is_word(
        ts[first_word(ts, "joined"@, 0) + 1],
        "with"@,
    ) {
        let j = first_word(ts, "joined"@, 0);
        proof {
            lemma_first_word(ts, "joined"@, 0);
        }
        match pair(s_value(ts.subrange(0, j), line), s_value(ts.subrange(j + 2, n), line)) {
            Ok((a, b)) => Ok(SExpr::JoinedWith(Box::new(a), Box::new(b))),
            Err(f) => Err(f),
        }
    } else if n >= 3 && is_word(ts[n - 2], "in"@) && is_word(ts[n - 1], "uppercase"@) {
        match s_value(ts.subrange(0, n - 2), line) {
            Ok(a) => Ok(SExpr::InUppercase(Box::new(a))),
            Err(f) => Err(f),
        }
    } else if n >= 3 && is_word(ts[n - 2], "in"@) && is_word(ts[n - 1], "lowercase"@) {
        match s_value(ts.subrange(0, n - 2), line) {
            Ok(a) => Ok(SExpr::InLowercase(Box::new(a))),
            Err(f) => Err(f),
        }
    } else if starts_the_of(ts, "value"@) {
        match the_of_name(ts, "OrimaLang Error: expected variable name in 'value of'"@, line) {
            Ok(w) => Ok(SExpr::Variable(w)),
            Err(f) => Err(f),
        }
    } else if field_of_a(ts) is Some {
        let (obj, field) = field_of_a(ts)->0;
        Ok(SExpr::GetField(obj, field))
    } else if field_of_b(ts) is Some {
        let (obj, field) = field_of_b(ts)->0;
        Ok(SExpr::GetField(obj, field))
    } else if n == 1 {
        s_single(ts[0], line)
    } else {
        Err(
            SFault::Msg(
                "OrimaLang Error: unexpected multi-word expression"@ + on_line(line as nat)
                    + "; did you forget quotes?"@,
            ),
        )
    }
}

/// A single token as a value.
pub open spec fn s_single<N>(t: SSpanned<N>, line: usize) -> PRes<SExpr<N>> {
    match t.token {
        SToken::Number(x) => Ok(SExpr::Literal(SValue::Num(x))),
        SToken::StringLit(s) => Ok(SExpr::Literal(SValue::Str(s))),
        SToken::Word(w) => if w == "true"@ {
            Ok(SExpr::Literal(SValue::Bool(true)))
        } else if w == "false"@ {
            Ok(SExpr::Literal(SValue::Bool(false)))
        } else if w == "nil"@ || w == "nothing"@ {
            Ok(SExpr::Literal(SValue::Nil))
        } else {
            Ok(SExpr::Variable(w))
        },
        _ => fail_at("OrimaLang Error: unexpected token in expression"@, line),
    }
}

/// The values of the non-empty pieces `segs[k..]`, after `acc`.
pub open spec fn s_values_from<N>(
    segs: Seq<Toks<N>>,
    k: int,
    acc: Seq<SExpr<N>>,
    line: usize,
) -> PRes<Seq<SExpr<N>>>
    decreases segs.len() - k,
{
    if k < 0 || k >= segs.len() {
        Ok(acc)
    } else if segs[k].len() == 0 {
        s_values_from(segs, k + 1, acc, line)
    } else {
        match s_value(segs[k], line) {
            Ok(e) => s_values_from(segs, k + 1, acc.push(e), line),
            Err(f) => Err(f),
        }
    }
}

/// The values of the `and`-separated parts of `ts`.
pub open spec fn s_and_values<N>(ts: Toks<N>, line: usize) -> PRes<Seq<SExpr<N>>> {
    s_values_from(split_on_and(ts), 0, Seq::empty(), line)
}


// ─── Statements ─────────────────────────────────────────────────────────────

/// The size of the clauses `cl[i..]`, counting one for each clause and each
/// token: it falls with every step of the parser.
pub open spec fn weight<N>(cl: Seq<Toks<N>>, i: int) -> nat
    decreases cl.len() - i,
{
    if i >= cl.len() {
        0
    } else {
        cl[i].len() + 1 + weight(cl, i + 1)
    }
}

pub proof fn lemma_weight<N>(cl: Seq<Toks<N>>, i: int, j: int)
    requires
        i <= j <= cl.len(),
    ensures
        weight(cl, i) >= weight(cl, j) + (j - i),
    decreases j - i,
{
    if i < j {
        lemma_weight(cl, i + 1, j);
    }
}

pub open spec fn is_end_marker<N>(c: Toks<N>) -> bool {
    c.len() > 0 && is_word(c[0], "end"@)
}

pub open spec fn starts_kw<N>(c: Toks<N>, kw: Seq<char>) -> bool {
    c.len() > 0 && is_word(c[0], kw)
}

pub open spec fn line_of<N>(c: Toks<N>) -> usize {
    if c.len() > 0 {
        c[0].line
    } else {
        1
    }
}

pub open spec fn rest<N>(c: Toks<N>, k: int) -> Toks<N> {
    c.subrange(k, c.len() as int)
}

/// A statement that takes one clause, with the index after it.
pub open spec fn one<N>(r: PRes<SStmt<N>>, idx: int) -> PRes<(SStmt<N>, int)> {
    match r {
        Ok(s) => Ok((s, idx + 1)),
        Err(f) => Err(f),
    }
}

/// The statements of the clauses `cl[i..]`, after `acc`, up to an `end`
/// marker, an `otherwise` or the last clause, with the index where they stop.
pub open spec fn s_clauses<N>(cl: Seq<Toks<N>>, i: int, acc: Seq<SStmt<N>>) -> PRes<
    (Seq<SStmt<N>>, int),
>
    decreases weight(cl, i), 5nat,
{
    if i < 0 || i >= cl.len() {
        Ok((acc, i))
    } else if is_end_marker(cl[i]) || starts_kw(cl[i], "otherwise"@) {
        Ok((acc, i))
    } else {
        match s_one(cl, i) {
            Ok((st, next)) => if i < next <= cl.len() {
                proof {
                    lemma_weight(cl, i, next);
                }
                s_clauses(cl, next, acc.push(st))
            } else {
                Err(no_clause())
            },
            Err(f) => Err(f),
        }
    }
}

/// The statement that begins with clause `idx`, with the index after it.
pub open spec fn s_one<N>(cl: Seq<Toks<N>>, idx: int) -> PRes<(SStmt<N>, int)>
    decreases weight(cl, idx), 4nat,
{
    if idx < 0 || idx >= cl.len() {
        Err(no_clause())
    } else {
        let c = cl[idx];
        let line = line_of(c);
        if c.len() == 0 {
            Ok((SStmt::Say(Seq::empty()), idx + 1))
        } else {
            match c[0].token {
                SToken::Word(w) => if w == "say"@ {
                    one(s_say(c, line), idx)
                } else if w == "set"@ {
                    one(s_set(c, line), idx)
                } else if w == "increase"@ || w == "decrease"@ || w == "multiply"@ || w
                    == "divide"@ {
                    one(s_arith(w, c, line), idx)
                } else if w == "if"@ {
                    s_if(cl, idx, line)
                } else if w == "repeat"@ {
                    s_repeat(cl, idx, line)
                } else if w == "while"@ {
                    s_while(cl, idx, line)
                } else if w == "for"@ {
                    s_for_each(cl, idx, line)
                } else if w == "stop"@ {
                    Ok((SStmt::StopLoop, idx + 1))
                } else if w == "skip"@ {
                    Ok((SStmt::SkipToNext, idx + 1))
                } else if w == "create"@ {
                    let ws = words(c);
                    if ws.len() >= 2 && ws[1] == "list"@ {
                        one(s_create_list(c, line), idx)
                    } else {
                        one(s_create_object(c, line), idx)
                    }
                } else if w == "add"@ {
                    one(s_add(c, line), idx)
                } else if w == "remove"@ {
                    one(s_remove(c, line), idx)
                } else if w == "define"@ {
                    let ws = words(c);
                    if ws.len() >= 2 && ws[1] == "type"@ {
                        s_define_class(cl, idx, line)
                    } else {
                        s_define(cl, idx, line)
                    }
                } else if w == "run"@ {
                    if first_word(c, "on"@, 0) < c.len() {
                        one(s_run_method(c, line), idx)
                    } else {
                        one(s_run(c, line), idx)
                    }
                } else if w == "give"@ {
                    one(s_give_back(c, line), idx)
                } else if w == "ask"@ {
                    one(s_ask(c, line), idx)
                } else {
                    Err(
                        SFault::Msg(
                            "OrimaLang Error: unknown statement keyword '"@ + w + "'"@ + on_line(
                                line as nat,
                            ),
                        ),
                    )
                },
                SToken::Number(_) => fail_at(
                    "OrimaLang Error: unexpected number at start of statement"@,
                    line,
                ),
                _ => fail_at("OrimaLang Error: unexpected token at start of statement"@, line),
            }
        }
    }
}

/// The body that follows clause `idx`, with the index after its `end` marker.
pub open spec fn s_body<N>(cl: Seq<Toks<N>>, idx: int) -> PRes<(Seq<SStmt<N>>, int)>
    decreases weight(cl, idx), 1nat,
{
    if idx < 0 || idx >= cl.len() {
        Err(no_clause())
    } else {
        match s_clauses(cl, idx + 1, Seq::empty()) {
            Ok((b, next)) => Ok(
                (b, if 0 <= next < cl.len() && is_end_marker(cl[next]) {
                    next + 1
                } else {
                    next
                }),
            ),
            Err(f) => Err(f),
        }
    }
}

/// `say <part> and <part> ...`
pub open spec fn s_say<N>(c: Toks<N>, line: usize) -> PRes<SStmt<N>> {
    let r = rest(c, 1);
    if r.len() == 0 {
        Ok(SStmt::Say(seq![SExpr::Literal(SValue::Str(Seq::empty()))]))
    } else {
        match s_and_values(r, line) {
            Ok(ps) => Ok(
                SStmt::Say(
                    if ps.len() == 0 {
                        seq![SExpr::Literal(SValue::Str(Seq::empty()))]
                    } else {
                        ps
                    },
                ),
            ),
            Err(f) => Err(f),
        }
    }
}

/// `set <name> to <expr>`, or `set [the] <field> of <object> to <expr>`.
pub open spec fn s_set<N>(c: Toks<N>, line: usize) -> PRes<SStmt<N>> {
    let n = c.len() as int;
    let op = first_word(c, "of"@, 0);
    let tp = last_word(c, "to"@, n);
    if op < n && tp >= 0 && op > 1 && tp > op {
        let fs: int = if is_word(c[1], "the"@) {
            2
        } else {
            1
        };
        let field = name_of(c.subrange(fs, op));
        match word_at(c, op + 1) {
            None => fail_at("OrimaLang Error: expected object variable name after 'of'"@, line),
            Some(obj) => if field.len() > 0 || is_word(c[1], "the"@) {
                match s_expr(rest(c, tp + 1), line) {
                    Ok(e) => Ok(SStmt::SetField(obj, field, e)),
                    Err(f) => Err(f),
                }
            } else {
                s_set_var(c, line)
            },
        }
    } else {
        s_set_var(c, line)
    }
}

pub open spec fn s_set_var<N>(c: Toks<N>, line: usize) -> PRes<SStmt<N>> {
    if c.len() < 4 {
        fail_at("OrimaLang Error: malformed 'set' statement"@, line)
    } else {
        match word_of(c[1]) {
            None => fail_at("OrimaLang Error: expected variable name after 'set'"@, line),
            Some(name) => if !is_word(c[2], "to"@) {
                fail_at("OrimaLang Error: expected 'to' in 'set' statement"@, line)
            } else {
                match s_expr(rest(c, 3), line) {
                    Ok(e) => Ok(SStmt::SetVar(name, e)),
                    Err(f) => Err(f),
                }
            },
        }
    }
}

pub open spec fn arith_stmt<N>(kind: Seq<char>, name: Seq<char>, e: SExpr<N>) -> SStmt<N> {
    if kind == "increase"@ {
        SStmt::Increase(name, e)
    } else if kind == "decrease"@ {
        SStmt::Decrease(name, e)
    } else if kind == "multiply"@ {
        SStmt::Multiply(name, e)
    } else {
        SStmt::Divide(name, e)
    }
}

/// `increase|decrease|multiply|divide <name> by <expr>`
pub open spec fn s_arith<N>(kind: Seq<char>, c: Toks<N>, line: usize) -> PRes<SStmt<N>> {
    if c.len() < 4 {
        Err(fault_at("OrimaLang Error: malformed '"@ + kind + "' statement"@, line))
    } else {
        match word_of(c[1]) {
            None => Err(fault_at("OrimaLang Error: expected variable name in '"@ + kind + "'"@, line)),
            Some(name) => if !is_word(c[2], "by"@) {
                Err(fault_at("OrimaLang Error: expected 'by' in '"@ + kind + "' statement"@, line))
            } else {
                match s_expr(rest(c, 3), line) {
                    Ok(e) => Ok(arith_stmt(kind, name, e)),
                    Err(f) => Err(f),
                }
            },
        }
    }
}

/// An `if` statement with its condition, its body, its `otherwise` part and
/// its `end` marker, with the index after them.
pub open spec fn s_if<N>(cl: Seq<Toks<N>>, idx: int, line: usize) -> PRes<(SStmt<N>, int)>
    decreases weight(cl, idx), 3nat,
{
    if idx < 0 || idx >= cl.len() {
        Err(no_clause())
    } else {
        match s_expr(rest(cl[idx], 1), line) {
            Err(f) => Err(f),
            Ok(cond) => match s_clauses(cl, idx + 1, Seq::empty()) {
                Err(f) => Err(f),
                Ok((then_b, next)) => if next < idx + 1 || next > cl.len() {
                    Err(no_clause())
                } else if next < cl.len() && starts_kw(cl[next], "otherwise"@) {
                    let after = rest(cl[next], 1);
                    proof {
                        lemma_weight(cl, idx, next);
                        lemma_weight(cl, next, next + 1);
                    }
                    if after.len() > 0 {
                        match s_one_tokens(after, line) {
                            Ok(s) => Ok(if_done(cl, cond, then_b, seq![s], next + 1)),
                            Err(f) => Err(f),
                        }
                    } else {
                        match s_clauses(cl, next + 1, Seq::empty()) {
                            Ok((else_b, nx)) => Ok(if_done(cl, cond, then_b, else_b, nx)),
                            Err(f) => Err(f),
                        }
                    }
                } else {
                    Ok(if_done(cl, cond, then_b, Seq::empty(), next))
                },
            },
        }
    }
}

pub open spec fn if_done<N>(
    cl: Seq<Toks<N>>,
    cond: SExpr<N>,
    then_b: Seq<SStmt<N>>,
    else_b: Seq<SStmt<N>>,
    next: int,
) -> (SStmt<N>, int) {
    (
        SStmt::If(cond, then_b, else_b),
        if 0 <= next < cl.len() && is_end_marker(cl[next]) {
            next + 1
        } else {
            next
        },
    )
}

/// A statement written after `otherwise` in the same clause.
pub open spec fn s_one_tokens<N>(ts: Toks<N>, line: usize) -> PRes<SStmt<N>>
    decreases ts.len() + 2, 0nat,
{
    proof {
        assert(weight(seq![ts], 1) == 0);
    }
    match s_clauses(seq![ts], 0, Seq::empty()) {
        Ok((ss, _)) => Ok(
            if ss.len() > 0 {
                ss[0]
            } else {
                SStmt::Say(Seq::empty())
            },
        ),
        Err(f) => Err(f),
    }
}

/// `repeat <count> times`, a body and its `end` marker.
pub open spec fn s_repeat<N>(cl: Seq<Toks<N>>, idx: int, line: usize) -> PRes<(SStmt<N>, int)>
    decreases weight(cl, idx), 3nat,
{
    if idx < 0 || idx >= cl.len() {
        Err(no_clause())
    } else {
        let c = cl[idx];
        let tp = first_word(c, "times"@, 0);
        let count = if tp < c.len() {
            c.subrange(1, tp)
        } else {
            rest(c, 1)
        };
        match pair(s_expr(count, line), s_body(cl, idx)) {
            Ok((e, (b, next))) => Ok((SStmt::Repeat(e, b), next)),
            Err(f) => Err(f),
        }
    }
}

/// `while <condition>`, a body and its `end` marker.
pub open spec fn s_while<N>(cl: Seq<Toks<N>>, idx: int, line: usize) -> PRes<(SStmt<N>, int)>
    decreases weight(cl, idx), 3nat,
{
    if idx < 0 || idx >= cl.len() {
        Err(no_clause())
    } else {
        match pair(s_expr(rest(cl[idx], 1), line), s_body(cl, idx)) {
            Ok((e, (b, next))) => Ok((SStmt::While(e, b), next)),
            Err(f) => Err(f),
        }
    }
}

/// `for each <item> in <list>`, a body and its `end` marker.
pub open spec fn s_for_each<N>(cl: Seq<Toks<N>>, idx: int, line: usize) -> PRes<(SStmt<N>, int)>
    decreases weight(cl, idx), 3nat,
{
    if idx < 0 || idx >= cl.len() {
        Err(no_clause())
    } else {
        let ws = words(cl[idx]);
        if ws.len() < 5 || ws[1] != "each"@ || ws[3] != "in"@ {
            fail_at("OrimaLang Error: malformed 'for each' statement"@, line)
        } else {
            match s_body(cl, idx) {
                Ok((b, next)) => Ok((SStmt::ForEach(ws[2], ws[4], b), next)),
                Err(f) => Err(f),
            }
        }
    }
}

/// `create list <name>`
pub open spec fn s_create_list<N>(c: Toks<N>, line: usize) -> PRes<SStmt<N>> {
    let ws = words(c);
    if ws.len() < 3 || ws[1] != "list"@ {
        fail_at("OrimaLang Error: malformed 'create list'"@, line)
    } else {
        Ok(SStmt::CreateList(ws[2]))
    }
}

/// The variable of `store in <var>`, where `sp` is the index of `store` and
/// `ip` that of the `in` searched for.
pub open spec fn store_var<N>(c: Toks<N>, sp: int, ip: int) -> Option<Seq<char>> {
    if sp < c.len() && ip < c.len() && ip == sp + 1 {
        word_at(c, ip + 1)
    } else {
        None
    }
}

/// Where the arguments after `with` end: before `and store`, before `store`,
/// or at the end.
pub open spec fn args_end<N>(c: Toks<N>, sp: int) -> int {
    if sp < c.len() {
        if sp > 0 && is_word(c[sp - 1], "and"@) {
            sp - 1
        } else {
            sp
        }
    } else {
        c.len() as int
    }
}

/// The arguments between `with` (at `wp`) and `store` (at `sp`).
pub open spec fn s_args<N>(c: Toks<N>, wp: int, sp: int, line: usize) -> PRes<Seq<SExpr<N>>> {
    if wp < c.len() {
        let end = args_end(c, sp);
        if end < wp + 1 {
            fail_at("OrimaLang Error: 'with' must come before 'store in'"@, line)
        } else {
            s_and_values(c.subrange(wp + 1, end), line)
        }
    } else {
        Ok(Seq::empty())
    }
}

/// `create <class> with <args> and store in <var>`
pub open spec fn s_create_object<N>(c: Toks<N>, line: usize) -> PRes<SStmt<N>> {
    let n = c.len() as int;
    let wp = first_word(c, "with"@, 0);
    let sp = first_word(c, "store"@, 0);
    let name_end = if wp < n {
        wp
    } else if sp < n {
        sp
    } else {
        n
    };
    let class = name_of(c.subrange(1, name_end));
    if class.len() == 0 {
        fail_at("OrimaLang Error: 'create' needs a class name"@, line)
    } else {
        match store_var(c, sp, first_word(c, "in"@, 0)) {
            None => fail_at("OrimaLang Error: 'create' needs 'store in <var>'"@, line),
            Some(v) => match s_args(c, wp, sp, line) {
                Ok(args) => Ok(SStmt::CreateObject(class, args, v)),
                Err(f) => Err(f),
            },
        }
    }
}

/// `add <value> to <list>`
pub open spec fn s_add<N>(c: Toks<N>, line: usize) -> PRes<SStmt<N>> {
    let tp = last_word(c, "to"@, c.len() as int);
    if tp < 0 {
        fail_at("OrimaLang Error: 'add' missing 'to'"@, line)
    } else if tp + 1 >= c.len() {
        fail_at("OrimaLang Error: missing list name in 'add'"@, line)
    } else {
        match word_of(c[tp + 1]) {
            None => fail_at("OrimaLang Error: expected list name after 'to'"@, line),
            Some(l) => match s_value(c.subrange(1, tp), line) {
                Ok(e) => Ok(SStmt::AddToList(e, l)),
                Err(f) => Err(f),
            },
        }
    }
}

/// `remove <value> from <list>` or `remove item <index> from <list>`
pub open spec fn s_remove<N>(c: Toks<N>, line: usize) -> PRes<SStmt<N>> {
    let fp = first_word(c, "from"@, 0);
    if fp >= c.len() {
        fail_at("OrimaLang Error: 'remove' missing 'from'"@, line)
    } else if fp + 1 >= c.len() {
        fail_at("OrimaLang Error: missing list name in 'remove'"@, line)
    } else {
        match word_of(c[fp + 1]) {
            None => fail_at("OrimaLang Error: expected list name after 'from'"@, line),
            Some(l) => if c.len() > 1 && is_word(c[1], "item"@) {
                match s_expr(c.subrange(2, fp), line) {
                    Ok(e) => Ok(SStmt::RemoveItemFromList(e, l)),
                    Err(f) => Err(f),
                }
            } else {
                match s_value(c.subrange(1, fp), line) {
                    Ok(e) => Ok(SStmt::RemoveFromList(e, l)),
                    Err(f) => Err(f),
                }
            },
        }
    }
}

/// The names after `taking` (at `tp` in `ws`), without the `and`s.
pub open spec fn taking_names(ws: Seq<Seq<char>>, tp: int) -> Seq<Seq<char>> {
    if tp < ws.len() {
        drop_and(ws.subrange(tp + 1, ws.len() as int))
    } else {
        Seq::empty()
    }
}

/// `define <name> taking <p> and <p> ...`, a body and its `end` marker.
pub open spec fn s_define<N>(cl: Seq<Toks<N>>, idx: int, line: usize) -> PRes<(SStmt<N>, int)>
    decreases weight(cl, idx), 2nat,
{
    if idx < 0 || idx >= cl.len() {
        Err(no_clause())
    } else {
        let ws = words(cl[idx]);
        let tp = first_text(ws, "taking"@, 0);
        let name_end = if tp < ws.len() {
            tp
        } else {
            ws.len() as int
        };
        if ws.len() < 2 || join(ws.subrange(1, name_end), " "@).len() == 0 {
            fail_at("OrimaLang Error: 'define' needs a function name"@, line)
        } else {
            match s_body(cl, idx) {
                Ok((b, next)) => Ok(
                    (
                        SStmt::Define(join(ws.subrange(1, name_end), " "@), taking_names(ws, tp), b),
                        next,
                    ),
                ),
                Err(f) => Err(f),
            }
        }
    }
}

/// `define type <name> taking <f> and <f> ...`, its methods and `end type`.
pub open spec fn s_define_class<N>(cl: Seq<Toks<N>>, idx: int, line: usize) -> PRes<
    (SStmt<N>, int),
>
    decreases weight(cl, idx), 3nat,
{
    if idx < 0 || idx >= cl.len() {
        Err(no_clause())
    } else {
        let ws = words(cl[idx]);
        if ws.len() < 3 {
            fail_at("OrimaLang Error: 'define type' needs a type name"@, line)
        } else {
            match s_class_body(cl, idx + 1, Seq::empty()) {
                Ok((ms, next)) => Ok(
                    (
                        SStmt::DefineClass(ws[2], taking_names(ws, first_text(ws, "taking"@, 0)), ms),
                        next,
                    ),
                ),
                Err(f) => Err(f),
            }
        }
    }
}

/// The methods of a class body from clause `i`, after `ms`: each `define`
/// clause starts one, other clauses are passed over, an `end type` closes
/// the body and any other `end` marker stops it.
pub open spec fn s_class_body<N>(cl: Seq<Toks<N>>, i: int, ms: Seq<SMethod<N>>) -> PRes<
    (Seq<SMethod<N>>, int),
>
    decreases weight(cl, i), 3nat,
{
    if i < 0 || i >= cl.len() {
        Ok((ms, i))
    } else if is_end_marker(cl[i]) {
        let ew = words(cl[i]);
        if ew.len() >= 2 && ew[1] == "type"@ {
            Ok((ms, i + 1))
        } else {
            Ok((ms, i))
        }
    } else if starts_kw(cl[i], "define"@) {
        match s_define(cl, i, line_of(cl[i])) {
            Ok((st, next)) => if i < next <= cl.len() {
                proof {
                    lemma_weight(cl, i, next);
                }
                s_class_body(
                    cl,
                    next,
                    match st {
                        SStmt::Define(name, ps, b) => ms.push((name, ps, b)),
                        _ => ms,
                    },
                )
            } else {
                Err(no_clause())
            },
            Err(f) => Err(f),
        }
    } else {
        s_class_body(cl, i + 1, ms)
    }
}

/// `run <function> with <args> and store in <var>`
pub open spec fn s_run<N>(c: Toks<N>, line: usize) -> PRes<SStmt<N>> {
    let n = c.len() as int;
    if n < 2 {
        fail_at("OrimaLang Error: 'run' needs a function name"@, line)
    } else {
        let wp = first_word(c, "with"@, 0);
        let sp = first_word(c, "store"@, 0);
        let name_end = if wp < n {
            wp
        } else if sp < n {
            sp
        } else {
            n
        };
        let name = name_of(c.subrange(1, name_end));
        if name.len() == 0 {
            fail_at("OrimaLang Error: 'run' needs a function name"@, line)
        } else {
            match s_args(c, wp, sp, line) {
                Ok(args) => Ok(SStmt::Run(name, args, store_var(c, sp, first_word(c, "in"@, 0)))),
                Err(f) => Err(f),
            }
        }
    }
}

/// `run <method> on <object> with <args> and store in <var>`
pub open spec fn s_run_method<N>(c: Toks<N>, line: usize) -> PRes<SStmt<N>> {
    let n = c.len() as int;
    let op = first_word(c, "on"@, 0);
    if op >= n {
        fail_at("OrimaLang Error: 'run ... on' missing 'on'"@, line)
    } else {
        let name = name_of(c.subrange(1, op));
        if name.len() == 0 {
            fail_at("OrimaLang Error: 'run on' needs a method name"@, line)
        } else {
            match word_at(c, op + 1) {
                None => fail_at("OrimaLang Error: expected object variable after 'on'"@, line),
                Some(obj) => {
                    let wp = first_word(c, "with"@, op + 2);
                    let sp = first_word(c, "store"@, op + 2);
                    match s_args(c, wp, sp, line) {
                        Ok(args) => Ok(
                            SStmt::RunMethod(
                                name,
                                args,
                                obj,
                                store_var(c, sp, first_word(c, "in"@, sp)),
                            ),
                        ),
                        Err(f) => Err(f),
                    }
                },
            }
        }
    }
}

/// `give back <expr>`
pub open spec fn s_give_back<N>(c: Toks<N>, line: usize) -> PRes<SStmt<N>> {
    let ws = words(c);
    if ws.len() < 2 || ws[1] != "back"@ {
        fail_at("OrimaLang Error: expected 'give back <value>'"@, line)
    } else {
        match s_expr(rest(c, 2), line) {
            Ok(e) => Ok(SStmt::GiveBack(e)),
            Err(f) => Err(f),
        }
    }
}

/// `ask <prompt> and store in <var>`
pub open spec fn s_ask<N>(c: Toks<N>, line: usize) -> PRes<SStmt<N>> {
    let sp = first_word(c, "store"@, 0);
    if sp >= c.len() {
        fail_at("OrimaLang Error: 'ask' missing 'store in'"@, line)
    } else {
        match word_at(c, sp + 2) {
            None => fail_at("OrimaLang Error: 'ask' missing variable name"@, line),
            Some(v) => {
                let end = if sp > 0 && is_word(c[sp - 1], "and"@) {
                    sp - 1
                } else {
                    sp
                };
                Ok(SStmt::Ask(texts(c.subrange(1, end)), v))
            },
        }
    }
}

/// The statements of one statement's tokens (no final period): its clauses
/// up to the first stray `end` marker or `otherwise`.
pub open spec fn s_statement<N>(st: Toks<N>) -> PRes<Seq<SStmt<N>>> {
    let cl = split_clauses(st);
    if cl.len() == 0 {
        Ok(Seq::empty())
    } else {
        match s_clauses(cl, 0, Seq::empty()) {
            Ok((ss, _)) => Ok(ss),
            Err(f) => Err(f),
        }
    }
}

pub open spec fn ends_statement<N>(t: SSpanned<N>) -> bool {
    t.token is Period || t.token is Eof
}

/// The first index at or after `i` holding a period or the end of input.
pub open spec fn stmt_end<N>(ts: Toks<N>, i: int) -> int
    decreases ts.len() - i,
{
    if i < 0 || i >= ts.len() {
        ts.len() as int
    } else if ends_statement(ts[i]) {
        i
    } else {
        stmt_end(ts, i + 1)
    }
}

pub proof fn lemma_stmt_end<N>(ts: Toks<N>, i: int)
    requires
        0 <= i <= ts.len(),
    ensures
        i <= stmt_end(ts, i) <= ts.len(),
        stmt_end(ts, i) < ts.len() ==> ends_statement(ts[stmt_end(ts, i)]),
        forall|k: int| i <= k < stmt_end(ts, i) ==> !ends_statement(#[trigger] ts[k]),
    decreases ts.len() - i,
{
    if i < ts.len() && !ends_statement(ts[i]) {
        lemma_stmt_end(ts, i + 1);
    }
}

/// Some token at or after `pos` marks the end of input.
pub open spec fn eof_from<N>(ts: Toks<N>, pos: int) -> bool {
    exists|k: int| pos <= k < ts.len() && (#[trigger] ts[k]).token is Eof
}

/// The statements from `pos` on, after `acc`, up to the end of input, with
/// the position where the reader stops.
pub open spec fn s_program_from<N>(ts: Toks<N>, pos: int, acc: Seq<SStmt<N>>) -> (
    PRes<Seq<SStmt<N>>>,
    int,
)
    decreases ts.len() - pos,
{
    if pos < 0 || pos >= ts.len() || ts[pos].token is Eof {
        (Ok(acc), pos)
    } else {
        let end = stmt_end(ts, pos);
        let next = if end < ts.len() && ts[end].token is Period {
            end + 1
        } else {
            end
        };
        proof {
            lemma_stmt_end(ts, pos);
        }
        if end == pos {
            s_program_from(ts, next, acc)
        } else {
            match s_statement(ts.subrange(pos, end)) {
                Ok(ss) => s_program_from(ts, next, acc + ss),
                Err(f) => (Err(f), next),
            }
        }
    }
}

/// The program that a token sequence holds.
pub open spec fn s_parse<N>(ts: Toks<N>) -> PRes<Seq<SStmt<N>>> {
    s_program_from(ts, 0, Seq::empty()).0
}


// ─── Lines of statements ────────────────────────────────────────────────────

/// The lines of the statements that `s_clauses` reads from clause `i`, after
/// `acc`: each the line of the clause it begins with.
pub open spec fn s_clause_lines<N>(cl: Seq<Toks<N>>, i: int, acc: Seq<usize>) -> Seq<usize>
    decreases cl.len() - i,
{
    if i < 0 || i >= cl.len() || is_end_marker(cl[i]) || starts_kw(cl[i], "otherwise"@) {
        acc
    } else {
        match s_one(cl, i) {
            Ok((_, next)) => if i < next <= cl.len() {
                s_clause_lines(cl, next, acc.push(line_of(cl[i])))
            } else {
                acc
            },
            Err(_) => acc,
        }
    }
}

/// The lines already read only prefix what `s_clause_lines` adds.
pub proof fn lemma_clause_lines_acc<N>(cl: Seq<Toks<N>>, i: int, acc: Seq<usize>)
    ensures
        s_clause_lines(cl, i, acc) == acc + s_clause_lines(cl, i, Seq::empty()),
    decreases cl.len() - i,
{
    if i < 0 || i >= cl.len() || is_end_marker(cl[i]) || starts_kw(cl[i], "otherwise"@) {
        assert(acc + Seq::<usize>::empty() =~= acc);
    } else {
        match s_one(cl, i) {
            Ok((_, next)) => if i < next <= cl.len() {
                lemma_clause_lines_acc(cl, next, acc.push(line_of(cl[i])));
                lemma_clause_lines_acc(cl, next, seq![line_of(cl[i])]);
                assert(Seq::<usize>::empty().push(line_of(cl[i])) =~= seq![line_of(cl[i])]);
                assert(acc.push(line_of(cl[i])) + s_clause_lines(cl, next, Seq::empty()) =~= acc + (
                seq![line_of(cl[i])] + s_clause_lines(cl, next, Seq::empty())));
            } else {
                assert(acc + Seq::<usize>::empty() =~= acc);
            },
            Err(_) => {
                assert(acc + Seq::<usize>::empty() =~= acc);
            },
        }
    }
}

/// The lines of the statements of one statement's tokens.
pub open spec fn s_statement_lines<N>(st: Toks<N>) -> Seq<usize> {
    let cl = split_clauses(st);
    if cl.len() == 0 {
        Seq::empty()
    } else {
        s_clause_lines(cl, 0, Seq::empty())
    }
}

/// The lines of the statements read from `pos` on, after `acc`.
pub open spec fn s_program_lines<N>(ts: Toks<N>, pos: int, acc: Seq<usize>) -> Seq<usize>
    decreases ts.len() - pos,
{
    if pos < 0 || pos >= ts.len() || ts[pos].token is Eof {
        acc
    } else {
        let end = stmt_end(ts, pos);
        let next = if end < ts.len() && ts[end].token is Period {
            end + 1
        } else {
            end
        };
        proof {
            lemma_stmt_end(ts, pos);
        }
        if end == pos {
            s_program_lines(ts, next, acc)
        } else {
            match s_statement(ts.subrange(pos, end)) {
                Ok(_) => s_program_lines(ts, next, acc + s_statement_lines(ts.subrange(pos, end))),
                Err(_) => acc,
            }
        }
    }
}

/// The line of each statement of a program: that of the clause it begins with.
pub open spec fn s_lines<N>(ts: Toks<N>) -> Seq<usize> {
    s_program_lines(ts, 0, Seq::empty())
}

} // verus!
