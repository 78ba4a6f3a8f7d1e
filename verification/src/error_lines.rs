//! Every error the parser gives begins with `OrimaLang Error: ` and names a
//! line: its message holds ` on line N`, where `N` is the line of one of the
//! tokens it was given.
use vstd::prelude::*;

use crate::grammar::{
    and_also_at, fault_at, first_word, is_end_marker, is_word, lemma_first_word, lemma_math_search,
    lemma_relation_search, lemma_weight, line_of, math_search, relation_search, rest, s_add, s_and_values,
    s_args, s_arith, s_ask, s_body, s_class_body, s_clauses, s_cond_or_value, s_create_list,
    s_create_object, s_define, s_define_class, s_expr, s_for_each, s_give_back, s_if, s_math, s_one,
    s_one_tokens, s_program_from, s_remove, s_repeat, s_run, s_run_method, s_say, s_set, s_set_var,
    s_statement, s_value, s_values_from, s_while, split_clauses, split_from, split_on_and, starts_kw,
    stmt_end, lemma_stmt_end, weight, PRes, SFault, Toks,
};
use crate::laws::{lemma_clauses_progress, lemma_define_progress};
use crate::lexer::{SSpanned, SToken};
use crate::parser::{SExpr, SMethod, SStmt};
use crate::text::{has_prefix, on_line};

verus! {

/// The words every parse error begins with.
pub open spec fn err_prefix() -> Seq<char> {
    "OrimaLang Error: "@
}

/// Each message the parser gives begins with `OrimaLang Error: `.
proof fn lemma_messages()
    ensures
        has_prefix("OrimaLang Error: 'add' missing 'to'"@, err_prefix()),
        has_prefix("OrimaLang Error: 'ask' missing 'store in'"@, err_prefix()),
        has_prefix("OrimaLang Error: 'ask' missing variable name"@, err_prefix()),
        has_prefix("OrimaLang Error: 'create' needs 'store in <var>'"@, err_prefix()),
        has_prefix("OrimaLang Error: 'create' needs a class name"@, err_prefix()),
        has_prefix("OrimaLang Error: 'define type' needs a type name"@, err_prefix()),
        has_prefix("OrimaLang Error: 'define' needs a function name"@, err_prefix()),
        has_prefix("OrimaLang Error: 'remove' missing 'from'"@, err_prefix()),
        has_prefix("OrimaLang Error: 'run ... on' missing 'on'"@, err_prefix()),
        has_prefix("OrimaLang Error: 'run on' needs a method name"@, err_prefix()),
        has_prefix("OrimaLang Error: 'run' needs a function name"@, err_prefix()),
        has_prefix("OrimaLang Error: 'with' must come before 'store in'"@, err_prefix()),
        has_prefix("OrimaLang Error: expected 'by' in '"@, err_prefix()),
        has_prefix("OrimaLang Error: expected 'give back <value>'"@, err_prefix()),
        has_prefix("OrimaLang Error: expected 'to' in 'set' statement"@, err_prefix()),
        has_prefix("OrimaLang Error: expected expression"@, err_prefix()),
        has_prefix("OrimaLang Error: expected list name after 'from'"@, err_prefix()),
        has_prefix("OrimaLang Error: expected list name after 'to'"@, err_prefix()),
        has_prefix("OrimaLang Error: expected list name in 'size of'"@, err_prefix()),
        has_prefix("OrimaLang Error: expected object variable after 'on'"@, err_prefix()),
        has_prefix("OrimaLang Error: expected object variable name after 'of'"@, err_prefix()),
        has_prefix("OrimaLang Error: expected value expression"@, err_prefix()),
        has_prefix("OrimaLang Error: expected variable name after 'set'"@, err_prefix()),
        has_prefix("OrimaLang Error: expected variable name in '"@, err_prefix()),
        has_prefix("OrimaLang Error: expected variable name in 'length of'"@, err_prefix()),
        has_prefix("OrimaLang Error: expected variable name in 'value of'"@, err_prefix()),
        has_prefix("OrimaLang Error: malformed '"@, err_prefix()),
        has_prefix("OrimaLang Error: malformed 'create list'"@, err_prefix()),
        has_prefix("OrimaLang Error: malformed 'for each' statement"@, err_prefix()),
        has_prefix("OrimaLang Error: malformed 'set' statement"@, err_prefix()),
        has_prefix("OrimaLang Error: missing list name in 'add'"@, err_prefix()),
        has_prefix("OrimaLang Error: missing list name in 'remove'"@, err_prefix()),
        has_prefix("OrimaLang Error: unexpected multi-word expression"@, err_prefix()),
        has_prefix("OrimaLang Error: unexpected number at start of statement"@, err_prefix()),
        has_prefix("OrimaLang Error: unexpected token at start of statement"@, err_prefix()),
        has_prefix("OrimaLang Error: unexpected token in expression"@, err_prefix()),
        has_prefix("OrimaLang Error: unknown statement keyword '"@, err_prefix()),
{
    reveal_strlit("OrimaLang Error: ");
    reveal_strlit("OrimaLang Error: 'add' missing 'to'");
    assert("OrimaLang Error: 'add' missing 'to'"@.take(17) =~= err_prefix());
    reveal_strlit("OrimaLang Error: 'ask' missing 'store in'");
    assert("OrimaLang Error: 'ask' missing 'store in'"@.take(17) =~= err_prefix());
    reveal_strlit("OrimaLang Error: 'ask' missing variable name");
    assert("OrimaLang Error: 'ask' missing variable name"@.take(17) =~= err_prefix());
    reveal_strlit("OrimaLang Error: 'create' needs 'store in <var>'");
    assert("OrimaLang Error: 'create' needs 'store in <var>'"@.take(17) =~= err_prefix());
    reveal_strlit("OrimaLang Error: 'create' needs a class name");
    assert("OrimaLang Error: 'create' needs a class name"@.take(17) =~= err_prefix());
    reveal_strlit("OrimaLang Error: 'define type' needs a type name");
    assert("OrimaLang Error: 'define type' needs a type name"@.take(17) =~= err_prefix());
    reveal_strlit("OrimaLang Error: 'define' needs a function name");
    assert("OrimaLang Error: 'define' needs a function name"@.take(17) =~= err_prefix());
    reveal_strlit("OrimaLang Error: 'remove' missing 'from'");
    assert("OrimaLang Error: 'remove' missing 'from'"@.take(17) =~= err_prefix());
    reveal_strlit("OrimaLang Error: 'run ... on' missing 'on'");
    assert("OrimaLang Error: 'run ... on' missing 'on'"@.take(17) =~= err_prefix());
    reveal_strlit("OrimaLang Error: 'run on' needs a method name");
    assert("OrimaLang Error: 'run on' needs a method name"@.take(17) =~= err_prefix());
    reveal_strlit("OrimaLang Error: 'run' needs a function name");
    assert("OrimaLang Error: 'run' needs a function name"@.take(17) =~= err_prefix());
    reveal_strlit("OrimaLang Error: 'with' must come before 'store in'");
    assert("OrimaLang Error: 'with' must come before 'store in'"@.take(17) =~= err_prefix());
    reveal_strlit("OrimaLang Error: expected 'by' in '");
    assert("OrimaLang Error: expected 'by' in '"@.take(17) =~= err_prefix());
    reveal_strlit("OrimaLang Error: expected 'give back <value>'");
    assert("OrimaLang Error: expected 'give back <value>'"@.take(17) =~= err_prefix());
    reveal_strlit("OrimaLang Error: expected 'to' in 'set' statement");
    assert("OrimaLang Error: expected 'to' in 'set' statement"@.take(17) =~= err_prefix());
    reveal_strlit("OrimaLang Error: expected expression");
    assert("OrimaLang Error: expected expression"@.take(17) =~= err_prefix());
    reveal_strlit("OrimaLang Error: expected list name after 'from'");
    assert("OrimaLang Error: expected list name after 'from'"@.take(17) =~= err_prefix());
    reveal_strlit("OrimaLang Error: expected list name after 'to'");
    assert("OrimaLang Error: expected list name after 'to'"@.take(17) =~= err_prefix());
    reveal_strlit("OrimaLang Error: expected list name in 'size of'");
    assert("OrimaLang Error: expected list name in 'size of'"@.take(17) =~= err_prefix());
    reveal_strlit("OrimaLang Error: expected object variable after 'on'");
    assert("OrimaLang Error: expected object variable after 'on'"@.take(17) =~= err_prefix());
    reveal_strlit("OrimaLang Error: expected object variable name after 'of'");
    assert("OrimaLang Error: expected object variable name after 'of'"@.take(17) =~= err_prefix());
    reveal_strlit("OrimaLang Error: expected value expression");
    assert("OrimaLang Error: expected value expression"@.take(17) =~= err_prefix());
    reveal_strlit("OrimaLang Error: expected variable name after 'set'");
    assert("OrimaLang Error: expected variable name after 'set'"@.take(17) =~= err_prefix());
    reveal_strlit("OrimaLang Error: expected variable name in '");
    assert("OrimaLang Error: expected variable name in '"@.take(17) =~= err_prefix());
    reveal_strlit("OrimaLang Error: expected variable name in 'length of'");
    assert("OrimaLang Error: expected variable name in 'length of'"@.take(17) =~= err_prefix());
    reveal_strlit("OrimaLang Error: expected variable name in 'value of'");
    assert("OrimaLang Error: expected variable name in 'value of'"@.take(17) =~= err_prefix());
    reveal_strlit("OrimaLang Error: malformed '");
    assert("OrimaLang Error: malformed '"@.take(17) =~= err_prefix());
    reveal_strlit("OrimaLang Error: malformed 'create list'");
    assert("OrimaLang Error: malformed 'create list'"@.take(17) =~= err_prefix());
    reveal_strlit("OrimaLang Error: malformed 'for each' statement");
    assert("OrimaLang Error: malformed 'for each' statement"@.take(17) =~= err_prefix());
    reveal_strlit("OrimaLang Error: malformed 'set' statement");
    assert("OrimaLang Error: malformed 'set' statement"@.take(17) =~= err_prefix());
    reveal_strlit("OrimaLang Error: missing list name in 'add'");
    assert("OrimaLang Error: missing list name in 'add'"@.take(17) =~= err_prefix());
    reveal_strlit("OrimaLang Error: missing list name in 'remove'");
    assert("OrimaLang Error: missing list name in 'remove'"@.take(17) =~= err_prefix());
    reveal_strlit("OrimaLang Error: unexpected multi-word expression");
    assert("OrimaLang Error: unexpected multi-word expression"@.take(17) =~= err_prefix());
    reveal_strlit("OrimaLang Error: unexpected number at start of statement");
    assert("OrimaLang Error: unexpected number at start of statement"@.take(17) =~= err_prefix());
    reveal_strlit("OrimaLang Error: unexpected token at start of statement");
    assert("OrimaLang Error: unexpected token at start of statement"@.take(17) =~= err_prefix());
    reveal_strlit("OrimaLang Error: unexpected token in expression");
    assert("OrimaLang Error: unexpected token in expression"@.take(17) =~= err_prefix());
    reveal_strlit("OrimaLang Error: unknown statement keyword '");
    assert("OrimaLang Error: unknown statement keyword '"@.take(17) =~= err_prefix());
}

pub(crate) proof fn lemma_prefix_extend(a: Seq<char>, b: Seq<char>)
    requires
        has_prefix(a, err_prefix()),
    ensures
        has_prefix(a + b, err_prefix()),
{
    assert((a + b).take(err_prefix().len() as int) =~= a.take(err_prefix().len() as int));
}

/// The message of `f` begins with `OrimaLang Error: ` and holds ` on line N`
/// for `N` = `l`.
pub open spec fn names_line(f: SFault, l: usize) -> bool {
    match f {
        SFault::Msg(m) => exists|a: Seq<char>, b: Seq<char>|
            has_prefix(a, err_prefix()) && m == a + on_line(l as nat) + b,
    }
}

/// A failure of `r` names the line `l`.
pub open spec fn line_ok<T>(r: PRes<T>, l: usize) -> bool {
    r matches Err(f) ==> names_line(f, l)
}

/// Some token of the clauses `cl` is on line `l`.
pub open spec fn line_in<N>(cl: Seq<Toks<N>>, l: usize) -> bool {
    exists|j: int, k: int| 0 <= j < cl.len() && 0 <= k < cl[j].len() && (#[trigger] cl[j][k]).line == l
}

/// `f` names the line of some token of `cl`.
pub open spec fn fault_in<N>(f: SFault, cl: Seq<Toks<N>>) -> bool {
    exists|l: usize| line_in(cl, l) && names_line(f, l)
}

/// A failure of `r` names the line of some token of `cl`.
pub open spec fn clauses_ok<T, N>(r: PRes<T>, cl: Seq<Toks<N>>) -> bool {
    r matches Err(f) ==> fault_in(f, cl)
}

proof fn lemma_named<N>(f: SFault, cl: Seq<Toks<N>>, l: usize)
    requires
        line_in(cl, l),
        names_line(f, l),
    ensures
        fault_in(f, cl),
{
}

/// `f` names the line of some token of `ts`.
pub open spec fn fault_on<N>(f: SFault, ts: Toks<N>) -> bool {
    exists|l: usize| line_of_some(ts, l) && names_line(f, l)
}

proof fn lemma_named_on<N>(f: SFault, ts: Toks<N>, l: usize)
    requires
        line_of_some(ts, l),
        names_line(f, l),
    ensures
        fault_on(f, ts),
{
}

proof fn lemma_names_line(a: Seq<char>, b: Seq<char>, l: usize)
    requires
        has_prefix(a, err_prefix()),
    ensures
        names_line(SFault::Msg(a + on_line(l as nat) + b), l),
{
    assert(a + on_line(l as nat) + b == a + on_line(l as nat) + b);
}

/// Some token of `ts` is on line `l`.
pub open spec fn line_of_some<N>(ts: Toks<N>, l: usize) -> bool {
    exists|i: int| 0 <= i < ts.len() && (#[trigger] ts[i]).line == l
}

pub(crate) proof fn lemma_fault_at()
    ensures
        forall|m: Seq<char>, l: usize| has_prefix(m, err_prefix()) ==> #[trigger] names_line(fault_at(m, l), l),
{
    lemma_messages();
    assert forall|m: Seq<char>, l: usize| has_prefix(m, err_prefix()) implies #[trigger] names_line(fault_at(m, l), l) by {
        assert(m + on_line(l as nat) =~= m + on_line(l as nat) + Seq::<char>::empty());
    }
}

// ─── Expressions ────────────────────────────────────────────────────────────

proof fn lemma_expr_lines<N>(ts: Toks<N>, line: usize)
    ensures
        line_ok(s_expr(ts, line), line),
    decreases ts.len(), 3nat,
{
    lemma_fault_at();
    lemma_messages();
    let n = ts.len() as int;
    if n > 0 {
        let p = first_word(ts, "or"@, 0);
        lemma_first_word(ts, "or"@, 0);
        if p < n {
            lemma_expr_lines(ts.subrange(0, p), line);
            lemma_expr_lines(ts.subrange(p + 1, n), line);
        }
        let q = and_also_at(ts, 0);
        if 0 <= q && q + 1 < n {
            lemma_expr_lines(ts.subrange(0, q), line);
            lemma_expr_lines(ts.subrange(q + 2, n), line);
        }
        if n >= 6 {
            lemma_expr_lines(ts.subrange(6, n), line);
        }
        lemma_cond_or_value_lines(ts, line);
    }
}

proof fn lemma_cond_or_value_lines<N>(ts: Toks<N>, line: usize)
    ensures
        line_ok(s_cond_or_value(ts, line), line),
    decreases ts.len(), 2nat,
{
    lemma_relation_search(ts, 0);
    match relation_search(ts, 0) {
        Some((i, c, r)) => {
            lemma_value_lines(ts.subrange(0, i), line);
            lemma_value_lines(ts.subrange(r, ts.len() as int), line);
        },
        None => lemma_math_lines(ts, line),
    }
}

proof fn lemma_math_lines<N>(ts: Toks<N>, line: usize)
    ensures
        line_ok(s_math(ts, line), line),
    decreases ts.len(), 1nat,
{
    lemma_math_search(ts, 0);
    match math_search(ts, 0) {
        Some((i, op, r)) => {
            lemma_value_lines(ts.subrange(0, i), line);
            lemma_value_lines(ts.subrange(r, ts.len() as int), line);
        },
        None => lemma_value_lines(ts, line),
    }
}

proof fn lemma_value_lines<N>(ts: Toks<N>, line: usize)
    ensures
        line_ok(s_value(ts, line), line),
    decreases ts.len(), 0nat,
{
    lemma_fault_at();
    lemma_messages();
    let n = ts.len() as int;
    if n > 0 {
        if is_word(ts[0], "item"@) && n >= 3 && first_word(ts, "from"@, 0) < n {
            let fp = first_word(ts, "from"@, 0);
            reveal_strlit("item");
            reveal_strlit("from");
            assert("item"@[0] != "from"@[0]);
            assert(!is_word(ts[0], "from"@));
            assert(fp == first_word(ts, "from"@, 1));
            lemma_first_word(ts, "from"@, 1);
            lemma_expr_lines(ts.subrange(1, fp), line);
        }
        let j = first_word(ts, "joined"@, 0);
        lemma_first_word(ts, "joined"@, 0);
        if j + 1 < n {
            lemma_value_lines(ts.subrange(0, j), line);
            lemma_value_lines(ts.subrange(j + 2, n), line);
        }
        if n >= 3 {
            lemma_value_lines(ts.subrange(0, n - 2), line);
        }
        let tail = "; did you forget quotes?"@;
        let head = "OrimaLang Error: unexpected multi-word expression"@;
        lemma_names_line(head, tail, line);
    }
}

proof fn lemma_values_from_lines<N>(segs: Seq<Toks<N>>, k: int, acc: Seq<SExpr<N>>, line: usize)
    ensures
        line_ok(s_values_from(segs, k, acc, line), line),
    decreases segs.len() - k,
{
    if 0 <= k < segs.len() {
        if segs[k].len() == 0 {
            lemma_values_from_lines(segs, k + 1, acc, line);
        } else {
            lemma_value_lines(segs[k], line);
            match s_value(segs[k], line) {
                Ok(e) => lemma_values_from_lines(segs, k + 1, acc.push(e), line),
                Err(_) => {},
            }
        }
    }
}

proof fn lemma_and_values_lines<N>(ts: Toks<N>, line: usize)
    ensures
        line_ok(s_and_values(ts, line), line),
{
    lemma_values_from_lines(split_on_and(ts), 0, Seq::empty(), line);
}

// ─── Statements of one clause ───────────────────────────────────────────────

proof fn lemma_args_lines<N>(c: Toks<N>, wp: int, sp: int, line: usize)
    ensures
        line_ok(s_args(c, wp, sp, line), line),
{
    lemma_fault_at();
    lemma_messages();
    lemma_and_values_lines(c.subrange(wp + 1, crate::grammar::args_end(c, sp)), line);
}

proof fn lemma_clause_lines<N>(c: Toks<N>, line: usize)
    ensures
        line_ok(s_say(c, line), line),
        line_ok(s_set(c, line), line),
        line_ok(s_set_var(c, line), line),
        line_ok(s_create_list(c, line), line),
        line_ok(s_create_object(c, line), line),
        line_ok(s_add(c, line), line),
        line_ok(s_remove(c, line), line),
        line_ok(s_run(c, line), line),
        line_ok(s_run_method(c, line), line),
        line_ok(s_give_back(c, line), line),
        line_ok(s_ask(c, line), line),
        forall|kind: Seq<char>| #[trigger] line_ok(s_arith(kind, c, line), line),
{
    lemma_fault_at();
    lemma_messages();
    assert forall|kind: Seq<char>| #[trigger] line_ok(s_arith(kind, c, line), line) by {
        let m1 = "OrimaLang Error: malformed '"@;
        let m2 = "OrimaLang Error: expected variable name in '"@;
        let m3 = "OrimaLang Error: expected 'by' in '"@;
        lemma_prefix_extend(m1, kind);
        lemma_prefix_extend(m1 + kind, "' statement"@);
        lemma_prefix_extend(m2, kind);
        lemma_prefix_extend(m2 + kind, "'"@);
        lemma_prefix_extend(m3, kind);
        lemma_prefix_extend(m3 + kind, "' statement"@);
        lemma_expr_lines(rest(c, 3), line);
    }
    let n = c.len() as int;
    lemma_and_values_lines(rest(c, 1), line);
    lemma_expr_lines(rest(c, crate::grammar::last_word(c, "to"@, n) + 1), line);
    lemma_expr_lines(rest(c, 3), line);
    lemma_expr_lines(rest(c, 2), line);
    let wp = first_word(c, "with"@, 0);
    let sp = first_word(c, "store"@, 0);
    lemma_args_lines(c, wp, sp, line);
    let op = first_word(c, "on"@, 0);
    lemma_args_lines(c, first_word(c, "with"@, op + 2), first_word(c, "store"@, op + 2), line);
    lemma_value_lines(c.subrange(1, crate::grammar::last_word(c, "to"@, n)), line);
    let fp = first_word(c, "from"@, 0);
    lemma_expr_lines(c.subrange(2, fp), line);
    lemma_value_lines(c.subrange(1, fp), line);
}

// ─── Statements over clauses ────────────────────────────────────────────────

proof fn lemma_clauses_lines<N>(cl: Seq<Toks<N>>, i: int, acc: Seq<SStmt<N>>)
    requires
        0 <= i <= cl.len(),
    ensures
        clauses_ok(s_clauses(cl, i, acc), cl),
    decreases weight(cl, i), 5nat,
{
    if i < cl.len() && !(is_end_marker(cl[i]) || starts_kw(cl[i], "otherwise"@)) {
        lemma_one_lines(cl, i);
        crate::laws::lemma_one_progress(cl, i);
        match s_one(cl, i) {
            Ok((st, next)) => {
                lemma_weight(cl, i, next);
                lemma_clauses_lines(cl, next, acc.push(st));
            },
            Err(_) => {},
        }
    }
}

proof fn lemma_body_lines<N>(cl: Seq<Toks<N>>, idx: int)
    requires
        0 <= idx < cl.len(),
    ensures
        clauses_ok(s_body(cl, idx), cl),
    decreases weight(cl, idx), 1nat,
{
    lemma_weight(cl, idx, idx + 1);
    lemma_clauses_lines(cl, idx + 1, Seq::empty());
}

proof fn lemma_one_tokens_lines<N>(ts: Toks<N>, line: usize)
    ensures
        s_one_tokens(ts, line) matches Err(f) ==> fault_on(f, ts),
    decreases ts.len() + 2, 0nat,
{
    assert(weight(seq![ts], 1) == 0);
    lemma_clauses_lines(seq![ts], 0, Seq::empty());
    match s_clauses(seq![ts], 0, Seq::empty()) {
        Err(f) => {
            let l = choose|l: usize| line_in(seq![ts], l) && names_line(f, l);
            let (j, k) = choose|j: int, k: int|
                0 <= j < seq![ts].len() && 0 <= k < seq![ts][j].len() && (#[trigger] seq![ts][j][k]).line
                    == l;
            assert(seq![ts][j] == ts);
            assert(ts[k].line == l);
            assert(line_of_some(ts, l));
            lemma_named_on(f, ts, l);
        },
        Ok(_) => {},
    }
}

proof fn lemma_if_lines<N>(cl: Seq<Toks<N>>, idx: int, line: usize)
    requires
        0 <= idx < cl.len(),
        line_in(cl, line),
    ensures
        clauses_ok(s_if(cl, idx, line), cl),
    decreases weight(cl, idx), 3nat,
{
    lemma_expr_lines(rest(cl[idx], 1), line);
    lemma_weight(cl, idx, idx + 1);
    lemma_clauses_lines(cl, idx + 1, Seq::empty());
    lemma_clauses_progress(cl, idx + 1, Seq::empty());
    match s_clauses(cl, idx + 1, Seq::empty()) {
        Ok((_, next)) => {
            if idx + 1 <= next < cl.len() && starts_kw(cl[next], "otherwise"@) {
                let after = rest(cl[next], 1);
                lemma_weight(cl, idx, next);
                lemma_weight(cl, next, next + 1);
                lemma_one_tokens_lines(after, line);
                match s_one_tokens(after, line) {
                    Err(f) => {
                        let l = choose|l: usize| line_of_some(after, l) && names_line(f, l);
                        let k = choose|k: int| 0 <= k < after.len() && (#[trigger] after[k]).line == l;
                        assert(cl[next][k + 1] == after[k]);
                        assert(line_in(cl, l));
                        lemma_named(f, cl, l);
                    },
                    Ok(_) => {},
                }
                lemma_weight(cl, idx, next + 1);
                lemma_clauses_lines(cl, next + 1, Seq::empty());
            }
        },
        Err(_) => {},
    }
    match s_if(cl, idx, line) {
        Err(f) => if names_line(f, line) {
            lemma_named(f, cl, line);
        },
        Ok(_) => {},
    }
}

proof fn lemma_loop_lines<N>(cl: Seq<Toks<N>>, idx: int, line: usize)
    requires
        0 <= idx < cl.len(),
        line_in(cl, line),
    ensures
        clauses_ok(s_repeat(cl, idx, line), cl),
        clauses_ok(s_while(cl, idx, line), cl),
        clauses_ok(s_for_each(cl, idx, line), cl),
    decreases weight(cl, idx), 3nat,
{
    lemma_fault_at();
    lemma_messages();
    let c = cl[idx];
    let tp = first_word(c, "times"@, 0);
    lemma_expr_lines(c.subrange(1, tp), line);
    lemma_expr_lines(rest(c, 1), line);
    lemma_body_lines(cl, idx);
    match s_repeat(cl, idx, line) {
        Err(f) => if names_line(f, line) {
            lemma_named(f, cl, line);
        },
        Ok(_) => {},
    }
    match s_while(cl, idx, line) {
        Err(f) => if names_line(f, line) {
            lemma_named(f, cl, line);
        },
        Ok(_) => {},
    }
    match s_for_each(cl, idx, line) {
        Err(f) => if names_line(f, line) {
            lemma_named(f, cl, line);
        },
        Ok(_) => {},
    }
}

proof fn lemma_define_lines<N>(cl: Seq<Toks<N>>, idx: int, line: usize)
    requires
        0 <= idx < cl.len(),
        line_in(cl, line),
    ensures
        clauses_ok(s_define(cl, idx, line), cl),
    decreases weight(cl, idx), 2nat,
{
    lemma_fault_at();
    lemma_messages();
    lemma_body_lines(cl, idx);
    match s_define(cl, idx, line) {
        Err(f) => if names_line(f, line) {
            lemma_named(f, cl, line);
        },
        Ok(_) => {},
    }
}

proof fn lemma_define_class_lines<N>(cl: Seq<Toks<N>>, idx: int, line: usize)
    requires
        0 <= idx < cl.len(),
        line_in(cl, line),
    ensures
        clauses_ok(s_define_class(cl, idx, line), cl),
    decreases weight(cl, idx), 3nat,
{
    lemma_fault_at();
    lemma_messages();
    lemma_weight(cl, idx, idx + 1);
    lemma_class_body_lines(cl, idx + 1, Seq::empty());
    match s_define_class(cl, idx, line) {
        Err(f) => if names_line(f, line) {
            lemma_named(f, cl, line);
        },
        Ok(_) => {},
    }
}

proof fn lemma_class_body_lines<N>(cl: Seq<Toks<N>>, i: int, ms: Seq<SMethod<N>>)
    requires
        0 <= i <= cl.len(),
    ensures
        clauses_ok(s_class_body(cl, i, ms), cl),
    decreases weight(cl, i), 3nat,
{
    if i < cl.len() && !is_end_marker(cl[i]) {
        if starts_kw(cl[i], "define"@) {
            let line = line_of(cl[i]);
            assert(cl[i][0].line == line);
            assert(line_in(cl, line));
            lemma_define_lines(cl, i, line);
            lemma_define_progress(cl, i, line);
            match s_define(cl, i, line) {
                Ok((st, next)) => {
                    lemma_weight(cl, i, next);
                    lemma_class_body_lines(
                        cl,
                        next,
                        match st {
                            SStmt::Define(name, ps, b) => ms.push((name, ps, b)),
                            _ => ms,
                        },
                    );
                },
                Err(_) => {},
            }
        } else {
            lemma_weight(cl, i, i + 1);
            lemma_class_body_lines(cl, i + 1, ms);
        }
    }
}

proof fn lemma_one_lines<N>(cl: Seq<Toks<N>>, idx: int)
    requires
        0 <= idx < cl.len(),
    ensures
        clauses_ok(s_one(cl, idx), cl),
    decreases weight(cl, idx), 4nat,
{
    let c = cl[idx];
    let line = line_of(c);
    if c.len() > 0 {
        assert(cl[idx][0].line == line);
        assert(line_in(cl, line));
        lemma_fault_at();
        lemma_messages();
    lemma_messages();
        lemma_clause_lines(c, line);
        lemma_if_lines(cl, idx, line);
        lemma_loop_lines(cl, idx, line);
        lemma_define_lines(cl, idx, line);
        lemma_define_class_lines(cl, idx, line);
        match c[0].token {
            SToken::Word(w) => {
                let m = "OrimaLang Error: unknown statement keyword '"@ + w + "'"@;
                lemma_prefix_extend("OrimaLang Error: unknown statement keyword '"@, w);
                lemma_prefix_extend("OrimaLang Error: unknown statement keyword '"@ + w, "'"@);
                lemma_names_line(m, Seq::empty(), line);
                assert(m + on_line(line as nat) =~= m + on_line(line as nat) + Seq::<char>::empty());
                assert(line_ok(s_arith(w, c, line), line));
            },
            _ => {},
        }
        match s_one(cl, idx) {
            Err(f) => if names_line(f, line) {
                lemma_named(f, cl, line);
            },
            Ok(_) => {},
        }
    }
}

// ─── Statements and programs ────────────────────────────────────────────────

/// `t` is one of the tokens of `ts`.
pub open spec fn tok_in<N>(t: SSpanned<N>, ts: Toks<N>) -> bool {
    exists|x: int| 0 <= x < ts.len() && ts[x] == t
}

/// Every token of every piece is a token of `ts`.
pub open spec fn pieces_of<N>(cl: Seq<Toks<N>>, ts: Toks<N>) -> bool {
    forall|j: int, k: int| 0 <= j < cl.len() && 0 <= k < cl[j].len() ==> tok_in(#[trigger] cl[j][k], ts)
}

proof fn lemma_split_lines<N>(ts: Toks<N>, by_comma: bool, i: int, cur: Toks<N>, acc: Seq<Toks<N>>)
    requires
        0 <= i,
        pieces_of(acc, ts),
        forall|k: int| 0 <= k < cur.len() ==> tok_in(#[trigger] cur[k], ts),
    ensures
        pieces_of(split_from(ts, by_comma, i, cur, acc), ts),
    decreases ts.len() - i,
{
    let a2 = acc.push(cur);
    assert forall|j: int, k: int| 0 <= j < a2.len() && 0 <= k < a2[j].len() implies tok_in(#[trigger] a2[j][k], ts) by {
        if j < acc.len() {
            assert(a2[j] == acc[j]);
        } else {
            assert(a2[j] == cur);
        }
    }
    if 0 <= i < ts.len() {
        if crate::grammar::is_sep(ts[i], by_comma) {
            lemma_split_lines(ts, by_comma, i + 1, Seq::empty(), a2);
        } else {
            let c2 = cur.push(ts[i]);
            assert forall|k: int| 0 <= k < c2.len() implies tok_in(#[trigger] c2[k], ts) by {
                if k < cur.len() {
                    assert(c2[k] == cur[k]);
                } else {
                    assert(c2[k] == ts[i]);
                }
            }
            lemma_split_lines(ts, by_comma, i + 1, c2, acc);
        }
    }
}

proof fn lemma_statement_lines<N>(st: Toks<N>)
    ensures
        s_statement(st) matches Err(f) ==> fault_on(f, st),
{
    let cl = split_clauses(st);
    lemma_split_lines(st, true, 0, Seq::empty(), Seq::empty());
    if cl.len() > 0 {
        lemma_clauses_lines(cl, 0, Seq::empty());
        match s_clauses(cl, 0, Seq::empty()) {
            Err(f) => {
                let l = choose|l: usize| line_in(cl, l) && names_line(f, l);
                let (j, k) = choose|j: int, k: int| 0 <= j < cl.len() && 0 <= k < cl[j].len() && (#[trigger] cl[j][k]).line == l;
                assert(tok_in(cl[j][k], st));
                let x = choose|x: int| 0 <= x < st.len() && st[x] == cl[j][k];
                assert(st[x].line == l);
                assert(line_of_some(st, l));
                lemma_named_on(f, st, l);
            },
            Ok(_) => {},
        }
    }
}

pub(crate) proof fn lemma_program_lines<N>(ts: Toks<N>, pos: int, acc: Seq<SStmt<N>>)
    requires
        0 <= pos,
    ensures
        s_program_from(ts, pos, acc).0 matches Err(f) ==> fault_on(f, ts),
    decreases ts.len() - pos,
{
    if pos < ts.len() && !(ts[pos].token is Eof) {
        let end = stmt_end(ts, pos);
        lemma_stmt_end(ts, pos);
        let next = if end < ts.len() && ts[end].token is Period {
            end + 1
        } else {
            end
        };
        if end == pos {
            lemma_program_lines(ts, next, acc);
        } else {
            let st = ts.subrange(pos, end);
            lemma_statement_lines(st);
            match s_statement(st) {
                Ok(ss) => lemma_program_lines(ts, next, acc + ss),
                Err(f) => {
                    let l = choose|l: usize| line_of_some(st, l) && names_line(f, l);
                    let i = choose|i: int| 0 <= i < st.len() && (#[trigger] st[i]).line == l;
                    assert(ts[pos + i] == st[i]);
                    assert(line_of_some(ts, l));
                    lemma_named_on(f, ts, l);
                },
            }
        }
    }
}

} // verus!
