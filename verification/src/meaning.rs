//! What the language's phrases mean: the truth tables of the logical
//! operators, the numeric comparisons, how a call hands its arguments to its
//! parameters, how `stop the loop` and `skip to next` steer the loops, and
//! what the value phrases read.
use vstd::prelude::*;

use crate::evaluator::{frame_holding, s_get, s_push, s_set, s_set_local, SEnv, SSignal};
use crate::assoc::lookup;
use crate::grammar::{and_also_at, math_at, relation_at, s_expr as s_expr_parse, s_value, SFault};
use crate::host::{q_arith, q_count, q_is_zero, q_relation, q_to_index, NumRel};
use crate::laws::{law_get_after_set, law_get_after_set_local, law_lookup_insert, lemma_frame_holding, lemma_frame_holding_is};
use crate::lexer::{SSpanned, SToken};
use crate::parser::{Comparison, LogicOp, Op, SExpr, SStmt, SValue};
use crate::semantics::{
    num_val, s_binary, s_bind, s_block, s_call, s_compare, s_expr, s_foreach, s_item, s_repeat, s_say_parts, s_stmt,
    s_str, s_truthy, s_while, Oracle,
};
use crate::text::{join, lowercase, matches_at, uppercase};

verus! {

// ─── Logical operators ──────────────────────────────────────────────────────

/// `a and also b` is true exactly when both sides are truthy; a falsy left
/// side makes it false whatever the right side is (the right side is not
/// evaluated, so its errors do not matter); an error on the left is the result.
pub proof fn law_and_also<N>(o: Oracle<N>, a: SExpr<N>, b: SExpr<N>, env: SEnv<N>)
    ensures
        forall|lv: SValue<N>, rv: SValue<N>|
            s_expr(o, a, env) == Ok::<SValue<N>, Seq<char>>(lv) && s_expr(o, b, env) == Ok::<SValue<N>, Seq<char>>(rv)
                ==> #[trigger] s_expr(o, SExpr::LogicalOp(Box::new(a), LogicOp::And, Box::new(b)), env)
                == Ok::<SValue<N>, Seq<char>>(SValue::Bool(s_truthy(o, lv) && s_truthy(o, rv))),
        forall|lv: SValue<N>|
            s_expr(o, a, env) == Ok::<SValue<N>, Seq<char>>(lv) && !s_truthy(o, lv) ==> s_expr(
                o,
                SExpr::LogicalOp(Box::new(a), LogicOp::And, Box::new(b)),
                env,
            ) == Ok::<SValue<N>, Seq<char>>(SValue::Bool(false)),
        forall|e: Seq<char>|
            s_expr(o, a, env) == Err::<SValue<N>, Seq<char>>(e) ==> s_expr(
                o,
                SExpr::LogicalOp(Box::new(a), LogicOp::And, Box::new(b)),
                env,
            ) == Err::<SValue<N>, Seq<char>>(e),
        forall|lv: SValue<N>, e: Seq<char>|
            s_expr(o, a, env) == Ok::<SValue<N>, Seq<char>>(lv) && s_truthy(o, lv) && s_expr(o, b, env) == Err::<
                SValue<N>,
                Seq<char>,
            >(e) ==> s_expr(o, SExpr::LogicalOp(Box::new(a), LogicOp::And, Box::new(b)), env) == Err::<
                SValue<N>,
                Seq<char>,
            >(e),
{
}

/// `a or b` is true exactly when either side is truthy; a truthy left side
/// makes it true whatever the right side is; an error on the left is the
/// result.
pub proof fn law_or<N>(o: Oracle<N>, a: SExpr<N>, b: SExpr<N>, env: SEnv<N>)
    ensures
        forall|lv: SValue<N>, rv: SValue<N>|
            s_expr(o, a, env) == Ok::<SValue<N>, Seq<char>>(lv) && s_expr(o, b, env) == Ok::<SValue<N>, Seq<char>>(rv)
                ==> #[trigger] s_expr(o, SExpr::LogicalOp(Box::new(a), LogicOp::Or, Box::new(b)), env)
                == Ok::<SValue<N>, Seq<char>>(SValue::Bool(s_truthy(o, lv) || s_truthy(o, rv))),
        forall|lv: SValue<N>|
            s_expr(o, a, env) == Ok::<SValue<N>, Seq<char>>(lv) && s_truthy(o, lv) ==> s_expr(
                o,
                SExpr::LogicalOp(Box::new(a), LogicOp::Or, Box::new(b)),
                env,
            ) == Ok::<SValue<N>, Seq<char>>(SValue::Bool(true)),
        forall|e: Seq<char>|
            s_expr(o, a, env) == Err::<SValue<N>, Seq<char>>(e) ==> s_expr(
                o,
                SExpr::LogicalOp(Box::new(a), LogicOp::Or, Box::new(b)),
                env,
            ) == Err::<SValue<N>, Seq<char>>(e),
        forall|lv: SValue<N>, e: Seq<char>|
            s_expr(o, a, env) == Ok::<SValue<N>, Seq<char>>(lv) && !s_truthy(o, lv) && s_expr(o, b, env) == Err::<
                SValue<N>,
                Seq<char>,
            >(e) ==> s_expr(o, SExpr::LogicalOp(Box::new(a), LogicOp::Or, Box::new(b)), env) == Err::<
                SValue<N>,
                Seq<char>,
            >(e),
{
}

/// `it is not the case that a` is true exactly when `a` is falsy.
pub proof fn law_not<N>(o: Oracle<N>, a: SExpr<N>, env: SEnv<N>)
    ensures
        forall|v: SValue<N>|
            s_expr(o, a, env) == Ok::<SValue<N>, Seq<char>>(v) ==> s_expr(o, SExpr::Not(Box::new(a)), env) == Ok::<
                SValue<N>,
                Seq<char>,
            >(SValue::Bool(!s_truthy(o, v))),
        forall|e: Seq<char>|
            s_expr(o, a, env) == Err::<SValue<N>, Seq<char>>(e) ==> s_expr(o, SExpr::Not(Box::new(a)), env) == Err::<
                SValue<N>,
                Seq<char>,
            >(e),
{
}

/// `nothing` and `false` are falsy, `true` is truthy, text is truthy exactly
/// when it is not empty, and a list exactly when it holds an item.
pub proof fn law_truthiness<N>(o: Oracle<N>, s: Seq<char>, l: Seq<SValue<N>>)
    ensures
        !s_truthy(o, SValue::<N>::Nil),
        !s_truthy(o, SValue::<N>::Bool(false)),
        s_truthy(o, SValue::<N>::Bool(true)),
        s_truthy(o, SValue::<N>::Str(s)) == (s.len() > 0),
        s_truthy(o, SValue::List(l)) == (l.len() > 0),
{
}

// ─── Comparisons of numbers ─────────────────────────────────────────────────

/// Between two numbers, `is greater than`, `is less than`, `is at least` and
/// `is at most` are the host's `>`, `<`, `>=` and `<=`, and `is` and `is not`
/// are its `==` and the negation of it.
pub proof fn law_number_comparisons<N>(o: Oracle<N>, a: N, b: N)
    ensures
        s_compare(o, SValue::Num(a), Comparison::GreaterThan, SValue::Num(b)) == Ok::<bool, Seq<char>>(
            q_relation(o, NumRel::Gt, a, b),
        ),
        s_compare(o, SValue::Num(a), Comparison::LessThan, SValue::Num(b)) == Ok::<bool, Seq<char>>(
            q_relation(o, NumRel::Lt, a, b),
        ),
        s_compare(o, SValue::Num(a), Comparison::AtLeast, SValue::Num(b)) == Ok::<bool, Seq<char>>(
            q_relation(o, NumRel::Ge, a, b),
        ),
        s_compare(o, SValue::Num(a), Comparison::AtMost, SValue::Num(b)) == Ok::<bool, Seq<char>>(
            q_relation(o, NumRel::Le, a, b),
        ),
        s_compare(o, SValue::Num(a), Comparison::Is, SValue::Num(b)) == Ok::<bool, Seq<char>>(
            q_relation(o, NumRel::Eq, a, b),
        ),
        s_compare(o, SValue::Num(a), Comparison::IsNot, SValue::Num(b)) == Ok::<bool, Seq<char>>(
            !q_relation(o, NumRel::Eq, a, b),
        ),
{
}

/// Where the host's numbers are ordered (`>=` is the negation of `<`, and
/// `<=` that of `>`), `a is at least b` is the negation of `a is less than
/// b`, and `a is at most b` that of `a is greater than b`; where `>=` is
/// reflexive, every number is at least itself.
pub proof fn law_at_least_is_not_less<N>(o: Oracle<N>, a: N, b: N)
    ensures
        q_relation(o, NumRel::Ge, a, b) == !q_relation(o, NumRel::Lt, a, b) ==> s_compare(
            o,
            SValue::Num(a),
            Comparison::AtLeast,
            SValue::Num(b),
        ) == Ok::<bool, Seq<char>>(
            !s_compare(o, SValue::Num(a), Comparison::LessThan, SValue::Num(b))->Ok_0,
        ),
        q_relation(o, NumRel::Le, a, b) == !q_relation(o, NumRel::Gt, a, b) ==> s_compare(
            o,
            SValue::Num(a),
            Comparison::AtMost,
            SValue::Num(b),
        ) == Ok::<bool, Seq<char>>(
            !s_compare(o, SValue::Num(a), Comparison::GreaterThan, SValue::Num(b))->Ok_0,
        ),
        q_relation(o, NumRel::Ge, a, a) ==> s_compare(o, SValue::Num(a), Comparison::AtLeast, SValue::Num(a))
            == Ok::<bool, Seq<char>>(true),
{
}

/// A comparison in a condition gives a boolean: the comparison of the two
/// sides' values.
pub proof fn law_condition_compares<N>(o: Oracle<N>, a: SExpr<N>, c: Comparison, b: SExpr<N>, env: SEnv<N>)
    ensures
        forall|lv: SValue<N>, rv: SValue<N>|
            s_expr(o, a, env) == Ok::<SValue<N>, Seq<char>>(lv) && s_expr(o, b, env) == Ok::<SValue<N>, Seq<char>>(rv)
                && (#[trigger] s_compare(o, lv, c, rv)) is Ok ==> s_expr(
                o,
                SExpr::Condition(Box::new(a), c, Box::new(b)),
                env,
            ) == Ok::<SValue<N>, Seq<char>>(SValue::Bool(s_compare(o, lv, c, rv)->Ok_0)),
{
}

// ─── Arguments ──────────────────────────────────────────────────────────────

/// No name occurs twice.
pub open spec fn distinct(ps: Seq<Seq<char>>) -> bool {
    forall|j: int, k: int| 0 <= j < k < ps.len() ==> ps[j] != ps[k]
}

/// The argument at position `i`, or `nothing` when there are fewer arguments.
pub open spec fn argument<N>(argv: Seq<SValue<N>>, i: int) -> SValue<N> {
    if i < argv.len() {
        argv[i]
    } else {
        SValue::Nil
    }
}

/// Binding in the innermost scope leaves every other name reading as before.
proof fn lemma_set_local_keeps_others<N>(env: SEnv<N>, k: Seq<char>, v: SValue<N>, k2: Seq<char>)
    requires
        env.frames.len() >= 1,
        k2 != k,
    ensures
        s_get(s_set_local(env, k, v), k2) == s_get(env, k2),
{
    let fs = env.frames;
    let fs2 = s_set_local(env, k, v).frames;
    lemma_frame_holding(fs, k2);
    law_lookup_insert(fs.last(), k, v, k2);
    assert forall|j: int| 0 <= j < fs.len() implies lookup(#[trigger] fs2[j], k2) == lookup(fs[j], k2) by {
        if j == fs.len() - 1 {
            assert(fs2[j] == crate::assoc::insert(fs.last(), k, v));
        }
    }
    lemma_frame_holding_is(fs2, k2, frame_holding(fs, k2));
}

/// Binding parameters from `j` on leaves a name none of them has as it was.
proof fn lemma_bind_keeps<N>(env: SEnv<N>, params: Seq<Seq<char>>, argv: Seq<SValue<N>>, j: int, k: Seq<char>)
    requires
        env.frames.len() >= 1,
        0 <= j,
        forall|m: int| j <= m < params.len() ==> params[m] != k,
    ensures
        s_get(s_bind(env, params, argv, j), k) == s_get(env, k),
    decreases params.len() - j,
{
    if j < params.len() {
        let e1 = s_set_local(env, params[j], crate::semantics::arg_at(argv, j));
        lemma_set_local_keeps_others(env, params[j], crate::semantics::arg_at(argv, j), k);
        lemma_bind_keeps(e1, params, argv, j + 1, k);
    }
}

proof fn lemma_bind_reads<N>(env: SEnv<N>, params: Seq<Seq<char>>, argv: Seq<SValue<N>>, j: int, i: int)
    requires
        env.frames.len() >= 1,
        0 <= j <= i < params.len(),
        distinct(params),
    ensures
        s_get(s_bind(env, params, argv, j), params[i]) == Some(argument(argv, i)),
    decreases i - j,
{
    let e1 = s_set_local(env, params[j], crate::semantics::arg_at(argv, j));
    if j == i {
        law_get_after_set_local(env, params[i], crate::semantics::arg_at(argv, i));
        lemma_bind_keeps(e1, params, argv, i + 1, params[i]);
    } else {
        lemma_bind_reads(e1, params, argv, j + 1, i);
    }
}

/// Parameters are bound by position: after binding, the `i`-th parameter
/// holds the `i`-th argument, or `nothing` when there are fewer arguments.
pub proof fn law_parameters_take_arguments_in_order<N>(
    env: SEnv<N>,
    params: Seq<Seq<char>>,
    argv: Seq<SValue<N>>,
    i: int,
)
    requires
        env.frames.len() >= 1,
        0 <= i < params.len(),
        distinct(params),
    ensures
        s_get(s_bind(env, params, argv, 0), params[i]) == Some(argument(argv, i)),
{
    lemma_bind_reads(env, params, argv, 0, i);
}

/// A function whose body gives back its `i`-th parameter returns the `i`-th
/// argument of the call (`nothing` when there are fewer arguments).
pub proof fn law_call_passes_arguments<N>(
    o: Oracle<N>,
    fuel: nat,
    name: Seq<char>,
    params: Seq<Seq<char>>,
    argv: Seq<SValue<N>>,
    env: SEnv<N>,
    i: int,
)
    requires
        fuel >= 1,
        0 <= i < params.len(),
        distinct(params),
        lookup(env.functions, name) == Some(
            (params, seq![SStmt::GiveBack(SExpr::<N>::Variable(params[i]))]),
        ),
    ensures
        s_call(o, fuel, name, argv, env).0 == Ok::<SValue<N>, Seq<char>>(argument(argv, i)),
{
    let e1 = s_bind(s_push(env), params, argv, 0);
    law_parameters_take_arguments_in_order(s_push(env), params, argv, i);
    let body = seq![SStmt::GiveBack(SExpr::Variable(params[i]))];
    assert(s_stmt(o, fuel, body[0], e1).0 == Ok::<SSignal<N>, Seq<char>>(SSignal::Return(argument(argv, i))));
}

// ─── Loops ──────────────────────────────────────────────────────────────────

/// `stop the loop` and `skip to next` signal the loop around them.
pub proof fn law_loop_control_signals<N>(o: Oracle<N>, fuel: nat, env: SEnv<N>)
    requires
        fuel >= 1,
    ensures
        s_stmt(o, fuel, SStmt::StopLoop, env) == (Ok::<SSignal<N>, Seq<char>>(SSignal::Break), env),
        s_stmt(o, fuel, SStmt::SkipToNext, env) == (Ok::<SSignal<N>, Seq<char>>(SSignal::Continue), env),
{
}

/// A `repeat` runs its body round by round: a round that ends with `stop the
/// loop` ends the repeat at once, with the environment that round left; a
/// round that ends normally or with `skip to next` is followed by the
/// remaining rounds; a `give back` or an error ends it with that outcome; no
/// rounds left means nothing runs.
pub proof fn law_repeat_rounds<N>(o: Oracle<N>, fuel: nat, body: Seq<SStmt<N>>, remaining: nat, env: SEnv<N>)
    ensures
        remaining == 0 ==> s_repeat(o, fuel, body, remaining, env) == (Ok::<SSignal<N>, Seq<char>>(SSignal::Normal), env),
        remaining > 0 && fuel > 0 ==> ({
            let (r, env1) = s_block(o, (fuel - 1) as nat, body, 0, env);
            &&& (r == Ok::<SSignal<N>, Seq<char>>(SSignal::Break) ==> s_repeat(o, fuel, body, remaining, env) == (
                Ok::<SSignal<N>, Seq<char>>(SSignal::Normal),
                env1,
            ))
            &&& (r == Ok::<SSignal<N>, Seq<char>>(SSignal::Normal) || r == Ok::<SSignal<N>, Seq<char>>(
                SSignal::Continue,
            ) ==> s_repeat(o, fuel, body, remaining, env) == s_repeat(
                o,
                (fuel - 1) as nat,
                body,
                (remaining - 1) as nat,
                env1,
            ))
            &&& (r matches Ok(SSignal::Return(v)) ==> s_repeat(o, fuel, body, remaining, env) == (
                Ok::<SSignal<N>, Seq<char>>(SSignal::Return(v)),
                env1,
            ))
            &&& (r matches Err(e) ==> s_repeat(o, fuel, body, remaining, env) == (
                Err::<SSignal<N>, Seq<char>>(e),
                env1,
            ))
        }),
{
}

/// A body that stops the loop at once makes a repeat of any number of rounds
/// run it once: the repeat ends normally and nothing changes.
pub proof fn law_stop_ends_repeat_at_once<N>(o: Oracle<N>, fuel: nat, remaining: nat, env: SEnv<N>)
    requires
        fuel >= 2,
        remaining >= 1,
    ensures
        s_repeat(o, fuel, seq![SStmt::StopLoop], remaining, env) == (
            Ok::<SSignal<N>, Seq<char>>(SSignal::Normal),
            env,
        ),
{
    let body = seq![SStmt::<N>::StopLoop];
    assert(s_stmt(o, (fuel - 1) as nat, body[0], env) == (Ok::<SSignal<N>, Seq<char>>(SSignal::Break), env));
    assert(s_block(o, (fuel - 1) as nat, body, 0, env) == (Ok::<SSignal<N>, Seq<char>>(SSignal::Break), env));
}

/// A `while` whose condition holds runs a round: `stop the loop` ends it at
/// once with the environment the round left; a round that ends normally or
/// with `skip to next` is followed by the loop again; a false condition ends
/// it without running anything.
pub proof fn law_while_rounds<N>(o: Oracle<N>, fuel: nat, c: SExpr<N>, body: Seq<SStmt<N>>, env: SEnv<N>)
    requires
        fuel > 0,
    ensures
        s_expr(o, c, env) matches Ok(cv) && !s_truthy(o, cv) ==> s_while(o, fuel, c, body, env) == (
            Ok::<SSignal<N>, Seq<char>>(SSignal::Normal),
            env,
        ),
        s_expr(o, c, env) matches Ok(cv) && s_truthy(o, cv) ==> ({
            let (r, env1) = s_block(o, (fuel - 1) as nat, body, 0, env);
            &&& (r == Ok::<SSignal<N>, Seq<char>>(SSignal::Break) ==> s_while(o, fuel, c, body, env) == (
                Ok::<SSignal<N>, Seq<char>>(SSignal::Normal),
                env1,
            ))
            &&& (r == Ok::<SSignal<N>, Seq<char>>(SSignal::Normal) || r == Ok::<SSignal<N>, Seq<char>>(
                SSignal::Continue,
            ) ==> s_while(o, fuel, c, body, env) == s_while(o, (fuel - 1) as nat, c, body, env1))
        }),
{
}

/// `for each` binds the item to each element in turn: `stop the loop` ends it
/// at once with the environment the round left; a round that ends normally
/// or with `skip to next` is followed by the next element; past the last
/// element nothing runs.
pub proof fn law_for_each_rounds<N>(
    o: Oracle<N>,
    fuel: nat,
    item: Seq<char>,
    items: Seq<SValue<N>>,
    i: int,
    body: Seq<SStmt<N>>,
    env: SEnv<N>,
)
    ensures
        i >= items.len() ==> s_foreach(o, fuel, item, items, i, body, env) == (
            Ok::<SSignal<N>, Seq<char>>(SSignal::Normal),
            env,
        ),
        0 <= i < items.len() && fuel > 0 ==> ({
            let (r, env1) = s_block(o, (fuel - 1) as nat, body, 0, crate::evaluator::s_set(env, item, items[i]));
            &&& (r == Ok::<SSignal<N>, Seq<char>>(SSignal::Break) ==> s_foreach(o, fuel, item, items, i, body, env)
                == (Ok::<SSignal<N>, Seq<char>>(SSignal::Normal), env1))
            &&& (r == Ok::<SSignal<N>, Seq<char>>(SSignal::Normal) || r == Ok::<SSignal<N>, Seq<char>>(
                SSignal::Continue,
            ) ==> s_foreach(o, fuel, item, items, i, body, env) == s_foreach(
                o,
                (fuel - 1) as nat,
                item,
                items,
                i + 1,
                body,
                env1,
            ))
        }),
{
}

// ─── Value phrases ──────────────────────────────────────────────────────────

pub open spec fn word_tok<N>(w: Seq<char>, line: usize) -> SSpanned<N> {
    SSpanned { token: SToken::Word(w), line }
}

/// A word that is no literal (`true`, `false`, `nil`, `nothing`).
pub open spec fn plain_name(w: Seq<char>) -> bool {
    w != "true"@ && w != "false"@ && w != "nil"@ && w != "nothing"@
}

/// `the value of <name>` reads the variable `<name>`: it is read as the bare
/// name is, never as a text; `the size of <name>` and `the length of <name>`
/// read the size of the list and the length of the text the name holds.
pub proof fn law_value_phrases<N>(w: Seq<char>, l: usize, line: usize)
    ensures
        s_value(
            seq![word_tok::<N>("the"@, l), word_tok("value"@, l), word_tok("of"@, l), word_tok(w, l)],
            line,
        ) == Ok::<SExpr<N>, crate::grammar::SFault>(SExpr::Variable(w)),
        plain_name(w) ==> s_value(seq![word_tok::<N>(w, l)], line) == Ok::<SExpr<N>, crate::grammar::SFault>(
            SExpr::Variable(w),
        ),
        s_value(
            seq![word_tok::<N>("the"@, l), word_tok("size"@, l), word_tok("of"@, l), word_tok(w, l)],
            line,
        ) == Ok::<SExpr<N>, crate::grammar::SFault>(SExpr::SizeOf(w)),
        s_value(
            seq![word_tok::<N>("the"@, l), word_tok("length"@, l), word_tok("of"@, l), word_tok(w, l)],
            line,
        ) == Ok::<SExpr<N>, crate::grammar::SFault>(SExpr::LengthOf(w)),
{
    reveal_strlit("the");
    reveal_strlit("value");
    reveal_strlit("size");
    reveal_strlit("length");
    reveal_strlit("of");
    reveal_strlit("item");
    reveal_strlit("in");
    reveal_strlit("joined");
    reveal_strlit("with");
    reveal_strlit("from");
    reveal_strlit("true");
    reveal_strlit("false");
    reveal_strlit("nil");
    reveal_strlit("nothing");
    let v = seq![word_tok::<N>("the"@, l), word_tok("value"@, l), word_tok("of"@, l), word_tok(w, l)];
    let s = seq![word_tok::<N>("the"@, l), word_tok("size"@, l), word_tok("of"@, l), word_tok(w, l)];
    let g = seq![word_tok::<N>("the"@, l), word_tok("length"@, l), word_tok("of"@, l), word_tok(w, l)];
    lemma_phrase_checks(v, w, l);
    lemma_phrase_checks(s, w, l);
    lemma_phrase_checks(g, w, l);
    assert("value"@ != "size"@) by {
        assert("value"@[0] != "size"@[0]);
    }
    assert("value"@ != "length"@) by {
        assert("value"@[0] != "length"@[0]);
    }
    assert("length"@ != "size"@) by {
        assert("length"@[0] != "size"@[0]);
    }
    assert(!crate::grammar::starts_the_of(v, "size"@));
    assert(!crate::grammar::starts_the_of(v, "length"@));
    assert(crate::grammar::starts_the_of(v, "value"@));
    assert(!crate::grammar::starts_the_of(g, "size"@));
    assert(crate::grammar::word_at(v, 3) == Some(w));
    assert(crate::grammar::word_at(s, 3) == Some(w));
    assert(crate::grammar::word_at(g, 3) == Some(w));
    let one = seq![word_tok::<N>(w, l)];
    crate::grammar::lemma_first_word(one, "joined"@, 0);
    crate::grammar::lemma_first_word(one, "of"@, 0);
    assert(crate::grammar::field_of_a(one) is None);
}

/// In `the <x> of <w>` no earlier value form applies.
proof fn lemma_phrase_checks<N>(ts: Seq<SSpanned<N>>, w: Seq<char>, l: usize)
    requires
        ts.len() == 4,
        ts[0] == word_tok::<N>("the"@, l),
        ts[2] == word_tok::<N>("of"@, l),
        ts[3] == word_tok::<N>(w, l),
        ts[1] == word_tok::<N>("value"@, l) || ts[1] == word_tok::<N>("size"@, l) || ts[1] == word_tok::<N>(
            "length"@,
            l,
        ),
    ensures
        !crate::grammar::is_word(ts[0], "item"@),
        !crate::grammar::is_word(ts[2], "in"@),
        crate::grammar::first_word(ts, "joined"@, 0) + 1 >= 4,
{
    reveal_strlit("the");
    reveal_strlit("value");
    reveal_strlit("size");
    reveal_strlit("length");
    reveal_strlit("of");
    reveal_strlit("item");
    reveal_strlit("in");
    reveal_strlit("joined");
    assert("the"@ != "item"@) by {
        assert("the"@[0] != "item"@[0]);
    }
    assert("of"@ != "in"@) by {
        assert("of"@[1] != "in"@[1]);
    }
    assert("the"@ != "joined"@) by {
        assert("the"@[0] != "joined"@[0]);
    }
    assert("of"@ != "joined"@) by {
        assert("of"@[0] != "joined"@[0]);
    }
    assert("value"@ != "joined"@) by {
        assert("value"@[0] != "joined"@[0]);
    }
    assert("size"@ != "joined"@) by {
        assert("size"@[0] != "joined"@[0]);
    }
    assert("length"@ != "joined"@) by {
        assert("length"@[0] != "joined"@[0]);
    }
    crate::grammar::lemma_first_word(ts, "joined"@, 0);
}

// ─── Arithmetic and text ────────────────────────────────────────────────────

/// Between two numbers, `plus`, `minus`, `times`, `divided by` and
/// `remainder of divided by` are the host's `+`, `-`, `*`, `/` and `%`; a
/// division or remainder by zero is an error.
pub proof fn law_number_arithmetic<N>(o: Oracle<N>, a: N, b: N)
    ensures
        s_binary(o, SValue::Num(a), Op::Plus, SValue::Num(b)) == num_val(q_arith(o, Op::Plus, a, b)),
        s_binary(o, SValue::Num(a), Op::Minus, SValue::Num(b)) == num_val(q_arith(o, Op::Minus, a, b)),
        s_binary(o, SValue::Num(a), Op::Times, SValue::Num(b)) == num_val(q_arith(o, Op::Times, a, b)),
        !q_is_zero(o, b) ==> s_binary(o, SValue::Num(a), Op::DividedBy, SValue::Num(b)) == num_val(
            q_arith(o, Op::DividedBy, a, b),
        ),
        !q_is_zero(o, b) ==> s_binary(o, SValue::Num(a), Op::Remainder, SValue::Num(b)) == num_val(
            q_arith(o, Op::Remainder, a, b),
        ),
        q_is_zero(o, b) ==> s_binary(o, SValue::Num(a), Op::DividedBy, SValue::Num(b)) is Err,
        q_is_zero(o, b) ==> s_binary(o, SValue::Num(a), Op::Remainder, SValue::Num(b)) is Err,
{
}

/// `plus` with a side that is not a number joins the two texts.
pub proof fn law_plus_joins_texts<N>(o: Oracle<N>, l: SValue<N>, r: SValue<N>)
    requires
        !(l is Num) || !(r is Num),
    ensures
        s_binary(o, l, Op::Plus, r) == Ok::<SValue<N>, Seq<char>>(SValue::Str(s_str(o, l) + s_str(o, r))),
{
}

/// `a joined with b` is the text of `a` followed by the text of `b`; `x in
/// uppercase` and `x in lowercase` are the text of `x` in upper and lower
/// case.
pub proof fn law_text_phrases<N>(o: Oracle<N>, a: SExpr<N>, b: SExpr<N>, env: SEnv<N>)
    ensures
        forall|lv: SValue<N>, rv: SValue<N>|
            s_expr(o, a, env) == Ok::<SValue<N>, Seq<char>>(lv) && s_expr(o, b, env) == Ok::<SValue<N>, Seq<char>>(rv)
                ==> #[trigger] s_expr(o, SExpr::JoinedWith(Box::new(a), Box::new(b)), env) == Ok::<
                SValue<N>,
                Seq<char>,
            >(SValue::Str(s_str(o, lv) + s_str(o, rv))),
        forall|v: SValue<N>|
            s_expr(o, a, env) == Ok::<SValue<N>, Seq<char>>(v) ==> s_expr(o, SExpr::InUppercase(Box::new(a)), env)
                == Ok::<SValue<N>, Seq<char>>(SValue::Str(uppercase(s_str(o, v)))),
        forall|v: SValue<N>|
            s_expr(o, a, env) == Ok::<SValue<N>, Seq<char>>(v) ==> s_expr(o, SExpr::InLowercase(Box::new(a)), env)
                == Ok::<SValue<N>, Seq<char>>(SValue::Str(lowercase(s_str(o, v)))),
{
}

/// Texts compare without regard to case: `is` is equality of the lower-case
/// texts, and `contains`, `starts with` and `ends with` test for a piece, a
/// beginning and an end of the lower-case text.
pub proof fn law_text_comparisons<N>(o: Oracle<N>, x: Seq<char>, y: Seq<char>)
    ensures
        s_compare(o, SValue::<N>::Str(x), Comparison::Is, SValue::Str(y)) == Ok::<bool, Seq<char>>(
            lowercase(x) == lowercase(y),
        ),
        s_compare(o, SValue::<N>::Str(x), Comparison::IsNot, SValue::Str(y)) == Ok::<bool, Seq<char>>(
            lowercase(x) != lowercase(y),
        ),
        s_compare(o, SValue::<N>::Str(x), Comparison::Contains, SValue::Str(y)) == Ok::<bool, Seq<char>>(
            exists|i: int| #[trigger] matches_at(lowercase(x), lowercase(y), i),
        ),
        s_compare(o, SValue::<N>::Str(x), Comparison::StartsWith, SValue::Str(y)) == Ok::<bool, Seq<char>>(
            lowercase(y).len() <= lowercase(x).len() && lowercase(x).take(lowercase(y).len() as int) == lowercase(y),
        ),
        s_compare(o, SValue::<N>::Str(x), Comparison::EndsWith, SValue::Str(y)) == Ok::<bool, Seq<char>>(
            lowercase(y).len() <= lowercase(x).len() && lowercase(x).skip(
                lowercase(x).len() - lowercase(y).len(),
            ) == lowercase(y),
        ),
{
}

// ─── Lists ──────────────────────────────────────────────────────────────────

/// Lists count from one: `item k from l` is the `k`-th item for `k` from 1 to
/// the size of the list, and an error for any other `k`.
pub proof fn law_items_count_from_one<N>(env: SEnv<N>, list: Seq<char>, items: Seq<SValue<N>>, k: usize)
    requires
        s_get(env, list) == Some(SValue::List(items)),
    ensures
        1 <= k <= items.len() ==> s_item(env, k, list) == Ok::<SValue<N>, Seq<char>>(items[k - 1]),
        k == 0 || k > items.len() ==> s_item(env, k, list) is Err,
{
}

/// `the size of l` is the number of items of the list, and `the length of x`
/// the number of characters of the text of `x`.
pub proof fn law_size_and_length<N>(o: Oracle<N>, env: SEnv<N>, name: Seq<char>)
    ensures
        forall|items: Seq<SValue<N>>|
            s_get(env, name) == Some(SValue::List(items)) ==> #[trigger] s_expr(o, SExpr::SizeOf(name), env)
                == num_val(q_count(o, items.len() as usize)),
        forall|v: SValue<N>|
            s_get(env, name) == Some(v) ==> #[trigger] s_expr(o, SExpr::LengthOf(name), env) == num_val(
                q_count(o, s_str(o, v).len() as usize),
            ),
{
}

/// `create list l` makes `l` an empty list; `add x to l` puts the value of `x`
/// after the last item; `remove item k from l` takes out the `k`-th item,
/// counting from one.
pub proof fn law_list_statements<N>(
    o: Oracle<N>,
    fuel: nat,
    e: SExpr<N>,
    list: Seq<char>,
    items: Seq<SValue<N>>,
    env: SEnv<N>,
)
    requires
        fuel >= 1,
    ensures
        s_get(s_stmt(o, fuel, SStmt::CreateList(list), env).1, list) == Some(SValue::<N>::List(Seq::empty())),
        forall|v: SValue<N>|
            s_get(env, list) == Some(SValue::List(items)) && s_expr(o, e, env) == Ok::<SValue<N>, Seq<char>>(v)
                ==> s_get(#[trigger] s_stmt(o, fuel, SStmt::AddToList(e, list), env).1, list) == Some(
                SValue::List(items.push(v)),
            ),
        forall|n: N|
            s_get(env, list) == Some(SValue::List(items)) && s_expr(o, e, env) == Ok::<SValue<N>, Seq<char>>(
                SValue::Num(n),
            ) && 1 <= q_to_index(o, n) <= items.len() ==> s_get(
                #[trigger] s_stmt(o, fuel, SStmt::RemoveItemFromList(e, list), env).1,
                list,
            ) == Some(SValue::List(items.remove(q_to_index(o, n) - 1))),
{
    law_get_after_set(env, list, SValue::<N>::List(Seq::empty()));
    assert forall|v: SValue<N>|
        s_get(env, list) == Some(SValue::List(items)) && s_expr(o, e, env) == Ok::<SValue<N>, Seq<char>>(v)
            implies s_get(#[trigger] s_stmt(o, fuel, SStmt::AddToList(e, list), env).1, list) == Some(
            SValue::List(items.push(v)),
        ) by {
        law_get_after_set(env, list, SValue::List(items.push(v)));
    }
    assert forall|n: N|
        s_get(env, list) == Some(SValue::List(items)) && s_expr(o, e, env) == Ok::<SValue<N>, Seq<char>>(
            SValue::Num(n),
        ) && 1 <= q_to_index(o, n) <= items.len() implies s_get(
            #[trigger] s_stmt(o, fuel, SStmt::RemoveItemFromList(e, list), env).1,
            list,
        ) == Some(SValue::List(items.remove(q_to_index(o, n) - 1))) by {
        law_get_after_set(env, list, SValue::List(items.remove(q_to_index(o, n) - 1)));
    }
}

// ─── Variables ──────────────────────────────────────────────────────────────

/// `set x to e` gives `x` the value of `e`, and `increase`, `decrease`,
/// `multiply` and `divide x by e` give `x` the host's `+`, `-`, `*` and `/` of
/// its number and that of `e`.
pub proof fn law_assignments<N>(o: Oracle<N>, fuel: nat, x: Seq<char>, e: SExpr<N>, env: SEnv<N>)
    requires
        fuel >= 1,
    ensures
        forall|v: SValue<N>|
            s_expr(o, e, env) == Ok::<SValue<N>, Seq<char>>(v) ==> s_get(
                #[trigger] s_stmt(o, fuel, SStmt::SetVar(x, e), env).1,
                x,
            ) == Some(v),
        forall|c: N, d: N|
            s_get(env, x) == Some(SValue::Num(c)) && s_expr(o, e, env) == Ok::<SValue<N>, Seq<char>>(SValue::Num(d))
                && (#[trigger] q_arith(o, Op::Plus, c, d)) is Ok ==> s_get(
                s_stmt(o, fuel, SStmt::Increase(x, e), env).1,
                x,
            ) == Some(SValue::Num(q_arith(o, Op::Plus, c, d)->Ok_0)),
        forall|c: N, d: N|
            s_get(env, x) == Some(SValue::Num(c)) && s_expr(o, e, env) == Ok::<SValue<N>, Seq<char>>(SValue::Num(d))
                && (#[trigger] q_arith(o, Op::Minus, c, d)) is Ok ==> s_get(
                s_stmt(o, fuel, SStmt::Decrease(x, e), env).1,
                x,
            ) == Some(SValue::Num(q_arith(o, Op::Minus, c, d)->Ok_0)),
        forall|c: N, d: N|
            s_get(env, x) == Some(SValue::Num(c)) && s_expr(o, e, env) == Ok::<SValue<N>, Seq<char>>(SValue::Num(d))
                && (#[trigger] q_arith(o, Op::Times, c, d)) is Ok ==> s_get(
                s_stmt(o, fuel, SStmt::Multiply(x, e), env).1,
                x,
            ) == Some(SValue::Num(q_arith(o, Op::Times, c, d)->Ok_0)),
        forall|c: N, d: N|
            s_get(env, x) == Some(SValue::Num(c)) && s_expr(o, e, env) == Ok::<SValue<N>, Seq<char>>(SValue::Num(d))
                && (#[trigger] q_arith(o, Op::DividedBy, c, d)) is Ok ==> s_get(
                s_stmt(o, fuel, SStmt::Divide(x, e), env).1,
                x,
            ) == Some(SValue::Num(q_arith(o, Op::DividedBy, c, d)->Ok_0)),
{
    assert forall|v: SValue<N>| s_expr(o, e, env) == Ok::<SValue<N>, Seq<char>>(v) implies s_get(
        #[trigger] s_stmt(o, fuel, SStmt::SetVar(x, e), env).1,
        x,
    ) == Some(v) by {
        law_get_after_set(env, x, v);
    }
    assert forall|r: N| #[trigger] s_get(s_set(env, x, SValue::Num(r)), x) == Some(SValue::Num(r)) by {
        law_get_after_set(env, x, SValue::Num(r));
    }
}

// ─── Output ─────────────────────────────────────────────────────────────────

/// The texts of `vs`.
pub open spec fn texts_of<N>(o: Oracle<N>, vs: Seq<SValue<N>>) -> Seq<Seq<char>> {
    Seq::new(vs.len(), |j: int| s_str(o, vs[j]))
}

proof fn lemma_say_parts<N>(
    o: Oracle<N>,
    parts: Seq<SExpr<N>>,
    vs: Seq<SValue<N>>,
    i: int,
    acc: Seq<Seq<char>>,
    env: SEnv<N>,
)
    requires
        0 <= i <= parts.len(),
        vs.len() == parts.len(),
        forall|j: int| 0 <= j < parts.len() ==> s_expr(o, #[trigger] parts[j], env) == Ok::<SValue<N>, Seq<char>>(vs[j]),
        acc == texts_of(o, vs).take(i),
    ensures
        s_say_parts(o, parts, i, acc, env) == Ok::<Seq<Seq<char>>, Seq<char>>(texts_of(o, vs)),
    decreases parts.len() - i,
{
    if i < parts.len() {
        assert(s_expr(o, parts[i], env) == Ok::<SValue<N>, Seq<char>>(vs[i]));
        assert(acc.push(s_str(o, vs[i])) =~= texts_of(o, vs).take(i + 1));
        lemma_say_parts(o, parts, vs, i + 1, acc.push(s_str(o, vs[i])), env);
    } else {
        assert(acc =~= texts_of(o, vs));
    }
}

/// `say a and b and ...` adds one line to the output: the texts of the parts,
/// in order, joined with single spaces.
pub proof fn law_say_joins_with_spaces<N>(
    o: Oracle<N>,
    fuel: nat,
    parts: Seq<SExpr<N>>,
    vs: Seq<SValue<N>>,
    lines: Seq<Seq<char>>,
    env: SEnv<N>,
)
    requires
        fuel >= 1,
        vs.len() == parts.len(),
        forall|j: int| 0 <= j < parts.len() ==> s_expr(o, #[trigger] parts[j], env) == Ok::<SValue<N>, Seq<char>>(vs[j]),
        env.output == Some(lines),
    ensures
        s_stmt(o, fuel, SStmt::Say(parts), env).0 == Ok::<SSignal<N>, Seq<char>>(SSignal::Normal),
        s_stmt(o, fuel, SStmt::Say(parts), env).1.output == Some(lines.push(join(texts_of(o, vs), " "@))),
{
    assert(texts_of(o, vs).take(0) =~= Seq::<Seq<char>>::empty());
    lemma_say_parts(o, parts, vs, 0, Seq::empty(), env);
}

// ─── Phrases ────────────────────────────────────────────────────────────────

/// `ts[i]` is the word `w`.
pub open spec fn word_is<N>(ts: Seq<SSpanned<N>>, i: int, w: Seq<char>) -> bool {
    0 <= i < ts.len() && ts[i].token == SToken::<N>::Word(w)
}

/// Each comparison phrase reads as its comparison, and the right side starts
/// after the phrase: `is greater than`, `is less than`, `is at least`, `is at
/// most`, `is not` (unless `the` follows, as in `it is not the case`), `is`,
/// `contains`, `starts with`, `ends with`.
pub proof fn law_comparison_phrases<N>(ts: Seq<SSpanned<N>>, i: int)
    requires
        0 <= i,
    ensures
        word_is(ts, i, "is"@) && word_is(ts, i + 1, "greater"@) && word_is(ts, i + 2, "than"@) ==> relation_at(ts, i)
            == Some((Comparison::GreaterThan, i + 3)),
        word_is(ts, i, "is"@) && word_is(ts, i + 1, "less"@) && word_is(ts, i + 2, "than"@) ==> relation_at(ts, i)
            == Some((Comparison::LessThan, i + 3)),
        word_is(ts, i, "is"@) && word_is(ts, i + 1, "at"@) && word_is(ts, i + 2, "least"@) ==> relation_at(ts, i)
            == Some((Comparison::AtLeast, i + 3)),
        word_is(ts, i, "is"@) && word_is(ts, i + 1, "at"@) && word_is(ts, i + 2, "most"@) ==> relation_at(ts, i)
            == Some((Comparison::AtMost, i + 3)),
        word_is(ts, i, "is"@) && word_is(ts, i + 1, "not"@) && !word_is(ts, i + 2, "the"@) ==> relation_at(ts, i)
            == Some((Comparison::IsNot, i + 2)),
        word_is(ts, i, "is"@) && !word_is(ts, i + 1, "not"@) && !word_is(ts, i + 1, "greater"@) && !word_is(
            ts,
            i + 1,
            "less"@,
        ) && !word_is(ts, i + 1, "at"@) ==> relation_at(ts, i) == Some((Comparison::Is, i + 1)),
        word_is(ts, i, "contains"@) ==> relation_at(ts, i) == Some((Comparison::Contains, i + 1)),
        word_is(ts, i, "starts"@) && word_is(ts, i + 1, "with"@) ==> relation_at(ts, i) == Some(
            (Comparison::StartsWith, i + 2),
        ),
        word_is(ts, i, "ends"@) && word_is(ts, i + 1, "with"@) ==> relation_at(ts, i) == Some(
            (Comparison::EndsWith, i + 2),
        ),
{
    reveal_strlit("is");
    reveal_strlit("not");
    reveal_strlit("greater");
    reveal_strlit("less");
    reveal_strlit("at");
    reveal_strlit("least");
    reveal_strlit("most");
    reveal_strlit("than");
    reveal_strlit("the");
    reveal_strlit("contains");
    reveal_strlit("starts");
    reveal_strlit("ends");
    reveal_strlit("with");
    assert("not"@ != "greater"@ && "not"@ != "less"@ && "not"@ != "at"@) by {
        assert("not"@[0] != "greater"@[0] && "not"@[0] != "less"@[0] && "not"@[0] != "at"@[0]);
    }
    assert("greater"@ != "less"@ && "greater"@ != "at"@ && "less"@ != "at"@) by {
        assert("greater"@[0] != "less"@[0] && "greater"@[0] != "at"@[0] && "less"@[0] != "at"@[0]);
    }
    assert("least"@ != "most"@) by {
        assert("least"@[0] != "most"@[0]);
    }
    assert("than"@ != "the"@) by {
        assert("than"@[2] != "the"@[2]);
    }
    assert("least"@ != "the"@ && "most"@ != "the"@) by {
        assert("least"@[0] != "the"@[0] && "most"@[0] != "the"@[0]);
    }
    assert("is"@ != "contains"@ && "is"@ != "starts"@ && "is"@ != "ends"@) by {
        assert("is"@[0] != "contains"@[0] && "is"@[0] != "starts"@[0] && "is"@[0] != "ends"@[0]);
    }
    assert("contains"@ != "starts"@ && "contains"@ != "ends"@ && "starts"@ != "ends"@) by {
        assert("contains"@[0] != "starts"@[0] && "contains"@[0] != "ends"@[0] && "starts"@[0] != "ends"@[0]);
    }
}

/// Each arithmetic phrase reads as its operator, and the right side starts
/// after the phrase: `plus`, `minus`, `times`, `divided by`, `remainder of
/// divided by`.
pub proof fn law_arithmetic_phrases<N>(ts: Seq<SSpanned<N>>, i: int)
    requires
        0 <= i,
    ensures
        word_is(ts, i, "plus"@) ==> math_at(ts, i) == Some((Op::Plus, i + 1)),
        word_is(ts, i, "minus"@) ==> math_at(ts, i) == Some((Op::Minus, i + 1)),
        word_is(ts, i, "times"@) ==> math_at(ts, i) == Some((Op::Times, i + 1)),
        word_is(ts, i, "divided"@) && word_is(ts, i + 1, "by"@) ==> math_at(ts, i) == Some((Op::DividedBy, i + 2)),
        word_is(ts, i, "remainder"@) && word_is(ts, i + 1, "of"@) && word_is(ts, i + 2, "divided"@) && word_is(
            ts,
            i + 3,
            "by"@,
        ) ==> math_at(ts, i) == Some((Op::Remainder, i + 4)),
{
    reveal_strlit("plus");
    reveal_strlit("minus");
    reveal_strlit("times");
    reveal_strlit("divided");
    reveal_strlit("remainder");
    assert("plus"@ != "remainder"@ && "plus"@ != "divided"@) by {
        assert("plus"@[0] != "remainder"@[0] && "plus"@[0] != "divided"@[0]);
    }
    assert("minus"@ != "remainder"@ && "minus"@ != "divided"@ && "minus"@ != "plus"@) by {
        assert("minus"@[0] != "remainder"@[0] && "minus"@[0] != "divided"@[0] && "minus"@[0] != "plus"@[0]);
    }
    assert("times"@ != "remainder"@ && "times"@ != "divided"@ && "times"@ != "plus"@ && "times"@ != "minus"@) by {
        assert("times"@[0] != "remainder"@[0] && "times"@[0] != "divided"@[0] && "times"@[0] != "plus"@[0]
            && "times"@[0] != "minus"@[0]);
    }
    assert("divided"@ != "remainder"@) by {
        assert("divided"@[0] != "remainder"@[0]);
    }
}

/// `and also` stands at `q`, and at no index before it.
pub open spec fn first_and_also<N>(ts: Seq<SSpanned<N>>, q: int) -> bool {
    &&& word_is(ts, q, "and"@) && word_is(ts, q + 1, "also"@)
    &&& forall|k: int| 0 <= k < q ==> !(word_is(ts, k, "and"@) && #[trigger] word_is(ts, k + 1, "also"@))
}

proof fn lemma_and_also_at<N>(ts: Seq<SSpanned<N>>, i: int, q: int)
    requires
        0 <= i <= q,
        first_and_also(ts, q),
    ensures
        and_also_at(ts, i) == q,
    decreases q - i,
{
    if i < q {
        assert(!(word_is(ts, i, "and"@) && word_is(ts, i + 1, "also"@)));
        lemma_and_also_at(ts, i + 1, q);
    }
}

proof fn lemma_no_and_also<N>(ts: Seq<SSpanned<N>>, i: int)
    requires
        0 <= i,
        forall|k: int| 0 <= k ==> !(word_is(ts, k, "and"@) && #[trigger] word_is(ts, k + 1, "also"@)),
    ensures
        and_also_at(ts, i) == ts.len(),
    decreases ts.len() - i,
{
    if i + 1 < ts.len() {
        assert(!(word_is(ts, i, "and"@) && word_is(ts, i + 1, "also"@)));
        lemma_no_and_also(ts, i + 1);
    }
}

/// The logical phrases read as their operators: the first `or` splits an
/// expression into an `or` of its two sides; with no `or`, the first `and
/// also` splits it into an `and also`; with neither, `it is not the case
/// that` before an expression negates it.
pub proof fn law_logic_phrases<N>(ts: Seq<SSpanned<N>>, line: usize, p: int)
    ensures
        0 <= p && word_is(ts, p, "or"@) && (forall|k: int| 0 <= k < p ==> !#[trigger] word_is(ts, k, "or"@))
            ==> forall|a: SExpr<N>, b: SExpr<N>|
            s_expr_parse(ts.subrange(0, p), line) == Ok::<SExpr<N>, SFault>(a) && s_expr_parse(
                ts.subrange(p + 1, ts.len() as int),
                line,
            ) == Ok::<SExpr<N>, SFault>(b) ==> #[trigger] s_expr_parse(ts, line) == Ok::<SExpr<N>, SFault>(
                SExpr::LogicalOp(Box::new(a), LogicOp::Or, Box::new(b)),
            ),
        0 <= p && first_and_also(ts, p) && (forall|k: int| 0 <= k < ts.len() ==> !#[trigger] word_is(ts, k, "or"@))
            ==> forall|a: SExpr<N>, b: SExpr<N>|
            s_expr_parse(ts.subrange(0, p), line) == Ok::<SExpr<N>, SFault>(a) && s_expr_parse(
                ts.subrange(p + 2, ts.len() as int),
                line,
            ) == Ok::<SExpr<N>, SFault>(b) ==> #[trigger] s_expr_parse(ts, line) == Ok::<SExpr<N>, SFault>(
                SExpr::LogicalOp(Box::new(a), LogicOp::And, Box::new(b)),
            ),
        word_is(ts, 0, "it"@) && word_is(ts, 1, "is"@) && word_is(ts, 2, "not"@) && word_is(ts, 3, "the"@) && word_is(
            ts,
            4,
            "case"@,
        ) && word_is(ts, 5, "that"@) && (forall|k: int| 0 <= k < ts.len() ==> !#[trigger] word_is(ts, k, "or"@))
            && (forall|k: int| 0 <= k ==> !(word_is(ts, k, "and"@) && #[trigger] word_is(ts, k + 1, "also"@)))
            ==> forall|a: SExpr<N>|
            s_expr_parse(ts.subrange(6, ts.len() as int), line) == Ok::<SExpr<N>, SFault>(a) ==> #[trigger] s_expr_parse(
                ts,
                line,
            ) == Ok::<SExpr<N>, SFault>(SExpr::Not(Box::new(a))),
{
    crate::grammar::lemma_first_word(ts, "or"@, 0);
    if 0 <= p && word_is(ts, p, "or"@) && (forall|k: int| 0 <= k < p ==> !#[trigger] word_is(ts, k, "or"@)) {
        let f = crate::grammar::first_word(ts, "or"@, 0);
        assert(crate::grammar::is_word(ts[p], "or"@));
        if f < p {
            assert(word_is(ts, f, "or"@));
        }
        assert(f == p);
    }
    if 0 <= p && first_and_also(ts, p) && (forall|k: int| 0 <= k < ts.len() ==> !#[trigger] word_is(ts, k, "or"@)) {
        let f = crate::grammar::first_word(ts, "or"@, 0);
        if f < ts.len() {
            assert(word_is(ts, f, "or"@));
        }
        lemma_and_also_at(ts, 0, p);
    }
    if word_is(ts, 0, "it"@) && word_is(ts, 1, "is"@) && word_is(ts, 2, "not"@) && word_is(ts, 3, "the"@) && word_is(
        ts,
        4,
        "case"@,
    ) && word_is(ts, 5, "that"@) && (forall|k: int| 0 <= k < ts.len() ==> !#[trigger] word_is(ts, k, "or"@))
        && (forall|k: int| 0 <= k ==> !(word_is(ts, k, "and"@) && #[trigger] word_is(ts, k + 1, "also"@))) {
        let f = crate::grammar::first_word(ts, "or"@, 0);
        if f < ts.len() {
            assert(word_is(ts, f, "or"@));
        }
        lemma_no_and_also(ts, 0);
    }
}

// ─── Branches, objects, input, texts ────────────────────────────────────────

/// `if c, ..., otherwise ..., end if` runs the first part when `c` is truthy
/// and the `otherwise` part when it is not.
pub proof fn law_if_chooses_branch<N>(
    o: Oracle<N>,
    fuel: nat,
    c: SExpr<N>,
    t: Seq<SStmt<N>>,
    el: Seq<SStmt<N>>,
    env: SEnv<N>,
)
    requires
        fuel >= 1,
    ensures
        forall|cv: SValue<N>|
            s_expr(o, c, env) == Ok::<SValue<N>, Seq<char>>(cv) && s_truthy(o, cv) ==> #[trigger] s_stmt(
                o,
                fuel,
                SStmt::If(c, t, el),
                env,
            ) == s_block(o, (fuel - 1) as nat, t, 0, env),
        forall|cv: SValue<N>|
            s_expr(o, c, env) == Ok::<SValue<N>, Seq<char>>(cv) && !s_truthy(o, cv) ==> #[trigger] s_stmt(
                o,
                fuel,
                SStmt::If(c, t, el),
                env,
            ) == s_block(o, (fuel - 1) as nat, el, 0, env),
{
}

proof fn lemma_build_keeps<N>(
    fields: Seq<Seq<char>>,
    argv: Seq<SValue<N>>,
    j: int,
    acc: Seq<(Seq<char>, SValue<N>)>,
    k: Seq<char>,
)
    requires
        0 <= j,
        forall|m: int| j <= m < fields.len() ==> fields[m] != k,
    ensures
        lookup(crate::semantics::s_build(fields, argv, j, acc), k) == lookup(acc, k),
    decreases fields.len() - j,
{
    if j < fields.len() {
        law_lookup_insert(acc, fields[j], crate::semantics::arg_at(argv, j), k);
        lemma_build_keeps(fields, argv, j + 1, crate::assoc::insert(acc, fields[j], crate::semantics::arg_at(argv, j)), k);
    }
}

proof fn lemma_build_reads<N>(
    fields: Seq<Seq<char>>,
    argv: Seq<SValue<N>>,
    j: int,
    acc: Seq<(Seq<char>, SValue<N>)>,
    i: int,
)
    requires
        0 <= j <= i < fields.len(),
        distinct(fields),
    ensures
        lookup(crate::semantics::s_build(fields, argv, j, acc), fields[i]) == Some(argument(argv, i)),
    decreases i - j,
{
    let a2 = crate::assoc::insert(acc, fields[j], crate::semantics::arg_at(argv, j));
    if j == i {
        law_lookup_insert(acc, fields[i], crate::semantics::arg_at(argv, i), fields[i]);
        lemma_build_keeps(fields, argv, i + 1, a2, fields[i]);
    } else {
        lemma_build_reads(fields, argv, j + 1, a2, i);
    }
}

/// `create T with a and b ... and store in v` gives the new object's `i`-th
/// field the `i`-th argument (`nothing` when there are fewer arguments), and
/// stores the object, of type `T`, in `v`.
pub proof fn law_create_fills_fields_in_order<N>(
    o: Oracle<N>,
    fuel: nat,
    class: Seq<char>,
    args: Seq<SExpr<N>>,
    store: Seq<char>,
    env: SEnv<N>,
    fields: Seq<Seq<char>>,
    argv: Seq<SValue<N>>,
    i: int,
)
    requires
        fuel >= 1,
        0 <= i < fields.len(),
        distinct(fields),
        lookup(env.classes, class) matches Some(def) && def.0 == fields,
        crate::semantics::s_args(o, args, 0, Seq::empty(), env) == Ok::<Seq<SValue<N>>, Seq<char>>(argv),
    ensures
        s_get(s_stmt(o, fuel, SStmt::CreateObject(class, args, store), env).1, store) matches Some(
            SValue::Object(c, fs),
        ) && c == class && lookup(fs, fields[i]) == Some(argument(argv, i)),
{
    let def = lookup(env.classes, class)->0;
    let fs = crate::semantics::s_build(fields, argv, 0, Seq::empty());
    lemma_build_reads(fields, argv, 0, Seq::empty(), i);
    law_get_after_set(env, store, SValue::Object(class, fs));
}

/// `the f of v` reads field `f` of the object in `v` (`nothing` when it has
/// no such field), and `set the f of v to e` gives that field the value of
/// `e`, keeping the object's type.
pub proof fn law_fields<N>(
    o: Oracle<N>,
    fuel: nat,
    obj: Seq<char>,
    field: Seq<char>,
    e: SExpr<N>,
    c: Seq<char>,
    fs: Seq<(Seq<char>, SValue<N>)>,
    env: SEnv<N>,
)
    requires
        fuel >= 1,
        s_get(env, obj) == Some(SValue::Object(c, fs)),
    ensures
        s_expr(o, SExpr::GetField(obj, field), env) == Ok::<SValue<N>, Seq<char>>(
            match lookup(fs, field) {
                Some(v) => v,
                None => SValue::Nil,
            },
        ),
        forall|v: SValue<N>|
            s_expr(o, e, env) == Ok::<SValue<N>, Seq<char>>(v) ==> (s_get(
                #[trigger] s_stmt(o, fuel, SStmt::SetField(obj, field, e), env).1,
                obj,
            ) matches Some(SValue::Object(c2, fs2)) && c2 == c && lookup(fs2, field) == Some(v)),
{
    assert forall|v: SValue<N>| s_expr(o, e, env) == Ok::<SValue<N>, Seq<char>>(v) implies (s_get(
        #[trigger] s_stmt(o, fuel, SStmt::SetField(obj, field, e), env).1,
        obj,
    ) matches Some(SValue::Object(c2, fs2)) && c2 == c && lookup(fs2, field) == Some(v)) by {
        law_get_after_set(env, obj, SValue::Object(c, crate::assoc::insert(fs, field, v)));
        law_lookup_insert(fs, field, v, field);
    }
}

/// `ask ... and store in v` stores the next answer in `v` and uses it up;
/// with no answers given it stores the empty text; with the answers used up
/// it stops with an error, awaiting one.
pub proof fn law_ask_takes_next_answer<N>(
    o: Oracle<N>,
    fuel: nat,
    words: Seq<Seq<char>>,
    var: Seq<char>,
    env: SEnv<N>,
)
    requires
        fuel >= 1,
    ensures
        forall|a: Seq<Seq<char>>|
            env.input == Some(a) && a.len() > 0 ==> s_get(#[trigger] s_stmt(o, fuel, SStmt::Ask(words, var), env).1, var)
                == Some(SValue::<N>::Str(a[0])) && s_stmt(o, fuel, SStmt::Ask(words, var), env).1.input == Some(
                a.drop_first(),
            ),
        env.input is None ==> s_get(s_stmt(o, fuel, SStmt::Ask(words, var), env).1, var) == Some(
            SValue::<N>::Str(Seq::empty()),
        ),
        env.input == Some(Seq::<Seq<char>>::empty()) ==> s_stmt(o, fuel, SStmt::Ask(words, var), env).0 is Err
            && s_stmt(o, fuel, SStmt::Ask(words, var), env).1.waiting == Some(join(words, " "@)),
{
    match env.input {
        Some(a) => if a.len() > 0 {
            law_get_after_set(SEnv { input: Some(a.drop_first()), ..env }, var, SValue::Str(a[0]));
        },
        None => law_get_after_set(env, var, SValue::Str(Seq::empty())),
    }
}

/// The text of a value: a text is itself, `true` and `false` are those words,
/// `nothing` is `nothing`, and a list is its items' texts between brackets,
/// separated by a comma and a space.
pub proof fn law_value_texts<N>(o: Oracle<N>, x: Seq<char>, items: Seq<SValue<N>>)
    ensures
        s_str(o, SValue::<N>::Str(x)) == x,
        s_str(o, SValue::<N>::Bool(true)) == "true"@,
        s_str(o, SValue::<N>::Bool(false)) == "false"@,
        s_str(o, SValue::<N>::Nil) == "nothing"@,
        s_str(o, SValue::List(items)) == "["@ + join(texts_of(o, items), ", "@) + "]"@,
{
    lemma_strs(o, items);
}

proof fn lemma_strs<N>(o: Oracle<N>, items: Seq<SValue<N>>)
    ensures
        crate::semantics::s_strs(o, items) == texts_of(o, items),
    decreases items.len(),
{
    if items.len() > 0 {
        lemma_strs(o, items.drop_last());
        assert(crate::semantics::s_strs(o, items) =~= texts_of(o, items));
    } else {
        assert(crate::semantics::s_strs(o, items) =~= texts_of(o, items));
    }
}

} // verus!
