//! What the interpreter computes, stated on views: the meaning of values,
//! expressions, statements and programs, given the host's answers.
use vstd::prelude::*;

use crate::assoc::{first_in, insert, lookup};
use crate::evaluator::{
    s_get, s_pop, s_push, s_set, s_set_local, SEnv, SFunc, SClass, SSignal,
};
use crate::host::{
    q_arith, q_relation, q_count, q_format, q_is_zero, q_parse, q_to_count, q_to_index,
    NumRel, SQuery, SReply,
};
use crate::parser::{Comparison, LogicOp, Op, SExpr, SMethod, SStmt, SValue};
use crate::text::{on_line, dec, has_infix, has_prefix, has_suffix, join, lowercase, sort_texts, uppercase};

verus! {

pub type Oracle<N> = spec_fn(SQuery<N>) -> SReply<N>;

pub type SRes<T> = Result<T, Seq<char>>;

// ─── Texts of values ────────────────────────────────────────────────────────

/// The text of a value, as `say` shows it.
pub open spec fn s_str<N>(o: Oracle<N>, v: SValue<N>) -> Seq<char>
    decreases v, 0nat,
{
    match v {
        SValue::Str(s) => s,
        SValue::Num(n) => q_format(o, n),
        SValue::Bool(b) => if b {
            "true"@
        } else {
            "false"@
        },
        SValue::List(items) => "["@ + join(s_strs(o, items), ", "@) + "]"@,
        SValue::Nil => "nothing"@,
        SValue::Object(c, fields) => c + "("@ + join(sort_texts(s_pairs(o, fields)), ", "@)
            + ")"@,
    }
}

pub open spec fn s_strs<N>(o: Oracle<N>, items: Seq<SValue<N>>) -> Seq<Seq<char>>
    decreases items, 1nat,
{
    if items.len() == 0 {
        Seq::empty()
    } else {
        s_strs(o, items.drop_last()).push(s_str(o, items.last()))
    }
}

/// `"name: text"` for each field, in field order.
pub open spec fn s_pairs<N>(o: Oracle<N>, fields: Seq<(Seq<char>, SValue<N>)>) -> Seq<Seq<char>>
    decreases fields, 1nat,
{
    if fields.len() == 0 {
        Seq::empty()
    } else {
        s_pairs(o, fields.drop_last()).push(
            fields.last().0 + ": "@ + s_str(o, fields.last().1),
        )
    }
}

// ─── Equality, truth, numbers ───────────────────────────────────────────────

/// Structural equality of values (numbers compared by the host).
pub open spec fn s_deq<N>(o: Oracle<N>, a: SValue<N>, b: SValue<N>) -> bool
    decreases a, 0nat,
{
    match (a, b) {
        (SValue::Str(x), SValue::Str(y)) => x == y,
        (SValue::Num(x), SValue::Num(y)) => q_relation(o, NumRel::Eq, x, y),
        (SValue::Bool(x), SValue::Bool(y)) => x == y,
        (SValue::List(x), SValue::List(y)) => x.len() == y.len() && s_list_deq(o, x, y),
        (SValue::Object(ca, fa), SValue::Object(cb, fb)) => ca == cb && s_fields_eq(o, fa, fb),
        (SValue::Nil, SValue::Nil) => true,
        _ => false,
    }
}

pub open spec fn s_list_deq<N>(o: Oracle<N>, x: Seq<SValue<N>>, y: Seq<SValue<N>>) -> bool
    decreases x, 1nat,
{
    if x.len() == 0 {
        true
    } else {
        s_list_deq(o, x.drop_last(), y) && s_deq(o, x.last(), y[x.len() - 1])
    }
}

/// Map equality of field lists: same size, and each field of `fa` is in `fb`
/// with an equal value.
pub open spec fn s_fields_eq<N>(
    o: Oracle<N>,
    fa: Seq<(Seq<char>, SValue<N>)>,
    fb: Seq<(Seq<char>, SValue<N>)>,
) -> bool
    decreases fa, 2nat,
{
    fa.len() == fb.len() && s_fields_all(o, fa, fb)
}

pub open spec fn s_fields_all<N>(
    o: Oracle<N>,
    fa: Seq<(Seq<char>, SValue<N>)>,
    fb: Seq<(Seq<char>, SValue<N>)>,
) -> bool
    decreases fa, 1nat,
{
    if fa.len() == 0 {
        true
    } else {
        s_fields_all(o, fa.drop_last(), fb) && match lookup(fb, fa.last().0) {
            Some(v) => s_deq(o, fa.last().1, v),
            None => false,
        }
    }
}

/// The language's `is`: numbers by value, texts without regard to case,
/// objects by class and fields, anything else by its text without regard to case.
pub open spec fn s_values_equal<N>(o: Oracle<N>, a: SValue<N>, b: SValue<N>) -> bool {
    match (a, b) {
        (SValue::Num(x), SValue::Num(y)) => q_relation(o, NumRel::Eq, x, y),
        (SValue::Bool(x), SValue::Bool(y)) => x == y,
        (SValue::Nil, SValue::Nil) => true,
        (SValue::Str(x), SValue::Str(y)) => lowercase(x) == lowercase(y),
        (SValue::Object(ca, fa), SValue::Object(cb, fb)) => ca == cb && s_fields_eq(o, fa, fb),
        _ => lowercase(s_str(o, a)) == lowercase(s_str(o, b)),
    }
}

pub open spec fn s_truthy<N>(o: Oracle<N>, v: SValue<N>) -> bool {
    match v {
        SValue::Bool(b) => b,
        SValue::Nil => false,
        SValue::Num(n) => !q_is_zero(o, n),
        SValue::Str(s) => s.len() > 0,
        SValue::List(l) => l.len() > 0,
        SValue::Object(_, _) => true,
    }
}

/// A value as a number, or the error that names `ctx`.
pub open spec fn s_to_num<N>(o: Oracle<N>, v: SValue<N>, ctx: Seq<char>) -> SRes<N> {
    match v {
        SValue::Num(n) => Ok(n),
        SValue::Str(s) => match q_parse(o, s) {
            Some(n) => Ok(n),
            None => Err("OrimaLang Error: expected number in "@ + ctx + ", got '"@ + s + "'"@),
        },
        SValue::Bool(b) => q_count(o, if b {
            1
        } else {
            0
        }),
        _ => Err("OrimaLang Error: expected number in "@ + ctx),
    }
}

pub open spec fn relation_of(c: Comparison) -> NumRel {
    match c {
        Comparison::GreaterThan => NumRel::Gt,
        Comparison::LessThan => NumRel::Lt,
        Comparison::AtLeast => NumRel::Ge,
        _ => NumRel::Le,
    }
}

pub open spec fn s_compare<N>(o: Oracle<N>, l: SValue<N>, c: Comparison, r: SValue<N>) -> SRes<
    bool,
> {
    match c {
        Comparison::Is => Ok(s_values_equal(o, l, r)),
        Comparison::IsNot => Ok(!s_values_equal(o, l, r)),
        Comparison::Contains => Ok(
            has_infix(lowercase(s_str(o, l)), lowercase(s_str(o, r))),
        ),
        Comparison::StartsWith => Ok(
            has_prefix(lowercase(s_str(o, l)), lowercase(s_str(o, r))),
        ),
        Comparison::EndsWith => Ok(
            has_suffix(lowercase(s_str(o, l)), lowercase(s_str(o, r))),
        ),
        _ => match s_to_num(o, l, "comparison"@) {
            Err(e) => Err(e),
            Ok(a) => match s_to_num(o, r, "comparison"@) {
                Err(e) => Err(e),
                Ok(b) => Ok(q_relation(o, relation_of(c), a, b)),
            },
        },
    }
}

// ─── Messages ───────────────────────────────────────────────────────────────

pub open spec fn quoted(pre: Seq<char>, name: Seq<char>, post: Seq<char>) -> Seq<char> {
    pre + name + post
}

pub open spec fn undefined_variable(name: Seq<char>) -> Seq<char> {
    quoted("OrimaLang Error: undefined variable '"@, name, "'"@)
}

pub open spec fn undefined_list(name: Seq<char>) -> Seq<char> {
    quoted("OrimaLang Error: undefined list '"@, name, "'"@)
}

pub open spec fn not_a_list(name: Seq<char>) -> Seq<char> {
    quoted("OrimaLang Error: '"@, name, "' is not a list"@)
}

pub open spec fn not_an_object(name: Seq<char>) -> Seq<char> {
    quoted("OrimaLang Error: '"@, name, "' is not an object"@)
}

pub open spec fn out_of_range(idx: usize, name: Seq<char>) -> Seq<char> {
    "OrimaLang Error: index "@ + dec(idx as nat) + " out of range for list '"@ + name + "'"@
}

pub open spec fn unquoted_variable(name: Seq<char>) -> Seq<char> {
    "OrimaLang Error: undefined variable '"@ + name + "' - did you mean to quote it as \""@ + name
        + "\"?"@
}

// ─── Expressions ────────────────────────────────────────────────────────────

pub open spec fn num_val<N>(r: SRes<N>) -> SRes<SValue<N>> {
    match r {
        Ok(n) => Ok(SValue::Num(n)),
        Err(e) => Err(e),
    }
}

/// `to_num` on both operands, then the host's operation.
pub open spec fn s_num_op<N>(o: Oracle<N>, a: SValue<N>, b: SValue<N>, op: Op, ctx: Seq<char>) -> SRes<
    SValue<N>,
> {
    match s_to_num(o, a, ctx) {
        Err(e) => Err(e),
        Ok(x) => match s_to_num(o, b, ctx) {
            Err(e) => Err(e),
            Ok(y) => num_val(q_arith(o, op, x, y)),
        },
    }
}

pub open spec fn s_binary<N>(o: Oracle<N>, l: SValue<N>, op: Op, r: SValue<N>) -> SRes<SValue<N>> {
    match op {
        Op::Plus => match (l, r) {
            (SValue::Num(a), SValue::Num(b)) => num_val(q_arith(o, Op::Plus, a, b)),
            _ => Ok(SValue::Str(s_str(o, l) + s_str(o, r))),
        },
        Op::Minus => s_num_op(o, l, r, Op::Minus, "subtraction"@),
        Op::Times => s_num_op(o, l, r, Op::Times, "multiplication"@),
        Op::DividedBy => match s_to_num(o, l, "division"@) {
            Err(e) => Err(e),
            Ok(a) => match s_to_num(o, r, "division"@) {
                Err(e) => Err(e),
                Ok(b) => if q_is_zero(o, b) {
                    Err("OrimaLang Error: division by zero"@)
                } else {
                    num_val(q_arith(o, Op::DividedBy, a, b))
                },
            },
        },
        Op::Remainder => match s_to_num(o, l, "remainder"@) {
            Err(e) => Err(e),
            Ok(a) => match s_to_num(o, r, "remainder"@) {
                Err(e) => Err(e),
                Ok(b) => if q_is_zero(o, b) {
                    Err("OrimaLang Error: division by zero in remainder"@)
                } else {
                    num_val(q_arith(o, Op::Remainder, a, b))
                },
            },
        },
    }
}

/// `item idx from list` once the index is known.
pub open spec fn s_item<N>(env: SEnv<N>, idx: usize, list: Seq<char>) -> SRes<SValue<N>> {
    match s_get(env, list) {
        None => Err(undefined_list(list)),
        Some(SValue::List(items)) => if idx < 1 || idx > items.len() {
            Err(out_of_range(idx, list))
        } else {
            Ok(items[idx - 1])
        },
        Some(_) => Err(not_a_list(list)),
    }
}

/// The value of an expression. Expressions read the environment and change nothing.
pub open spec fn s_expr<N>(o: Oracle<N>, e: SExpr<N>, env: SEnv<N>) -> SRes<SValue<N>>
    decreases e, 0nat, 0int,
{
    match e {
        SExpr::Literal(v) => Ok(v),
        SExpr::Variable(name) => match s_get(env, name) {
            Some(v) => Ok(v),
            None => Err(unquoted_variable(name)),
        },
        SExpr::BinaryOp(l, op, r) => match s_expr(o, *l, env) {
            Err(e) => Err(e),
            Ok(lv) => match s_expr(o, *r, env) {
                Err(e) => Err(e),
                Ok(rv) => s_binary(o, lv, op, rv),
            },
        },
        SExpr::Condition(l, c, r) => match s_expr(o, *l, env) {
            Err(e) => Err(e),
            Ok(lv) => match s_expr(o, *r, env) {
                Err(e) => Err(e),
                Ok(rv) => match s_compare(o, lv, c, rv) {
                    Err(e) => Err(e),
                    Ok(b) => Ok(SValue::Bool(b)),
                },
            },
        },
        SExpr::LogicalOp(l, op, r) => match s_expr(o, *l, env) {
            Err(e) => Err(e),
            Ok(lv) => match op {
                LogicOp::And => if !s_truthy(o, lv) {
                    Ok(SValue::Bool(false))
                } else {
                    match s_expr(o, *r, env) {
                        Err(e) => Err(e),
                        Ok(rv) => Ok(SValue::Bool(s_truthy(o, rv))),
                    }
                },
                LogicOp::Or => if s_truthy(o, lv) {
                    Ok(SValue::Bool(true))
                } else {
                    match s_expr(o, *r, env) {
                        Err(e) => Err(e),
                        Ok(rv) => Ok(SValue::Bool(s_truthy(o, rv))),
                    }
                },
            },
        },
        SExpr::Not(x) => match s_expr(o, *x, env) {
            Err(e) => Err(e),
            Ok(v) => Ok(SValue::Bool(!s_truthy(o, v))),
        },
        SExpr::ItemFrom(x, list) => match s_expr(o, *x, env) {
            Err(e) => Err(e),
            Ok(iv) => match s_to_num(o, iv, "list index"@) {
                Err(e) => Err(e),
                Ok(n) => s_item(env, q_to_index(o, n), list),
            },
        },
        SExpr::SizeOf(name) => match s_get(env, name) {
            None => Err(undefined_variable(name)),
            Some(SValue::List(items)) => num_val(q_count(o, items.len() as usize)),
            Some(_) => Err(not_a_list(name)),
        },
        SExpr::LengthOf(name) => match s_get(env, name) {
            None => Err(undefined_variable(name)),
            Some(v) => num_val(q_count(o, s_str(o, v).len() as usize)),
        },
        SExpr::JoinedWith(l, r) => match s_expr(o, *l, env) {
            Err(e) => Err(e),
            Ok(lv) => match s_expr(o, *r, env) {
                Err(e) => Err(e),
                Ok(rv) => Ok(SValue::Str(s_str(o, lv) + s_str(o, rv))),
            },
        },
        SExpr::InUppercase(x) => match s_expr(o, *x, env) {
            Err(e) => Err(e),
            Ok(v) => Ok(SValue::Str(uppercase(s_str(o, v)))),
        },
        SExpr::InLowercase(x) => match s_expr(o, *x, env) {
            Err(e) => Err(e),
            Ok(v) => Ok(SValue::Str(lowercase(s_str(o, v)))),
        },
        SExpr::Concat(parts) => match s_concat(o, parts, 0, Seq::empty(), env) {
            Err(e) => Err(e),
            Ok(s) => Ok(SValue::Str(s)),
        },
        SExpr::GetField(obj, field) => match s_get(env, obj) {
            None => Err(undefined_variable(obj)),
            Some(SValue::Object(_, fields)) => match lookup(fields, field) {
                Some(v) => Ok(v),
                None => Ok(SValue::Nil),
            },
            Some(_) => Err(not_an_object(obj)),
        },
    }
}

/// The texts of `parts[i..]` appended to `acc`, evaluated left to right.
pub open spec fn s_concat<N>(o: Oracle<N>, parts: Seq<SExpr<N>>, i: int, acc: Seq<char>, env: SEnv<N>) -> SRes<Seq<char>>
    decreases parts, 1nat, parts.len() - i,
{
    if i < 0 || i >= parts.len() {
        Ok(acc)
    } else {
        match s_expr(o, parts[i], env) {
            Err(e) => Err(e),
            Ok(v) => s_concat(o, parts, i + 1, acc + s_str(o, v), env),
        }
    }
}

/// The values of `args[i..]` appended to `acc`, left to right.
pub open spec fn s_args<N>(o: Oracle<N>, args: Seq<SExpr<N>>, i: int, acc: Seq<SValue<N>>, env: SEnv<N>) -> SRes<Seq<SValue<N>>>
    decreases args.len() - i,
{
    if i < 0 || i >= args.len() {
        Ok(acc)
    } else {
        match s_expr(o, args[i], env) {
            Err(e) => Err(e),
            Ok(v) => s_args(o, args, i + 1, acc.push(v), env),
        }
    }
}

/// The texts of `parts[i..]` appended to `acc`, left to right.
pub open spec fn s_say_parts<N>(o: Oracle<N>, parts: Seq<SExpr<N>>, i: int, acc: Seq<Seq<char>>, env: SEnv<N>) -> SRes<
    Seq<Seq<char>>,
>
    decreases parts.len() - i,
{
    if i < 0 || i >= parts.len() {
        Ok(acc)
    } else {
        match s_expr(o, parts[i], env) {
            Err(e) => Err(e),
            Ok(v) => s_say_parts(o, parts, i + 1, acc.push(s_str(o, v)), env),
        }
    }
}



// ─── Statements ─────────────────────────────────────────────────────────────

/// The fuel each top-level statement runs with: every statement, loop round and
/// call spends one, so only a run of 2^64 - 1 nested steps can exhaust it.
pub const FUEL: u64 = 0xFFFF_FFFF_FFFF_FFFFu64;

pub open spec fn limit_msg() -> Seq<char> {
    "OrimaLang Error: evaluation limit reached"@
}

pub open spec fn undefined_function(name: Seq<char>) -> Seq<char> {
    quoted("OrimaLang Error: undefined function '"@, name, "'"@)
}

pub open spec fn undefined_class(name: Seq<char>) -> Seq<char> {
    quoted("OrimaLang Error: undefined class '"@, name, "'"@)
}

pub open spec fn undefined_method(m: Seq<char>, c: Seq<char>) -> Seq<char> {
    "OrimaLang Error: undefined method '"@ + m + "' on class '"@ + c + "'"@
}

/// `say` writes to the buffer when there is one; without one the line is not
/// kept (the library writes nowhere itself: runs collect their output).
pub open spec fn s_emit<N>(env: SEnv<N>, line: Seq<char>) -> SEnv<N> {
    match env.output {
        Some(b) => SEnv { output: Some(b.push(line)), ..env },
        None => env,
    }
}

pub open spec fn store_in<N>(env: SEnv<N>, store: Option<Seq<char>>, v: SValue<N>) -> SEnv<N> {
    match store {
        Some(var) => s_set(env, var, v),
        None => env,
    }
}

/// The `i`-th argument, or nothing when there are fewer arguments.
pub open spec fn arg_at<N>(argv: Seq<SValue<N>>, i: int) -> SValue<N> {
    if 0 <= i < argv.len() {
        argv[i]
    } else {
        SValue::Nil
    }
}

/// Bind `params[i..]` to the arguments in the innermost scope.
pub open spec fn s_bind<N>(env: SEnv<N>, params: Seq<Seq<char>>, argv: Seq<SValue<N>>, i: int) -> SEnv<N>
    decreases params.len() - i,
{
    if i < 0 || i >= params.len() {
        env
    } else {
        s_bind(s_set_local(env, params[i], arg_at(argv, i)), params, argv, i + 1)
    }
}

/// Bind each field (from index `i`) as a variable of the innermost scope.
pub open spec fn s_bind_fields<N>(env: SEnv<N>, fs: Seq<(Seq<char>, SValue<N>)>, i: int) -> SEnv<N>
    decreases fs.len() - i,
{
    if i < 0 || i >= fs.len() {
        env
    } else {
        s_bind_fields(s_set_local(env, fs[i].0, fs[i].1), fs, i + 1)
    }
}

/// The fields of a new object: field `i` gets argument `i`; a repeated field
/// name keeps its last argument.
pub open spec fn s_build<N>(
    fields: Seq<Seq<char>>,
    argv: Seq<SValue<N>>,
    i: int,
    acc: Seq<(Seq<char>, SValue<N>)>,
) -> Seq<(Seq<char>, SValue<N>)>
    decreases fields.len() - i,
{
    if i < 0 || i >= fields.len() {
        acc
    } else {
        s_build(fields, argv, i + 1, insert(acc, fields[i], arg_at(argv, i)))
    }
}

/// The items whose text differs from `target`, in order.
pub open spec fn s_retain<N>(o: Oracle<N>, items: Seq<SValue<N>>, target: Seq<char>) -> Seq<SValue<N>>
    decreases items.len(),
{
    if items.len() == 0 {
        items
    } else if s_str(o, items.last()) != target {
        s_retain(o, items.drop_last(), target).push(items.last())
    } else {
        s_retain(o, items.drop_last(), target)
    }
}

pub open spec fn method_names<N>(ms: Seq<SMethod<N>>) -> Seq<Seq<char>> {
    ms.map_values(|m: SMethod<N>| m.0)
}

/// What a body's signal makes its function return.
pub open spec fn result_of<N>(sig: SSignal<N>) -> SValue<N> {
    match sig {
        SSignal::Return(v) => v,
        _ => SValue::Nil,
    }
}

pub open spec fn count_of(k: i64) -> nat {
    if k > 0 {
        k as nat
    } else {
        0
    }
}

/// The list a `for each` walks: the items of a list, or the value alone.
pub open spec fn items_of<N>(v: SValue<N>) -> Seq<SValue<N>> {
    match v {
        SValue::List(items) => items,
        _ => seq![v],
    }
}

pub open spec fn s_arith_stmt<N>(
    o: Oracle<N>,
    name: Seq<char>,
    e: SExpr<N>,
    op: Op,
    ctx: Seq<char>,
    env: SEnv<N>,
) -> (SRes<SSignal<N>>, SEnv<N>) {
    match s_expr(o, e, env) {
        Err(err) => (Err(err), env),
        Ok(delta) => {
            let current = match s_get(env, name) {
                Some(v) => Ok(v),
                None => num_val(q_count(o, 0)),
            };
            match current {
                Err(err) => (Err(err), env),
                Ok(cur) => match s_num_op(o, cur, delta, op, ctx) {
                    Err(err) => (Err(err), env),
                    Ok(v) => (Ok(SSignal::Normal), s_set(env, name, v)),
                },
            }
        },
    }
}


pub open spec fn s_say<N>(o: Oracle<N>, parts: Seq<SExpr<N>>, env: SEnv<N>) -> (SRes<SSignal<N>>, SEnv<N>) {
    match s_say_parts(o, parts, 0, Seq::empty(), env) {
        Err(e) => (Err(e), env),
        Ok(pieces) => (Ok(SSignal::Normal), s_emit(env, join(pieces, " "@))),
    }
}

pub open spec fn s_assign<N>(o: Oracle<N>, name: Seq<char>, e: SExpr<N>, env: SEnv<N>) -> (SRes<SSignal<N>>, SEnv<N>) {
    match s_expr(o, e, env) {
        Err(e) => (Err(e), env),
        Ok(v) => (Ok(SSignal::Normal), s_set(env, name, v)),
    }
}

pub open spec fn s_add<N>(o: Oracle<N>, e: SExpr<N>, list: Seq<char>, env: SEnv<N>) -> (SRes<SSignal<N>>, SEnv<N>) {
    match s_expr(o, e, env) {
        Err(e) => (Err(e), env),
        Ok(v) => match s_get(env, list) {
            None => (Err(undefined_list(list)), env),
            Some(SValue::List(items)) => (
                Ok(SSignal::Normal),
                s_set(env, list, SValue::List(items.push(v))),
            ),
            Some(_) => (Err(not_a_list(list)), env),
        },
    }
}

pub open spec fn s_remove<N>(o: Oracle<N>, e: SExpr<N>, list: Seq<char>, env: SEnv<N>) -> (SRes<SSignal<N>>, SEnv<N>) {
    match s_expr(o, e, env) {
        Err(e) => (Err(e), env),
        Ok(v) => match s_get(env, list) {
            None => (Err(undefined_list(list)), env),
            Some(SValue::List(items)) => (
                Ok(SSignal::Normal),
                s_set(env, list, SValue::List(s_retain(o, items, s_str(o, v)))),
            ),
            Some(_) => (Err(not_a_list(list)), env),
        },
    }
}

pub open spec fn s_remove_item<N>(o: Oracle<N>, e: SExpr<N>, list: Seq<char>, env: SEnv<N>) -> (SRes<SSignal<N>>, SEnv<N>) {
    match s_expr(o, e, env) {
        Err(e) => (Err(e), env),
        Ok(iv) => match s_to_num(o, iv, "list index"@) {
            Err(e) => (Err(e), env),
            Ok(n) => {
                let idx = q_to_index(o, n);
                match s_get(env, list) {
                    None => (Err(undefined_list(list)), env),
                    Some(SValue::List(items)) => if idx < 1 || idx > items.len() {
                        (Err(out_of_range(idx, list)), env)
                    } else {
                        (
                            Ok(SSignal::Normal),
                            s_set(env, list, SValue::List(items.remove(idx - 1))),
                        )
                    },
                    Some(_) => (Err(not_a_list(list)), env),
                }
            },
        },
    }
}

/// `ask`: the next answer, or the empty text when there are no answers; when
/// the answers have run out the program stops, awaiting one for the prompt.
pub open spec fn s_ask<N>(o: Oracle<N>, words: Seq<Seq<char>>, var: Seq<char>, env: SEnv<N>) -> (SRes<SSignal<N>>, SEnv<N>) {
    let prompt = join(words, " "@);
    match env.input {
        None => (Ok(SSignal::Normal), s_set(env, var, SValue::Str(Seq::empty()))),
        Some(a) => if a.len() > 0 {
            (
                Ok(SSignal::Normal),
                s_set(SEnv { input: Some(a.drop_first()), ..env }, var, SValue::Str(a[0])),
            )
        } else {
            (Err(quoted("OrimaLang Error: no answer for '"@, prompt, "'"@)), SEnv { waiting: Some(prompt), ..env })
        },
    }
}

pub open spec fn s_create<N>(o: Oracle<N>, class: Seq<char>, args: Seq<SExpr<N>>, store: Seq<char>, env: SEnv<N>) -> (SRes<SSignal<N>>, SEnv<N>) {
    match s_args(o, args, 0, Seq::empty(), env) {
        Err(e) => (Err(e), env),
        Ok(argv) => match lookup(env.classes, class) {
            None => (Err(undefined_class(class)), env),
            Some(def) => (
                Ok(SSignal::Normal),
                s_set(
                    env,
                    store,
                    SValue::Object(class, s_build(def.0, argv, 0, Seq::empty())),
                ),
            ),
        },
    }
}

pub open spec fn s_set_field<N>(o: Oracle<N>, obj: Seq<char>, field: Seq<char>, e: SExpr<N>, env: SEnv<N>) -> (SRes<SSignal<N>>, SEnv<N>) {
    match s_expr(o, e, env) {
        Err(e) => (Err(e), env),
        Ok(v) => match s_get(env, obj) {
            None => (Err(undefined_variable(obj)), env),
            Some(SValue::Object(c, fs)) => (
                Ok(SSignal::Normal),
                s_set(env, obj, SValue::Object(c, insert(fs, field, v))),
            ),
            Some(_) => (Err(not_an_object(obj)), env),
        },
    }
}

/// One statement, run with `fuel`.
pub open spec fn s_stmt<N>(o: Oracle<N>, fuel: nat, st: SStmt<N>, env: SEnv<N>) -> (
    SRes<SSignal<N>>,
    SEnv<N>,
)
    decreases fuel, 0nat, 0int,
{
    if fuel == 0 {
        (Err(limit_msg()), env)
    } else {
        let f = (fuel - 1) as nat;
        match st {
            SStmt::Say(parts) => s_say(o, parts, env),
            SStmt::SetVar(name, e) => s_assign(o, name, e, env),
            SStmt::Increase(name, e) => s_arith_stmt(o, name, e, Op::Plus, "increase"@, env),
            SStmt::Decrease(name, e) => s_arith_stmt(o, name, e, Op::Minus, "decrease"@, env),
            SStmt::Multiply(name, e) => s_arith_stmt(o, name, e, Op::Times, "multiply"@, env),
            SStmt::Divide(name, e) => s_arith_stmt(o, name, e, Op::DividedBy, "divide"@, env),
            SStmt::If(c, t, el) => match s_expr(o, c, env) {
                Err(e) => (Err(e), env),
                Ok(cv) => s_block(o, f, if s_truthy(o, cv) {
                    t
                } else {
                    el
                }, 0, env),
            },
            SStmt::Repeat(c, body) => match s_expr(o, c, env) {
                Err(e) => (Err(e), env),
                Ok(cv) => match s_to_num(o, cv, "repeat count"@) {
                    Err(e) => (Err(e), env),
                    Ok(n) => s_repeat(o, f, body, count_of(q_to_count(o, n)), env),
                },
            },
            SStmt::While(c, body) => s_while(o, f, c, body, env),
            SStmt::ForEach(item, list, body) => match s_get(env, list) {
                None => (Err(undefined_variable(list)), env),
                Some(lv) => s_foreach(o, f, item, items_of(lv), 0, body, env),
            },
            SStmt::StopLoop => (Ok(SSignal::Break), env),
            SStmt::SkipToNext => (Ok(SSignal::Continue), env),
            SStmt::CreateList(name) => (
                Ok(SSignal::Normal),
                s_set(env, name, SValue::List(Seq::empty())),
            ),
            SStmt::AddToList(e, list) => s_add(o, e, list, env),
            SStmt::RemoveFromList(e, list) => s_remove(o, e, list, env),
            SStmt::RemoveItemFromList(e, list) => s_remove_item(o, e, list, env),
            SStmt::Define(name, params, body) => (
                Ok(SSignal::Normal),
                SEnv { functions: insert(env.functions, name, (params, body)), ..env },
            ),
            SStmt::Run(name, args, store) => match s_args(o, args, 0, Seq::empty(), env) {
                Err(e) => (Err(e), env),
                Ok(argv) => {
                    let (r, env1) = s_call(o, f, name, argv, env);
                    match r {
                        Err(e) => (Err(e), env1),
                        Ok(v) => (Ok(SSignal::Normal), store_in(env1, store, v)),
                    }
                },
            },
            SStmt::GiveBack(e) => match s_expr(o, e, env) {
                Err(e) => (Err(e), env),
                Ok(v) => (Ok(SSignal::Return(v)), env),
            },
            SStmt::Ask(words, var) => s_ask(o, words, var, env),
            SStmt::DefineClass(name, fields, methods) => (
                Ok(SSignal::Normal),
                SEnv { classes: insert(env.classes, name, (fields, methods)), ..env },
            ),
            SStmt::CreateObject(class, args, store) => s_create(o, class, args, store, env),
            SStmt::SetField(obj, field, e) => s_set_field(o, obj, field, e, env),
            SStmt::RunMethod(m, args, obj, store) => match s_args(o, args, 0, Seq::empty(), env) {
                Err(e) => (Err(e), env),
                Ok(argv) => s_run_method(o, f, m, argv, obj, store, env),
            },
        }
    }
}

/// `stmts[i..]` in order, stopping at the first error or signal other than `Normal`.
pub open spec fn s_block<N>(o: Oracle<N>, fuel: nat, stmts: Seq<SStmt<N>>, i: int, env: SEnv<N>) -> (
    SRes<SSignal<N>>,
    SEnv<N>,
)
    decreases fuel, 1nat, stmts.len() - i,
{
    if i < 0 || i >= stmts.len() {
        (Ok(SSignal::Normal), env)
    } else {
        let (r, env1) = s_stmt(o, fuel, stmts[i], env);
        match r {
            Err(e) => (Err(e), env1),
            Ok(SSignal::Normal) => s_block(o, fuel, stmts, i + 1, env1),
            Ok(sig) => (Ok(sig), env1),
        }
    }
}

/// `remaining` more rounds of a `repeat` body.
pub open spec fn s_repeat<N>(o: Oracle<N>, fuel: nat, body: Seq<SStmt<N>>, remaining: nat, env: SEnv<N>) -> (
    SRes<SSignal<N>>,
    SEnv<N>,
)
    decreases fuel, 0nat, 0int,
{
    if remaining == 0 {
        (Ok(SSignal::Normal), env)
    } else if fuel == 0 {
        (Err(limit_msg()), env)
    } else {
        let (r, env1) = s_block(o, (fuel - 1) as nat, body, 0, env);
        match r {
            Err(e) => (Err(e), env1),
            Ok(SSignal::Break) => (Ok(SSignal::Normal), env1),
            Ok(SSignal::Return(v)) => (Ok(SSignal::Return(v)), env1),
            Ok(_) => s_repeat(o, (fuel - 1) as nat, body, (remaining - 1) as nat, env1),
        }
    }
}

pub open spec fn s_while<N>(o: Oracle<N>, fuel: nat, c: SExpr<N>, body: Seq<SStmt<N>>, env: SEnv<N>) -> (
    SRes<SSignal<N>>,
    SEnv<N>,
)
    decreases fuel, 0nat, 0int,
{
    if fuel == 0 {
        (Err(limit_msg()), env)
    } else {
        match s_expr(o, c, env) {
            Err(e) => (Err(e), env),
            Ok(cv) => if !s_truthy(o, cv) {
                (Ok(SSignal::Normal), env)
            } else {
                let (r, env1) = s_block(o, (fuel - 1) as nat, body, 0, env);
                match r {
                    Err(e) => (Err(e), env1),
                    Ok(SSignal::Break) => (Ok(SSignal::Normal), env1),
                    Ok(SSignal::Return(v)) => (Ok(SSignal::Return(v)), env1),
                    Ok(_) => s_while(o, (fuel - 1) as nat, c, body, env1),
                }
            },
        }
    }
}

pub open spec fn s_foreach<N>(
    o: Oracle<N>,
    fuel: nat,
    item: Seq<char>,
    items: Seq<SValue<N>>,
    i: int,
    body: Seq<SStmt<N>>,
    env: SEnv<N>,
) -> (SRes<SSignal<N>>, SEnv<N>)
    decreases fuel, 0nat, 0int,
{
    if i < 0 || i >= items.len() {
        (Ok(SSignal::Normal), env)
    } else if fuel == 0 {
        (Err(limit_msg()), env)
    } else {
        let (r, env1) = s_block(o, (fuel - 1) as nat, body, 0, s_set(env, item, items[i]));
        match r {
            Err(e) => (Err(e), env1),
            Ok(SSignal::Break) => (Ok(SSignal::Normal), env1),
            Ok(SSignal::Return(v)) => (Ok(SSignal::Return(v)), env1),
            Ok(_) => s_foreach(o, (fuel - 1) as nat, item, items, i + 1, body, env1),
        }
    }
}

/// A call of the function `name`: a new scope with the parameters bound, the
/// body run, the scope dropped, whether the body succeeds or fails.
pub open spec fn s_call<N>(o: Oracle<N>, fuel: nat, name: Seq<char>, argv: Seq<SValue<N>>, env: SEnv<N>) -> (
    SRes<SValue<N>>,
    SEnv<N>,
)
    decreases fuel, 2nat, 0int,
{
    match lookup(env.functions, name) {
        None => (Err(undefined_function(name)), env),
        Some(def) => {
            let env1 = s_bind(s_push(env), def.0, argv, 0);
            let (r, env2) = s_block(o, fuel, def.1, 0, env1);
            match r {
                Err(e) => (Err(e), s_pop(env2)),
                Ok(sig) => (Ok(result_of(sig)), s_pop(env2)),
            }
        },
    }
}

/// A method call: `self` and the fields bound in a new scope, then the
/// parameters; after the body, the object takes the fields of `self`.
pub open spec fn s_run_method<N>(
    o: Oracle<N>,
    fuel: nat,
    m: Seq<char>,
    argv: Seq<SValue<N>>,
    obj: Seq<char>,
    store: Option<Seq<char>>,
    env: SEnv<N>,
) -> (SRes<SSignal<N>>, SEnv<N>)
    decreases fuel, 2nat, 0int,
{
    match s_get(env, obj) {
        None => (Err(undefined_variable(obj)), env),
        Some(SValue::Object(c, ofs)) => match lookup(env.classes, c) {
            None => (Err(undefined_class(c)), env),
            Some(def) => match first_in(method_names(def.1), m) {
                None => (Err(undefined_method(m, c)), env),
                Some(k) => {
                    let method = def.1[k];
                    let env1 = s_set_local(s_push(env), "self"@, SValue::Object(c, ofs));
                    let env2 = s_bind_fields(env1, ofs, 0);
                    let env3 = s_bind(env2, method.1, argv, 0);
                    let (r, env4) = s_block(o, fuel, method.2, 0, env3);
                    match r {
                        Err(e) => (Err(e), s_pop(env4)),
                        Ok(sig) => {
                            let env5 = match s_get(env4, "self"@) {
                                Some(SValue::Object(_, upd)) => s_set(
                                    s_pop(env4),
                                    obj,
                                    SValue::Object(c, upd),
                                ),
                                _ => s_pop(env4),
                            };
                            (Ok(SSignal::Normal), store_in(env5, store, result_of(sig)))
                        },
                    }
                },
            },
        },
        Some(_) => (Err(not_an_object(obj)), env),
    }
}

/// A program: each statement with full fuel; signals at the top are ignored;
/// the first error stops it.
pub open spec fn s_program<N>(o: Oracle<N>, stmts: Seq<SStmt<N>>, i: int, env: SEnv<N>) -> (
    SRes<()>,
    SEnv<N>,
)
    decreases stmts.len() - i,
{
    if i < 0 || i >= stmts.len() {
        (Ok(()), env)
    } else {
        let (r, env1) = s_stmt(o, FUEL as nat, stmts[i], env);
        match r {
            Err(e) => (Err(e), env1),
            Ok(_) => s_program(o, stmts, i + 1, env1),
        }
    }
}

/// Running statements from the `i`-th, each with its line: the first error
/// stops the program and ends with the line of the statement that raised it.
pub open spec fn s_program_lined<N>(
    o: Oracle<N>,
    stmts: Seq<SStmt<N>>,
    lines: Seq<usize>,
    i: int,
    env: SEnv<N>,
) -> (SRes<()>, SEnv<N>)
    decreases stmts.len() - i,
{
    if i < 0 || i >= stmts.len() {
        (Ok(()), env)
    } else {
        let (r, env1) = s_stmt(o, FUEL as nat, stmts[i], env);
        match r {
            Err(e) => (Err(e + on_line(lines[i] as nat)), env1),
            Ok(_) => s_program_lined(o, stmts, lines, i + 1, env1),
        }
    }
}

// ─── Lemmas ─────────────────────────────────────────────────────────────────

pub proof fn lemma_s_strs_push<N>(o: Oracle<N>, t: Seq<SValue<N>>, y: SValue<N>)
    ensures
        s_strs(o, t.push(y)) == s_strs(o, t).push(s_str(o, y)),
{
    assert(t.push(y).drop_last() == t);
}

pub proof fn lemma_s_pairs_push<N>(o: Oracle<N>, t: Seq<(Seq<char>, SValue<N>)>, y: (Seq<char>, SValue<N>))
    ensures
        s_pairs(o, t.push(y)) == s_pairs(o, t).push(y.0 + ": "@ + s_str(o, y.1)),
{
    assert(t.push(y).drop_last() == t);
}

pub proof fn lemma_list_deq<N>(o: Oracle<N>, x: Seq<SValue<N>>, y: Seq<SValue<N>>)
    requires
        x.len() <= y.len(),
    ensures
        s_list_deq(o, x, y) <==> forall|i: int| 0 <= i < x.len() ==> s_deq(o, x[i], #[trigger] y[i]),
    decreases x.len(),
{
    if x.len() > 0 {
        lemma_list_deq(o, x.drop_last(), y);
        if s_list_deq(o, x, y) {
            assert forall|i: int| 0 <= i < x.len() implies s_deq(o, x[i], #[trigger] y[i]) by {
                if i < x.len() - 1 {
                    assert(x.drop_last()[i] == x[i]);
                }
            }
        }
        if forall|i: int| 0 <= i < x.len() ==> s_deq(o, x[i], #[trigger] y[i]) {
            assert forall|i: int| 0 <= i < x.drop_last().len() implies s_deq(o, x.drop_last()[i], #[trigger] y[i]) by {
                assert(x.drop_last()[i] == x[i]);
            }
            assert(s_deq(o, x.last(), y[x.len() - 1]));
        }
    }
}

pub open spec fn field_ok<N>(o: Oracle<N>, p: (Seq<char>, SValue<N>), fb: Seq<(Seq<char>, SValue<N>)>) -> bool {
    match lookup(fb, p.0) {
        Some(v) => s_deq(o, p.1, v),
        None => false,
    }
}

pub proof fn lemma_fields_all<N>(o: Oracle<N>, fa: Seq<(Seq<char>, SValue<N>)>, fb: Seq<(Seq<char>, SValue<N>)>)
    ensures
        s_fields_all(o, fa, fb) <==> forall|i: int| 0 <= i < fa.len() ==> field_ok(o, #[trigger] fa[i], fb),
    decreases fa.len(),
{
    if fa.len() > 0 {
        lemma_fields_all(o, fa.drop_last(), fb);
        if s_fields_all(o, fa, fb) {
            assert forall|i: int| 0 <= i < fa.len() implies field_ok(o, #[trigger] fa[i], fb) by {
                if i < fa.len() - 1 {
                    assert(fa.drop_last()[i] == fa[i]);
                }
            }
        }
        if forall|i: int| 0 <= i < fa.len() ==> field_ok(o, #[trigger] fa[i], fb) {
            assert forall|i: int| 0 <= i < fa.drop_last().len() implies field_ok(o, #[trigger] fa.drop_last()[i], fb) by {
                assert(fa.drop_last()[i] == fa[i]);
            }
            assert(field_ok(o, fa[fa.len() - 1], fb));
        }
    }
}

} // verus!
