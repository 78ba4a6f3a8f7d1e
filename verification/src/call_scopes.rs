//! Functions have their own scope: running statements binds new names only in
//! the innermost scope, so a call, which opens a scope and drops it again,
//! leaves every outer scope binding the names it bound before; so does a
//! method call, but for the variable it stores its result in.
use vstd::prelude::*;

use crate::assoc::{first_in, insert, keys_of, lemma_first_in, lookup};
use crate::evaluator::{frame_holding, s_get, s_pop, s_push, s_set, s_set_local, SEnv};
use crate::laws::{lemma_frame_holding, law_set_keeps_others};
use crate::parser::{SStmt, SValue};
use crate::semantics::{
    s_bind, s_bind_fields, s_block, s_call, s_foreach, s_repeat, s_run_method, s_stmt, s_while, store_in,
    Oracle,
};

verus! {

/// As many scopes, and every scope but the innermost binds the same names.
pub open spec fn outer_kept<N>(a: SEnv<N>, b: SEnv<N>) -> bool {
    &&& b.frames.len() == a.frames.len()
    &&& forall|i: int| 0 <= i < a.frames.len() - 1 ==> keys_of(#[trigger] b.frames[i]) == keys_of(a.frames[i])
}

/// As many scopes, and every scope binds the same names.
pub open spec fn all_kept<N>(a: SEnv<N>, b: SEnv<N>) -> bool {
    &&& b.frames.len() == a.frames.len()
    &&& forall|i: int| 0 <= i < a.frames.len() ==> keys_of(#[trigger] b.frames[i]) == keys_of(a.frames[i])
}

proof fn lemma_kept_trans<N>(a: SEnv<N>, b: SEnv<N>, c: SEnv<N>)
    requires
        outer_kept(a, b),
        outer_kept(b, c),
    ensures
        outer_kept(a, c),
{
    assert forall|i: int| 0 <= i < a.frames.len() - 1 implies keys_of(#[trigger] c.frames[i]) == keys_of(
        a.frames[i],
    ) by {
        assert(keys_of(c.frames[i]) == keys_of(b.frames[i]));
    }
}

proof fn lemma_insert_present<V>(s: Seq<(Seq<char>, V)>, k: Seq<char>, v: V)
    requires
        first_in(keys_of(s), k) is Some,
    ensures
        keys_of(insert(s, k, v)) == keys_of(s),
{
    lemma_first_in(keys_of(s), k);
    let i = first_in(keys_of(s), k)->0;
    assert(keys_of(s)[i] == s[i].0);
    assert(keys_of(insert(s, k, v)) =~= keys_of(s));
}

proof fn lemma_set_kept<N>(env: SEnv<N>, k: Seq<char>, v: SValue<N>)
    requires
        env.frames.len() >= 1,
    ensures
        outer_kept(env, s_set(env, k, v)),
{
    let fs = env.frames;
    lemma_frame_holding(fs, k);
    match frame_holding(fs, k) {
        Some(i) => {
            lemma_insert_present(fs[i], k, v);
        },
        None => {},
    }
    let b = s_set(env, k, v);
    assert forall|j: int| 0 <= j < fs.len() - 1 implies keys_of(#[trigger] b.frames[j]) == keys_of(fs[j]) by {
        match frame_holding(fs, k) {
            Some(i) => {
                if j == i {
                } else {
                    assert(b.frames[j] == fs[j]);
                }
            },
            None => {
                assert(b.frames[j] == fs[j]);
            },
        }
    }
}

proof fn lemma_set_local_kept<N>(env: SEnv<N>, k: Seq<char>, v: SValue<N>)
    requires
        env.frames.len() >= 1,
    ensures
        outer_kept(env, s_set_local(env, k, v)),
{
    let b = s_set_local(env, k, v);
    assert forall|j: int| 0 <= j < env.frames.len() - 1 implies keys_of(#[trigger] b.frames[j]) == keys_of(
        env.frames[j],
    ) by {
        assert(b.frames[j] == env.frames[j]);
    }
}

proof fn lemma_bind_kept<N>(env: SEnv<N>, params: Seq<Seq<char>>, argv: Seq<SValue<N>>, i: int)
    requires
        env.frames.len() >= 1,
    ensures
        outer_kept(env, s_bind(env, params, argv, i)),
    decreases params.len() - i,
{
    if 0 <= i < params.len() {
        let e1 = s_set_local(env, params[i], crate::semantics::arg_at(argv, i));
        lemma_set_local_kept(env, params[i], crate::semantics::arg_at(argv, i));
        lemma_bind_kept(e1, params, argv, i + 1);
        lemma_kept_trans(env, e1, s_bind(e1, params, argv, i + 1));
    }
}

proof fn lemma_bind_fields_kept<N>(env: SEnv<N>, fs: Seq<(Seq<char>, SValue<N>)>, i: int)
    requires
        env.frames.len() >= 1,
    ensures
        outer_kept(env, s_bind_fields(env, fs, i)),
    decreases fs.len() - i,
{
    if 0 <= i < fs.len() {
        let e1 = s_set_local(env, fs[i].0, fs[i].1);
        lemma_set_local_kept(env, fs[i].0, fs[i].1);
        lemma_bind_fields_kept(e1, fs, i + 1);
        lemma_kept_trans(env, e1, s_bind_fields(e1, fs, i + 1));
    }
}

/// Opening a scope, running in it and closing it keeps every scope there was.
proof fn lemma_scope_closed<N>(env: SEnv<N>, inner: SEnv<N>, after: SEnv<N>)
    requires
        env.frames.len() >= 1,
        outer_kept(s_push(env), inner),
        outer_kept(inner, after),
    ensures
        all_kept(env, s_pop(after)),
{
    lemma_kept_trans(s_push(env), inner, after);
    let p = s_pop(after);
    assert forall|i: int| 0 <= i < env.frames.len() implies keys_of(#[trigger] p.frames[i]) == keys_of(
        env.frames[i],
    ) by {
        assert(p.frames[i] == after.frames[i]);
        assert(s_push(env).frames[i] == env.frames[i]);
    }
}

proof fn lemma_call_kept<N>(o: Oracle<N>, fuel: nat, name: Seq<char>, argv: Seq<SValue<N>>, env: SEnv<N>)
    requires
        env.frames.len() >= 1,
    ensures
        all_kept(env, s_call(o, fuel, name, argv, env).1),
    decreases fuel, 2nat, 0int,
{
    match lookup(env.functions, name) {
        None => {},
        Some(def) => {
            let pushed = s_push(env);
            let env1 = s_bind(pushed, def.0, argv, 0);
            lemma_bind_kept(pushed, def.0, argv, 0);
            lemma_block_kept(o, fuel, def.1, 0, env1);
            let env2 = s_block(o, fuel, def.1, 0, env1).1;
            lemma_scope_closed(env, env1, env2);
        },
    }
}

proof fn lemma_run_method_kept<N>(
    o: Oracle<N>,
    fuel: nat,
    m: Seq<char>,
    argv: Seq<SValue<N>>,
    obj: Seq<char>,
    store: Option<Seq<char>>,
    env: SEnv<N>,
)
    requires
        env.frames.len() >= 1,
    ensures
        outer_kept(env, s_run_method(o, fuel, m, argv, obj, store, env).1),
    decreases fuel, 2nat, 0int,
{
    match s_get(env, obj) {
        Some(SValue::Object(c, ofs)) => match lookup(env.classes, c) {
            Some(def) => match first_in(crate::semantics::method_names(def.1), m) {
                Some(k) => {
                    let method = def.1[k];
                    let pushed = s_push(env);
                    let env1 = s_set_local(pushed, "self"@, SValue::Object(c, ofs));
                    lemma_set_local_kept(pushed, "self"@, SValue::Object(c, ofs));
                    let env2 = s_bind_fields(env1, ofs, 0);
                    lemma_bind_fields_kept(env1, ofs, 0);
                    let env3 = s_bind(env2, method.1, argv, 0);
                    lemma_bind_kept(env2, method.1, argv, 0);
                    lemma_kept_trans(pushed, env1, env2);
                    lemma_kept_trans(pushed, env2, env3);
                    lemma_block_kept(o, fuel, method.2, 0, env3);
                    let (r, env4) = s_block(o, fuel, method.2, 0, env3);
                    lemma_scope_closed(env, env3, env4);
                    let popped = s_pop(env4);
                    match r {
                        Err(_) => {},
                        Ok(sig) => {
                            let env5 = match s_get(env4, "self"@) {
                                Some(SValue::Object(_, upd)) => s_set(popped, obj, SValue::Object(c, upd)),
                                _ => popped,
                            };
                            match s_get(env4, "self"@) {
                                Some(SValue::Object(_, upd)) => {
                                    lemma_set_kept(popped, obj, SValue::Object(c, upd));
                                    lemma_kept_trans(env, popped, env5);
                                },
                                _ => {},
                            }
                            lemma_store_kept(env5, store, crate::semantics::result_of(sig));
                            lemma_kept_trans(env, env5, store_in(env5, store, crate::semantics::result_of(sig)));
                        },
                    }
                },
                None => {},
            },
            None => {},
        },
        _ => {},
    }
}

proof fn lemma_store_kept<N>(env: SEnv<N>, store: Option<Seq<char>>, v: SValue<N>)
    requires
        env.frames.len() >= 1,
    ensures
        outer_kept(env, store_in(env, store, v)),
{
    match store {
        Some(var) => lemma_set_kept(env, var, v),
        None => {},
    }
}

proof fn lemma_stmt_kept<N>(o: Oracle<N>, fuel: nat, st: SStmt<N>, env: SEnv<N>)
    requires
        env.frames.len() >= 1,
    ensures
        outer_kept(env, s_stmt(o, fuel, st, env).1),
    decreases fuel, 0nat, 0int,
{
    if fuel > 0 {
        let f = (fuel - 1) as nat;
        match st {
            SStmt::Say(parts) => {},
            SStmt::SetVar(name, e) => {
                match crate::semantics::s_expr(o, e, env) {
                    Ok(v) => lemma_set_kept(env, name, v),
                    Err(_) => {},
                }
            },
            SStmt::Increase(name, e) => lemma_arith_kept(o, name, e, crate::parser::Op::Plus, "increase"@, env),
            SStmt::Decrease(name, e) => lemma_arith_kept(o, name, e, crate::parser::Op::Minus, "decrease"@, env),
            SStmt::Multiply(name, e) => lemma_arith_kept(o, name, e, crate::parser::Op::Times, "multiply"@, env),
            SStmt::Divide(name, e) => lemma_arith_kept(o, name, e, crate::parser::Op::DividedBy, "divide"@, env),
            SStmt::If(c, t, el) => {
                lemma_block_kept(o, f, t, 0, env);
                lemma_block_kept(o, f, el, 0, env);
            },
            SStmt::Repeat(c, body) => {
                match crate::semantics::s_expr(o, c, env) {
                    Ok(cv) => match crate::semantics::s_to_num(o, cv, "repeat count"@) {
                        Ok(n) => lemma_repeat_kept(
                            o,
                            f,
                            body,
                            crate::semantics::count_of(crate::host::q_to_count(o, n)),
                            env,
                        ),
                        Err(_) => {},
                    },
                    Err(_) => {},
                }
            },
            SStmt::While(c, body) => lemma_while_kept(o, f, c, body, env),
            SStmt::ForEach(item, list, body) => {
                match s_get(env, list) {
                    Some(lv) => lemma_foreach_kept(o, f, item, crate::semantics::items_of(lv), 0, body, env),
                    None => {},
                }
            },
            SStmt::CreateList(name) => lemma_set_kept(env, name, SValue::List(Seq::empty())),
            SStmt::AddToList(e, list) => {
                match crate::semantics::s_expr(o, e, env) {
                    Ok(v) => match s_get(env, list) {
                        Some(SValue::List(items)) => lemma_set_kept(env, list, SValue::List(items.push(v))),
                        _ => {},
                    },
                    Err(_) => {},
                }
            },
            SStmt::RemoveFromList(e, list) => {
                match crate::semantics::s_expr(o, e, env) {
                    Ok(v) => match s_get(env, list) {
                        Some(SValue::List(items)) => lemma_set_kept(
                            env,
                            list,
                            SValue::List(crate::semantics::s_retain(o, items, crate::semantics::s_str(o, v))),
                        ),
                        _ => {},
                    },
                    Err(_) => {},
                }
            },
            SStmt::RemoveItemFromList(e, list) => {
                match crate::semantics::s_expr(o, e, env) {
                    Ok(iv) => match crate::semantics::s_to_num(o, iv, "list index"@) {
                        Ok(n) => {
                            let idx = crate::host::q_to_index(o, n);
                            match s_get(env, list) {
                                Some(SValue::List(items)) => if 1 <= idx <= items.len() {
                                    lemma_set_kept(env, list, SValue::List(items.remove(idx - 1)));
                                },
                                _ => {},
                            }
                        },
                        Err(_) => {},
                    },
                    Err(_) => {},
                }
            },
            SStmt::Define(name, params, body) => {},
            SStmt::Run(name, args, store) => {
                match crate::semantics::s_args(o, args, 0, Seq::empty(), env) {
                    Ok(argv) => {
                        lemma_call_kept(o, f, name, argv, env);
                        let (r, env1) = s_call(o, f, name, argv, env);
                        match r {
                            Ok(v) => {
                                lemma_store_kept(env1, store, v);
                                lemma_kept_trans(env, env1, store_in(env1, store, v));
                            },
                            Err(_) => {},
                        }
                    },
                    Err(_) => {},
                }
            },
            SStmt::GiveBack(e) => {},
            SStmt::StopLoop => {},
            SStmt::SkipToNext => {},
            SStmt::Ask(words, var) => {
                match env.input {
                    None => lemma_set_kept(env, var, SValue::Str(Seq::empty())),
                    Some(a) => if a.len() > 0 {
                        let e1 = SEnv { input: Some(a.drop_first()), ..env };
                        lemma_set_kept(e1, var, SValue::Str(a[0]));
                    },
                }
            },
            SStmt::DefineClass(name, fields, methods) => {},
            SStmt::CreateObject(class, args, store) => {
                match crate::semantics::s_args(o, args, 0, Seq::empty(), env) {
                    Ok(argv) => match lookup(env.classes, class) {
                        Some(def) => lemma_set_kept(
                            env,
                            store,
                            SValue::Object(class, crate::semantics::s_build(def.0, argv, 0, Seq::empty())),
                        ),
                        None => {},
                    },
                    Err(_) => {},
                }
            },
            SStmt::SetField(obj, field, e) => {
                match crate::semantics::s_expr(o, e, env) {
                    Ok(v) => match s_get(env, obj) {
                        Some(SValue::Object(c, fs)) => lemma_set_kept(
                            env,
                            obj,
                            SValue::Object(c, insert(fs, field, v)),
                        ),
                        _ => {},
                    },
                    Err(_) => {},
                }
            },
            SStmt::RunMethod(m, args, obj, store) => {
                match crate::semantics::s_args(o, args, 0, Seq::empty(), env) {
                    Ok(argv) => lemma_run_method_kept(o, f, m, argv, obj, store, env),
                    Err(_) => {},
                }
            },
        }
    }
}

proof fn lemma_arith_kept<N>(
    o: Oracle<N>,
    name: Seq<char>,
    e: crate::parser::SExpr<N>,
    op: crate::parser::Op,
    kind: Seq<char>,
    env: SEnv<N>,
)
    requires
        env.frames.len() >= 1,
    ensures
        outer_kept(env, crate::semantics::s_arith_stmt(o, name, e, op, kind, env).1),
{
    assert forall|v: SValue<N>| outer_kept(env, #[trigger] s_set(env, name, v)) by {
        lemma_set_kept(env, name, v);
    }
}

proof fn lemma_block_kept<N>(o: Oracle<N>, fuel: nat, stmts: Seq<SStmt<N>>, i: int, env: SEnv<N>)
    requires
        env.frames.len() >= 1,
    ensures
        outer_kept(env, s_block(o, fuel, stmts, i, env).1),
    decreases fuel, 1nat, stmts.len() - i,
{
    if 0 <= i < stmts.len() {
        lemma_stmt_kept(o, fuel, stmts[i], env);
        let (r, env1) = s_stmt(o, fuel, stmts[i], env);
        match r {
            Ok(crate::evaluator::SSignal::Normal) => {
                lemma_block_kept(o, fuel, stmts, i + 1, env1);
                lemma_kept_trans(env, env1, s_block(o, fuel, stmts, i + 1, env1).1);
            },
            _ => {},
        }
    }
}

proof fn lemma_repeat_kept<N>(o: Oracle<N>, fuel: nat, body: Seq<SStmt<N>>, remaining: nat, env: SEnv<N>)
    requires
        env.frames.len() >= 1,
    ensures
        outer_kept(env, s_repeat(o, fuel, body, remaining, env).1),
    decreases fuel, 0nat, 0int,
{
    if remaining > 0 && fuel > 0 {
        let f = (fuel - 1) as nat;
        lemma_block_kept(o, f, body, 0, env);
        let (r, env1) = s_block(o, f, body, 0, env);
        match r {
            Ok(crate::evaluator::SSignal::Normal) | Ok(crate::evaluator::SSignal::Continue) => {
                lemma_repeat_kept(o, f, body, (remaining - 1) as nat, env1);
                lemma_kept_trans(env, env1, s_repeat(o, f, body, (remaining - 1) as nat, env1).1);
            },
            _ => {},
        }
    }
}

proof fn lemma_while_kept<N>(
    o: Oracle<N>,
    fuel: nat,
    c: crate::parser::SExpr<N>,
    body: Seq<SStmt<N>>,
    env: SEnv<N>,
)
    requires
        env.frames.len() >= 1,
    ensures
        outer_kept(env, s_while(o, fuel, c, body, env).1),
    decreases fuel, 0nat, 0int,
{
    if fuel > 0 {
        let f = (fuel - 1) as nat;
        lemma_block_kept(o, f, body, 0, env);
        let (r, env1) = s_block(o, f, body, 0, env);
        match r {
            Ok(crate::evaluator::SSignal::Normal) | Ok(crate::evaluator::SSignal::Continue) => {
                lemma_while_kept(o, f, c, body, env1);
                lemma_kept_trans(env, env1, s_while(o, f, c, body, env1).1);
            },
            _ => {},
        }
    }
}

proof fn lemma_foreach_kept<N>(
    o: Oracle<N>,
    fuel: nat,
    item: Seq<char>,
    items: Seq<SValue<N>>,
    i: int,
    body: Seq<SStmt<N>>,
    env: SEnv<N>,
)
    requires
        env.frames.len() >= 1,
    ensures
        outer_kept(env, s_foreach(o, fuel, item, items, i, body, env).1),
    decreases fuel, 0nat, 0int,
{
    if 0 <= i < items.len() && fuel > 0 {
        let f = (fuel - 1) as nat;
        let e0 = s_set(env, item, items[i]);
        lemma_set_kept(env, item, items[i]);
        lemma_block_kept(o, f, body, 0, e0);
        lemma_kept_trans(env, e0, s_block(o, f, body, 0, e0).1);
        let (r, env1) = s_block(o, f, body, 0, e0);
        match r {
            Ok(crate::evaluator::SSignal::Normal) | Ok(crate::evaluator::SSignal::Continue) => {
                lemma_foreach_kept(o, f, item, items, i + 1, body, env1);
                lemma_kept_trans(env, env1, s_foreach(o, f, item, items, i + 1, body, env1).1);
            },
            _ => {},
        }
    }
}

/// Scopes that bind the same names make the same names unbound.
proof fn lemma_unbound_kept<N>(a: SEnv<N>, b: SEnv<N>, k: Seq<char>)
    requires
        all_kept(a, b),
        s_get(a, k) is None,
    ensures
        s_get(b, k) is None,
{
    lemma_frame_holding(a.frames, k);
    lemma_frame_holding(b.frames, k);
    match frame_holding(a.frames, k) {
        Some(i) => {},
        None => {
            match frame_holding(b.frames, k) {
                Some(i) => {
                    assert(keys_of(b.frames[i]) == keys_of(a.frames[i]));
                    assert(lookup(a.frames[i], k) is None);
                },
                None => {},
            }
        },
    }
}

/// Functions have their own scope: a name that no scope binds before a call
/// (`s_call`, the result of the evaluator's `call_function`) is bound by none
/// after it, whether the call succeeds or fails; the parameters and the
/// variables the body creates go with the call.
pub proof fn law_call_keeps_no_locals<N>(
    o: Oracle<N>,
    fuel: nat,
    name: Seq<char>,
    argv: Seq<SValue<N>>,
    env: SEnv<N>,
    k: Seq<char>,
)
    requires
        env.frames.len() >= 1,
        s_get(env, k) is None,
    ensures
        s_get(s_call(o, fuel, name, argv, env).1, k) is None,
{
    lemma_call_kept(o, fuel, name, argv, env);
    lemma_unbound_kept(env, s_call(o, fuel, name, argv, env).1, k);
}

/// Methods have their own scope too: a name that no scope binds before a
/// method call is bound by none after it, whether the call succeeds or fails,
/// unless the call stores its result under that name.
pub proof fn law_method_call_keeps_no_locals<N>(
    o: Oracle<N>,
    fuel: nat,
    m: Seq<char>,
    argv: Seq<SValue<N>>,
    obj: Seq<char>,
    store: Option<Seq<char>>,
    env: SEnv<N>,
    k: Seq<char>,
)
    requires
        env.frames.len() >= 1,
        s_get(env, k) is None,
        store != Some(k),
    ensures
        s_get(s_run_method(o, fuel, m, argv, obj, store, env).1, k) is None,
{
    match s_get(env, obj) {
        Some(SValue::Object(c, ofs)) => match lookup(env.classes, c) {
            Some(def) => match first_in(crate::semantics::method_names(def.1), m) {
                Some(j) => {
                    let method = def.1[j];
                    let pushed = s_push(env);
                    let env1 = s_set_local(pushed, "self"@, SValue::Object(c, ofs));
                    lemma_set_local_kept(pushed, "self"@, SValue::Object(c, ofs));
                    let env2 = s_bind_fields(env1, ofs, 0);
                    lemma_bind_fields_kept(env1, ofs, 0);
                    let env3 = s_bind(env2, method.1, argv, 0);
                    lemma_bind_kept(env2, method.1, argv, 0);
                    lemma_kept_trans(pushed, env1, env2);
                    lemma_kept_trans(pushed, env2, env3);
                    lemma_block_kept(o, fuel, method.2, 0, env3);
                    let (r, env4) = s_block(o, fuel, method.2, 0, env3);
                    lemma_scope_closed(env, env3, env4);
                    let popped = s_pop(env4);
                    lemma_unbound_kept(env, popped, k);
                    match r {
                        Err(_) => {},
                        Ok(sig) => {
                            let env5 = match s_get(env4, "self"@) {
                                Some(SValue::Object(_, upd)) => s_set(popped, obj, SValue::Object(c, upd)),
                                _ => popped,
                            };
                            match s_get(env4, "self"@) {
                                Some(SValue::Object(_, upd)) => {
                                    law_set_keeps_others(popped, obj, SValue::Object(c, upd), k);
                                },
                                _ => {},
                            }
                            match store {
                                Some(var) => law_set_keeps_others(
                                    env5,
                                    var,
                                    crate::semantics::result_of(sig),
                                    k,
                                ),
                                None => {},
                            }
                        },
                    }
                },
                None => {},
            },
            None => {},
        },
        _ => {},
    }
}

} // verus!
