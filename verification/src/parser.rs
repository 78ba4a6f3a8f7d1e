//! The syntax tree of OrimaLang and the parser that builds it from tokens.
use vstd::prelude::*;


use crate::grammar::{
    s_clause_lines, s_lines, s_program_lines, s_statement_lines, lemma_clause_lines_acc, first_text, lemma_first_text, eof_from, fault_at, if_done, is_end_marker, is_word, lemma_first_word,
    lemma_last_word, lemma_stmt_end, lemma_weight, lemma_words, one, s_add, s_args, s_arith,
    s_body, s_class_body, s_clauses, s_create_list, s_create_object, s_define, s_define_class,
    s_expr, s_for_each, s_give_back, s_if, s_one, s_one_tokens, s_parse, s_program_from,
    s_remove, s_repeat, s_run, s_run_method, s_say, s_set, s_set_var, s_statement, s_while,
    s_ask, starts_kw, stmt_end, store_var, taking_names, weight, PRes, SFault,
};
use crate::lexer::{toks_view, SSpanned, Spanned, Token};
use crate::reading::{
    clone_tokens, cls_view, fault, lemma_tv_sub, name_of_toks, names_after, parse_and_values,
    parse_expr, parse_value_expr, position_text, position_word, pv_exprs, rposition_word,
    split_tokens, texts_of, tok_is_word, tok_word, word_at_exec, words_of, Fault,
};
use crate::text::{concat, concat3, is_kw, join_strings, on_line_text, views};


verus! {

// ─── Values ─────────────────────────────────────────────────────────────────

/// A runtime value. `N` is the number type that the host computes with.
#[derive(Debug, PartialEq)]
pub enum Value<N> {
    Str(String),
    Num(N),
    Bool(bool),
    List(Vec<Value<N>>),
    /// Class name and fields, each field name at most once.
    Object(String, Vec<(String, Value<N>)>),
    Nil,
}

/// The mathematical view of a [`Value`].
pub enum SValue<N> {
    Str(Seq<char>),
    Num(N),
    Bool(bool),
    List(Seq<SValue<N>>),
    Object(Seq<char>, Seq<(Seq<char>, SValue<N>)>),
    Nil,
}

pub open spec fn sv<N>(v: Value<N>) -> SValue<N>
    decreases v, 0nat,
{
    match v {
        Value::Str(s) => SValue::Str(s@),
        Value::Num(n) => SValue::Num(n),
        Value::Bool(b) => SValue::Bool(b),
        Value::List(items) => SValue::List(sv_list(items@)),
        Value::Object(c, f) => SValue::Object(c@, sv_fields(f@)),
        Value::Nil => SValue::Nil,
    }
}

pub open spec fn sv_list<N>(s: Seq<Value<N>>) -> Seq<SValue<N>>
    decreases s, 1nat,
{
    if s.len() == 0 {
        Seq::empty()
    } else {
        sv_list(s.drop_last()).push(sv(s.last()))
    }
}

pub open spec fn sv_fields<N>(s: Seq<(String, Value<N>)>) -> Seq<(Seq<char>, SValue<N>)>
    decreases s, 1nat,
{
    if s.len() == 0 {
        Seq::empty()
    } else {
        sv_fields(s.drop_last()).push((s.last().0@, sv(s.last().1)))
    }
}

impl<N> View for Value<N> {
    type V = SValue<N>;

    open spec fn view(&self) -> SValue<N> {
        sv(*self)
    }
}

// ─── Expression AST ─────────────────────────────────────────────────────────

#[derive(Debug, Clone, Copy, PartialEq, Eq, Structural)]
pub enum Comparison {
    Is,
    IsNot,
    GreaterThan,
    LessThan,
    AtLeast,
    AtMost,
    Contains,
    StartsWith,
    EndsWith,
}

#[derive(Debug, Clone, Copy, PartialEq, Eq, Structural)]
pub enum Op {
    Plus,
    Minus,
    Times,
    DividedBy,
    Remainder,
}

#[derive(Debug, Clone, Copy, PartialEq, Eq, Structural)]
pub enum LogicOp {
    And,
    Or,
}

#[derive(Debug)]
pub enum Expr<N> {
    Literal(Value<N>),
    Variable(String),
    BinaryOp(Box<Expr<N>>, Op, Box<Expr<N>>),
    Condition(Box<Expr<N>>, Comparison, Box<Expr<N>>),
    LogicalOp(Box<Expr<N>>, LogicOp, Box<Expr<N>>),
    Not(Box<Expr<N>>),
    ItemFrom(Box<Expr<N>>, String),
    SizeOf(String),
    LengthOf(String),
    JoinedWith(Box<Expr<N>>, Box<Expr<N>>),
    InUppercase(Box<Expr<N>>),
    InLowercase(Box<Expr<N>>),
    /// Concatenation of the parts' texts.
    Concat(Vec<Expr<N>>),
    /// Object variable and field name.
    GetField(String, String),
}

pub enum SExpr<N> {
    Literal(SValue<N>),
    Variable(Seq<char>),
    BinaryOp(Box<SExpr<N>>, Op, Box<SExpr<N>>),
    Condition(Box<SExpr<N>>, Comparison, Box<SExpr<N>>),
    LogicalOp(Box<SExpr<N>>, LogicOp, Box<SExpr<N>>),
    Not(Box<SExpr<N>>),
    ItemFrom(Box<SExpr<N>>, Seq<char>),
    SizeOf(Seq<char>),
    LengthOf(Seq<char>),
    JoinedWith(Box<SExpr<N>>, Box<SExpr<N>>),
    InUppercase(Box<SExpr<N>>),
    InLowercase(Box<SExpr<N>>),
    Concat(Seq<SExpr<N>>),
    GetField(Seq<char>, Seq<char>),
}

pub open spec fn se<N>(e: Expr<N>) -> SExpr<N>
    decreases e, 0nat,
{
    match e {
        Expr::Literal(v) => SExpr::Literal(sv(v)),
        Expr::Variable(s) => SExpr::Variable(s@),
        Expr::BinaryOp(l, op, r) => SExpr::BinaryOp(Box::new(se(*l)), op, Box::new(se(*r))),
        Expr::Condition(l, c, r) => SExpr::Condition(Box::new(se(*l)), c, Box::new(se(*r))),
        Expr::LogicalOp(l, op, r) => SExpr::LogicalOp(Box::new(se(*l)), op, Box::new(se(*r))),
        Expr::Not(x) => SExpr::Not(Box::new(se(*x))),
        Expr::ItemFrom(x, s) => SExpr::ItemFrom(Box::new(se(*x)), s@),
        Expr::SizeOf(s) => SExpr::SizeOf(s@),
        Expr::LengthOf(s) => SExpr::LengthOf(s@),
        Expr::JoinedWith(l, r) => SExpr::JoinedWith(Box::new(se(*l)), Box::new(se(*r))),
        Expr::InUppercase(x) => SExpr::InUppercase(Box::new(se(*x))),
        Expr::InLowercase(x) => SExpr::InLowercase(Box::new(se(*x))),
        Expr::Concat(parts) => SExpr::Concat(se_list(parts@)),
        Expr::GetField(o, f) => SExpr::GetField(o@, f@),
    }
}

pub open spec fn se_list<N>(s: Seq<Expr<N>>) -> Seq<SExpr<N>>
    decreases s, 1nat,
{
    if s.len() == 0 {
        Seq::empty()
    } else {
        se_list(s.drop_last()).push(se(s.last()))
    }
}

impl<N> View for Expr<N> {
    type V = SExpr<N>;

    open spec fn view(&self) -> SExpr<N> {
        se(*self)
    }
}

// ─── Statement AST ──────────────────────────────────────────────────────────

#[derive(Debug)]
pub enum Stmt<N> {
    Say(Vec<Expr<N>>),
    SetVar(String, Expr<N>),
    Increase(String, Expr<N>),
    Decrease(String, Expr<N>),
    Multiply(String, Expr<N>),
    Divide(String, Expr<N>),
    If(Expr<N>, Vec<Stmt<N>>, Vec<Stmt<N>>),
    Repeat(Expr<N>, Vec<Stmt<N>>),
    While(Expr<N>, Vec<Stmt<N>>),
    ForEach(String, String, Vec<Stmt<N>>),
    StopLoop,
    SkipToNext,
    CreateList(String),
    AddToList(Expr<N>, String),
    RemoveFromList(Expr<N>, String),
    RemoveItemFromList(Expr<N>, String),
    Define(String, Vec<String>, Vec<Stmt<N>>),
    Run(String, Vec<Expr<N>>, Option<String>),
    GiveBack(Expr<N>),
    Ask(Vec<String>, String),
    /// Class name, field names, methods as (name, parameters, body).
    DefineClass(String, Vec<String>, Vec<(String, Vec<String>, Vec<Stmt<N>>)>),
    /// Class name, constructor arguments, variable to store in.
    CreateObject(String, Vec<Expr<N>>, String),
    /// Object variable, field name, value.
    SetField(String, String, Expr<N>),
    /// Method name, arguments, object variable, variable to store in.
    RunMethod(String, Vec<Expr<N>>, String, Option<String>),
}

pub enum SStmt<N> {
    Say(Seq<SExpr<N>>),
    SetVar(Seq<char>, SExpr<N>),
    Increase(Seq<char>, SExpr<N>),
    Decrease(Seq<char>, SExpr<N>),
    Multiply(Seq<char>, SExpr<N>),
    Divide(Seq<char>, SExpr<N>),
    If(SExpr<N>, Seq<SStmt<N>>, Seq<SStmt<N>>),
    Repeat(SExpr<N>, Seq<SStmt<N>>),
    While(SExpr<N>, Seq<SStmt<N>>),
    ForEach(Seq<char>, Seq<char>, Seq<SStmt<N>>),
    StopLoop,
    SkipToNext,
    CreateList(Seq<char>),
    AddToList(SExpr<N>, Seq<char>),
    RemoveFromList(SExpr<N>, Seq<char>),
    RemoveItemFromList(SExpr<N>, Seq<char>),
    Define(Seq<char>, Seq<Seq<char>>, Seq<SStmt<N>>),
    Run(Seq<char>, Seq<SExpr<N>>, Option<Seq<char>>),
    GiveBack(SExpr<N>),
    Ask(Seq<Seq<char>>, Seq<char>),
    DefineClass(Seq<char>, Seq<Seq<char>>, Seq<SMethod<N>>),
    CreateObject(Seq<char>, Seq<SExpr<N>>, Seq<char>),
    SetField(Seq<char>, Seq<char>, SExpr<N>),
    RunMethod(Seq<char>, Seq<SExpr<N>>, Seq<char>, Option<Seq<char>>),
}

/// A method: name, parameters, body.
pub type SMethod<N> = (Seq<char>, Seq<Seq<char>>, Seq<SStmt<N>>);

pub open spec fn opt_view(o: Option<String>) -> Option<Seq<char>> {
    match o {
        Some(s) => Some(s@),
        None => None,
    }
}

pub open spec fn ss<N>(s: Stmt<N>) -> SStmt<N>
    decreases s, 0nat,
{
    match s {
        Stmt::Say(parts) => SStmt::Say(se_list(parts@)),
        Stmt::SetVar(n, e) => SStmt::SetVar(n@, se(e)),
        Stmt::Increase(n, e) => SStmt::Increase(n@, se(e)),
        Stmt::Decrease(n, e) => SStmt::Decrease(n@, se(e)),
        Stmt::Multiply(n, e) => SStmt::Multiply(n@, se(e)),
        Stmt::Divide(n, e) => SStmt::Divide(n@, se(e)),
        Stmt::If(c, t, e) => SStmt::If(se(c), ss_list(t@), ss_list(e@)),
        Stmt::Repeat(c, b) => SStmt::Repeat(se(c), ss_list(b@)),
        Stmt::While(c, b) => SStmt::While(se(c), ss_list(b@)),
        Stmt::ForEach(i, l, b) => SStmt::ForEach(i@, l@, ss_list(b@)),
        Stmt::StopLoop => SStmt::StopLoop,
        Stmt::SkipToNext => SStmt::SkipToNext,
        Stmt::CreateList(n) => SStmt::CreateList(n@),
        Stmt::AddToList(e, n) => SStmt::AddToList(se(e), n@),
        Stmt::RemoveFromList(e, n) => SStmt::RemoveFromList(se(e), n@),
        Stmt::RemoveItemFromList(e, n) => SStmt::RemoveItemFromList(se(e), n@),
        Stmt::Define(n, p, b) => SStmt::Define(n@, views(p@), ss_list(b@)),
        Stmt::Run(n, a, st) => SStmt::Run(n@, se_list(a@), opt_view(st)),
        Stmt::GiveBack(e) => SStmt::GiveBack(se(e)),
        Stmt::Ask(p, v) => SStmt::Ask(views(p@), v@),
        Stmt::DefineClass(n, f, m) => SStmt::DefineClass(n@, views(f@), ss_methods(m@)),
        Stmt::CreateObject(c, a, v) => SStmt::CreateObject(c@, se_list(a@), v@),
        Stmt::SetField(o, f, e) => SStmt::SetField(o@, f@, se(e)),
        Stmt::RunMethod(m, a, o, st) => SStmt::RunMethod(m@, se_list(a@), o@, opt_view(st)),
    }
}

pub open spec fn ss_list<N>(s: Seq<Stmt<N>>) -> Seq<SStmt<N>>
    decreases s, 1nat,
{
    if s.len() == 0 {
        Seq::empty()
    } else {
        ss_list(s.drop_last()).push(ss(s.last()))
    }
}

pub open spec fn ss_methods<N>(s: Seq<(String, Vec<String>, Vec<Stmt<N>>)>) -> Seq<SMethod<N>>
    decreases s, 1nat,
{
    if s.len() == 0 {
        Seq::empty()
    } else {
        ss_methods(s.drop_last()).push(
            (s.last().0@, views(s.last().1@), ss_list(s.last().2@)),
        )
    }
}

impl<N> View for Stmt<N> {
    type V = SStmt<N>;

    open spec fn view(&self) -> SStmt<N> {
        ss(*self)
    }
}


// ─── Copies ─────────────────────────────────────────────────────────────────

pub proof fn lemma_sv_list_push<N>(s: Seq<Value<N>>, x: Value<N>)
    ensures
        sv_list(s.push(x)) == sv_list(s).push(sv(x)),
{
    assert(s.push(x).drop_last() == s);
}

pub proof fn lemma_sv_fields_push<N>(s: Seq<(String, Value<N>)>, x: (String, Value<N>))
    ensures
        sv_fields(s.push(x)) == sv_fields(s).push((x.0@, sv(x.1))),
{
    assert(s.push(x).drop_last() == s);
}

pub proof fn lemma_se_list_push<N>(s: Seq<Expr<N>>, x: Expr<N>)
    ensures
        se_list(s.push(x)) == se_list(s).push(se(x)),
{
    assert(s.push(x).drop_last() == s);
}

pub proof fn lemma_ss_list_push<N>(s: Seq<Stmt<N>>, x: Stmt<N>)
    ensures
        ss_list(s.push(x)) == ss_list(s).push(ss(x)),
{
    assert(s.push(x).drop_last() == s);
}

pub proof fn lemma_ss_methods_push<N>(
    s: Seq<(String, Vec<String>, Vec<Stmt<N>>)>,
    x: (String, Vec<String>, Vec<Stmt<N>>),
)
    ensures
        ss_methods(s.push(x)) == ss_methods(s).push((x.0@, views(x.1@), ss_list(x.2@))),
{
    assert(s.push(x).drop_last() == s);
}

pub proof fn lemma_views_push(s: Seq<String>, x: String)
    ensures
        views(s.push(x)) == views(s).push(x@),
{
    assert(views(s.push(x)) =~= views(s).push(x@));
}

/// A copy of a value with the same view.
pub fn clone_value<N: Copy>(v: &Value<N>) -> (r: Value<N>)
    ensures
        r@ == v@,
    decreases v,
{
    match v {
        Value::Str(s) => Value::Str(s.clone()),
        Value::Num(n) => Value::Num(*n),
        Value::Bool(b) => Value::Bool(*b),
        Value::List(items) => {
            let mut out: Vec<Value<N>> = Vec::new();
            let mut i: usize = 0;
            while i < items.len()
                invariant
                    i <= items@.len(),
                    *v == Value::List(*items),
                    sv_list(out@) == sv_list(items@.take(i as int)),
                decreases items@.len() - i,
            {
                proof {
                    assert(decreases_to!(*items => items[i as int]));
                    assert(decreases_to!(*v => v->List_0));
                }
                let c = clone_value(&items[i]);
                proof {
                    lemma_sv_list_push(out@, c);
                    lemma_sv_list_push(items@.take(i as int), items@[i as int]);
                    assert(items@.take(i as int + 1) == items@.take(i as int).push(items@[i as int]));
                }
                out.push(c);
                i += 1;
            }
            proof {
                assert(items@.take(items@.len() as int) == items@);
            }
            Value::List(out)
        },
        Value::Object(c, f) => {
            let mut out: Vec<(String, Value<N>)> = Vec::new();
            let mut i: usize = 0;
            while i < f.len()
                invariant
                    i <= f@.len(),
                    *v == Value::Object(*c, *f),
                    sv_fields(out@) == sv_fields(f@.take(i as int)),
                decreases f@.len() - i,
            {
                proof {
                    assert(decreases_to!(*f => f[i as int]));
                    assert(decreases_to!(f[i as int] => f[i as int].1));
                    assert(decreases_to!(*v => v->Object_1));
                }
                let c1 = clone_value(&f[i].1);
                let k = f[i].0.clone();
                proof {
                    lemma_sv_fields_push(out@, (k, c1));
                    lemma_sv_fields_push(f@.take(i as int), f@[i as int]);
                    assert(f@.take(i as int + 1) == f@.take(i as int).push(f@[i as int]));
                }
                out.push((k, c1));
                i += 1;
            }
            proof {
                assert(f@.take(f@.len() as int) == f@);
            }
            Value::Object(c.clone(), out)
        },
        Value::Nil => Value::Nil,
    }
}

pub fn clone_strings(v: &Vec<String>) -> (r: Vec<String>)
    ensures
        views(r@) == views(v@),
{
    let mut out: Vec<String> = Vec::new();
    let mut i: usize = 0;
    while i < v.len()
        invariant
            i <= v@.len(),
            views(out@) == views(v@.take(i as int)),
        decreases v@.len() - i,
    {
        let s = v[i].clone();
        proof {
            lemma_views_push(out@, s);
            lemma_views_push(v@.take(i as int), v@[i as int]);
            assert(v@.take(i as int + 1) == v@.take(i as int).push(v@[i as int]));
        }
        out.push(s);
        i += 1;
    }
    proof {
        assert(v@.take(v@.len() as int) == v@);
    }
    out
}

pub fn clone_expr<N: Copy>(e: &Expr<N>) -> (r: Expr<N>)
    ensures
        r@ == e@,
    decreases e,
{
    match e {
        Expr::Literal(v) => Expr::Literal(clone_value(v)),
        Expr::Variable(s) => Expr::Variable(s.clone()),
        Expr::BinaryOp(l, op, r) => Expr::BinaryOp(
            Box::new(clone_expr(l)),
            *op,
            Box::new(clone_expr(r)),
        ),
        Expr::Condition(l, c, r) => Expr::Condition(
            Box::new(clone_expr(l)),
            *c,
            Box::new(clone_expr(r)),
        ),
        Expr::LogicalOp(l, op, r) => Expr::LogicalOp(
            Box::new(clone_expr(l)),
            *op,
            Box::new(clone_expr(r)),
        ),
        Expr::Not(x) => Expr::Not(Box::new(clone_expr(x))),
        Expr::ItemFrom(x, s) => Expr::ItemFrom(Box::new(clone_expr(x)), s.clone()),
        Expr::SizeOf(s) => Expr::SizeOf(s.clone()),
        Expr::LengthOf(s) => Expr::LengthOf(s.clone()),
        Expr::JoinedWith(l, r) => Expr::JoinedWith(Box::new(clone_expr(l)), Box::new(clone_expr(r))),
        Expr::InUppercase(x) => Expr::InUppercase(Box::new(clone_expr(x))),
        Expr::InLowercase(x) => Expr::InLowercase(Box::new(clone_expr(x))),
        Expr::Concat(parts) => {
            let mut out: Vec<Expr<N>> = Vec::new();
            let mut i: usize = 0;
            while i < parts.len()
                invariant
                    i <= parts@.len(),
                    *e == Expr::Concat(*parts),
                    se_list(out@) == se_list(parts@.take(i as int)),
                decreases parts@.len() - i,
            {
                proof {
                    assert(decreases_to!(*parts => parts[i as int]));
                    assert(decreases_to!(*e => e->Concat_0));
                }
                let c = clone_expr(&parts[i]);
                proof {
                    lemma_se_list_push(out@, c);
                    lemma_se_list_push(parts@.take(i as int), parts@[i as int]);
                    assert(parts@.take(i as int + 1) == parts@.take(i as int).push(parts@[i as int]));
                }
                out.push(c);
                i += 1;
            }
            proof {
                assert(parts@.take(parts@.len() as int) == parts@);
            }
            Expr::Concat(out)
        },
        Expr::GetField(o, f) => Expr::GetField(o.clone(), f.clone()),
    }
}

pub fn clone_exprs<N: Copy>(v: &Vec<Expr<N>>) -> (r: Vec<Expr<N>>)
    ensures
        se_list(r@) == se_list(v@),
{
    let mut out: Vec<Expr<N>> = Vec::new();
    let mut i: usize = 0;
    while i < v.len()
        invariant
            i <= v@.len(),
            se_list(out@) == se_list(v@.take(i as int)),
        decreases v@.len() - i,
    {
        let c = clone_expr(&v[i]);
        proof {
            lemma_se_list_push(out@, c);
            lemma_se_list_push(v@.take(i as int), v@[i as int]);
            assert(v@.take(i as int + 1) == v@.take(i as int).push(v@[i as int]));
        }
        out.push(c);
        i += 1;
    }
    proof {
        assert(v@.take(v@.len() as int) == v@);
    }
    out
}

pub fn clone_opt_string(o: &Option<String>) -> (r: Option<String>)
    ensures
        opt_view(r) == opt_view(*o),
{
    match o {
        Some(s) => Some(s.clone()),
        None => None,
    }
}

pub fn clone_stmt<N: Copy>(s: &Stmt<N>) -> (r: Stmt<N>)
    ensures
        r@ == s@,
    decreases s, 0nat,
{
    match s {
        Stmt::Say(parts) => Stmt::Say(clone_exprs(parts)),
        Stmt::SetVar(n, e) => Stmt::SetVar(n.clone(), clone_expr(e)),
        Stmt::Increase(n, e) => Stmt::Increase(n.clone(), clone_expr(e)),
        Stmt::Decrease(n, e) => Stmt::Decrease(n.clone(), clone_expr(e)),
        Stmt::Multiply(n, e) => Stmt::Multiply(n.clone(), clone_expr(e)),
        Stmt::Divide(n, e) => Stmt::Divide(n.clone(), clone_expr(e)),
        Stmt::If(c, t, e) => {
            proof {
                assert(decreases_to!(*s => s->If_1));
                assert(decreases_to!(*s => s->If_2));
            }
            Stmt::If(clone_expr(c), clone_stmts(t), clone_stmts(e))
        },
        Stmt::Repeat(c, b) => {
            proof {
                assert(decreases_to!(*s => s->Repeat_1));
            }
            Stmt::Repeat(clone_expr(c), clone_stmts(b))
        },
        Stmt::While(c, b) => {
            proof {
                assert(decreases_to!(*s => s->While_1));
            }
            Stmt::While(clone_expr(c), clone_stmts(b))
        },
        Stmt::ForEach(i, l, b) => {
            proof {
                assert(decreases_to!(*s => s->ForEach_2));
            }
            Stmt::ForEach(i.clone(), l.clone(), clone_stmts(b))
        },
        Stmt::StopLoop => Stmt::StopLoop,
        Stmt::SkipToNext => Stmt::SkipToNext,
        Stmt::CreateList(n) => Stmt::CreateList(n.clone()),
        Stmt::AddToList(e, n) => Stmt::AddToList(clone_expr(e), n.clone()),
        Stmt::RemoveFromList(e, n) => Stmt::RemoveFromList(clone_expr(e), n.clone()),
        Stmt::RemoveItemFromList(e, n) => Stmt::RemoveItemFromList(clone_expr(e), n.clone()),
        Stmt::Define(n, p, b) => {
            proof {
                assert(decreases_to!(*s => s->Define_2));
            }
            Stmt::Define(n.clone(), clone_strings(p), clone_stmts(b))
        },
        Stmt::Run(n, a, st) => Stmt::Run(n.clone(), clone_exprs(a), clone_opt_string(st)),
        Stmt::GiveBack(e) => Stmt::GiveBack(clone_expr(e)),
        Stmt::Ask(p, v) => Stmt::Ask(clone_strings(p), v.clone()),
        Stmt::DefineClass(n, f, m) => {
            proof {
                assert(decreases_to!(*s => s->DefineClass_2));
            }
            Stmt::DefineClass(n.clone(), clone_strings(f), clone_methods(m))
        },
        Stmt::CreateObject(c, a, v) => Stmt::CreateObject(c.clone(), clone_exprs(a), v.clone()),
        Stmt::SetField(o, f, e) => Stmt::SetField(o.clone(), f.clone(), clone_expr(e)),
        Stmt::RunMethod(m, a, o, st) => Stmt::RunMethod(
            m.clone(),
            clone_exprs(a),
            o.clone(),
            clone_opt_string(st),
        ),
    }
}

pub fn clone_stmts<N: Copy>(v: &Vec<Stmt<N>>) -> (r: Vec<Stmt<N>>)
    ensures
        ss_list(r@) == ss_list(v@),
    decreases v, 1nat,
{
    let mut out: Vec<Stmt<N>> = Vec::new();
    let mut i: usize = 0;
    while i < v.len()
        invariant
            i <= v@.len(),
            ss_list(out@) == ss_list(v@.take(i as int)),
        decreases v@.len() - i,
    {
        proof {
            assert(decreases_to!(*v => v[i as int]));
        }
        let c = clone_stmt(&v[i]);
        proof {
            lemma_ss_list_push(out@, c);
            lemma_ss_list_push(v@.take(i as int), v@[i as int]);
            assert(v@.take(i as int + 1) == v@.take(i as int).push(v@[i as int]));
        }
        out.push(c);
        i += 1;
    }
    proof {
        assert(v@.take(v@.len() as int) == v@);
    }
    out
}

pub fn clone_methods<N: Copy>(v: &Vec<(String, Vec<String>, Vec<Stmt<N>>)>) -> (r: Vec<
    (String, Vec<String>, Vec<Stmt<N>>),
>)
    ensures
        ss_methods(r@) == ss_methods(v@),
    decreases v, 1nat,
{
    let mut out: Vec<(String, Vec<String>, Vec<Stmt<N>>)> = Vec::new();
    let mut i: usize = 0;
    while i < v.len()
        invariant
            i <= v@.len(),
            ss_methods(out@) == ss_methods(v@.take(i as int)),
        decreases v@.len() - i,
    {
        proof {
            assert(decreases_to!(*v => v[i as int]));
            assert(decreases_to!(v[i as int] => v[i as int].2));
        }
        let b = clone_stmts(&v[i].2);
        let c = (v[i].0.clone(), clone_strings(&v[i].1), b);
        proof {
            lemma_ss_methods_push(out@, c);
            lemma_ss_methods_push(v@.take(i as int), v@[i as int]);
            assert(v@.take(i as int + 1) == v@.take(i as int).push(v@[i as int]));
        }
        out.push(c);
        i += 1;
    }
    proof {
        assert(v@.take(v@.len() as int) == v@);
    }
    out
}


pub proof fn lemma_sv_list<N>(s: Seq<Value<N>>)
    ensures
        sv_list(s).len() == s.len(),
        forall|i: int| 0 <= i < s.len() ==> #[trigger] sv_list(s)[i] == sv(s[i]),
    decreases s.len(),
{
    if s.len() > 0 {
        lemma_sv_list(s.drop_last());
        assert forall|i: int| 0 <= i < s.len() implies #[trigger] sv_list(s)[i] == sv(s[i]) by {
            if i < s.len() - 1 {
                assert(s.drop_last()[i] == s[i]);
            }
        }
    }
}

pub proof fn lemma_se_list<N>(s: Seq<Expr<N>>)
    ensures
        se_list(s).len() == s.len(),
        forall|i: int| 0 <= i < s.len() ==> #[trigger] se_list(s)[i] == se(s[i]),
    decreases s.len(),
{
    if s.len() > 0 {
        lemma_se_list(s.drop_last());
        assert forall|i: int| 0 <= i < s.len() implies #[trigger] se_list(s)[i] == se(s[i]) by {
            if i < s.len() - 1 {
                assert(s.drop_last()[i] == s[i]);
            }
        }
    }
}

pub proof fn lemma_ss_list<N>(s: Seq<Stmt<N>>)
    ensures
        ss_list(s).len() == s.len(),
        forall|i: int| 0 <= i < s.len() ==> #[trigger] ss_list(s)[i] == ss(s[i]),
    decreases s.len(),
{
    if s.len() > 0 {
        lemma_ss_list(s.drop_last());
        assert forall|i: int| 0 <= i < s.len() implies #[trigger] ss_list(s)[i] == ss(s[i]) by {
            if i < s.len() - 1 {
                assert(s.drop_last()[i] == s[i]);
            }
        }
    }
}

pub proof fn lemma_ss_methods<N>(s: Seq<(String, Vec<String>, Vec<Stmt<N>>)>)
    ensures
        ss_methods(s).len() == s.len(),
        forall|i: int| 0 <= i < s.len() ==> #[trigger] ss_methods(s)[i] == (s[i].0@, views(s[i].1@), ss_list(s[i].2@)),
    decreases s.len(),
{
    if s.len() > 0 {
        lemma_ss_methods(s.drop_last());
        assert forall|i: int| 0 <= i < s.len() implies #[trigger] ss_methods(s)[i] == (s[i].0@, views(s[i].1@), ss_list(s[i].2@)) by {
            if i < s.len() - 1 {
                assert(s.drop_last()[i] == s[i]);
            }
        }
    }
}


pub proof fn lemma_ss_list_append<N>(a: Seq<Stmt<N>>, b: Seq<Stmt<N>>)
    ensures
        ss_list(a + b) == ss_list(a) + ss_list(b),
    decreases b.len(),
{
    if b.len() == 0 {
        assert(a + b =~= a);
        assert(ss_list(b) =~= Seq::<SStmt<N>>::empty());
        assert(ss_list(a) + ss_list(b) =~= ss_list(a));
    } else {
        lemma_ss_list_append(a, b.drop_last());
        assert((a + b).drop_last() =~= a + b.drop_last());
        assert(ss_list(a) + ss_list(b) =~= (ss_list(a) + ss_list(b.drop_last())).push(ss(b.last())));
    }
}

// ─── Statements ─────────────────────────────────────────────────────────────

pub open spec fn pv_stmt<N>(r: Result<Stmt<N>, Fault>) -> PRes<SStmt<N>> {
    match r {
        Ok(s) => Ok(s@),
        Err(f) => Err(f@),
    }
}

pub open spec fn pv_step<N>(r: Result<(Stmt<N>, usize), Fault>) -> PRes<(SStmt<N>, int)> {
    match r {
        Ok((s, k)) => Ok((s@, k as int)),
        Err(f) => Err(f@),
    }
}

pub open spec fn pv_block<N>(r: Result<(Vec<Stmt<N>>, usize), Fault>) -> PRes<(Seq<SStmt<N>>, int)> {
    match r {
        Ok((v, k)) => Ok((ss_list(v@), k as int)),
        Err(f) => Err(f@),
    }
}

pub open spec fn pv_stmts<N>(r: Result<Vec<Stmt<N>>, Fault>) -> PRes<Seq<SStmt<N>>> {
    match r {
        Ok(v) => Ok(ss_list(v@)),
        Err(f) => Err(f@),
    }
}

pub open spec fn pv_methods<N>(
    r: Result<(Vec<(String, Vec<String>, Vec<Stmt<N>>)>, usize), Fault>,
) -> PRes<(Seq<SMethod<N>>, int)> {
    match r {
        Ok((v, k)) => Ok((ss_methods(v@), k as int)),
        Err(f) => Err(f@),
    }
}

/// The clause at `idx` begins with the word `w`.
pub open spec fn opens_with<N>(cl: &Vec<Vec<Spanned<N>>>, idx: usize, w: Seq<char>) -> bool {
    idx < cl@.len() && toks_view(cl@[idx as int]@).len() > 0 && is_word(
        toks_view(cl@[idx as int]@)[0],
        w,
    )
}

pub open spec fn begins<N>(c: &[Spanned<N>], w: Seq<char>) -> bool {
    toks_view(c@).len() > 0 && is_word(toks_view(c@)[0], w)
}

fn fault_text(m: String, line: usize) -> (r: Fault)
    ensures
        r@ == fault_at(m@, line),
{
    Fault::Msg(concat(&m, &on_line_text(line)))
}

fn is_end_marker_exec<N>(c: &Vec<Spanned<N>>) -> (r: bool)
    ensures
        r == is_end_marker(toks_view(c@)),
{
    c.len() > 0 && tok_is_word(&c[0], "end")
}

fn clause_starts_with<N>(c: &Vec<Spanned<N>>, kw: &str) -> (r: bool)
    ensures
        r == starts_kw(toks_view(c@), kw@),
{
    c.len() > 0 && tok_is_word(&c[0], kw)
}

fn sub_strings(ws: &Vec<String>, a: usize, b: usize) -> (r: Vec<String>)
    requires
        a <= b <= ws@.len(),
    ensures
        views(r@) == views(ws@).subrange(a as int, b as int),
{
    let mut out: Vec<String> = Vec::new();
    let mut i: usize = a;
    proof {
        assert(views(out@) =~= views(ws@).subrange(a as int, a as int));
    }
    while i < b
        invariant
            a <= i <= b,
            b <= ws@.len(),
            views(out@) == views(ws@).subrange(a as int, i as int),
        decreases b - i,
    {
        let c = ws[i].clone();
        proof {
            lemma_views_push(out@, c);
            assert(views(ws@).subrange(a as int, i + 1) =~= views(ws@).subrange(a as int, i as int).push(
                c@,
            ));
        }
        out.push(c);
        i += 1;
    }
    out
}

/// The names after `taking` (at `tp`), without the `and`s.
fn taking_names_exec(ws: &Vec<String>, tp: usize) -> (r: Vec<String>)
    ensures
        views(r@) == taking_names(views(ws@), tp as int),
{
    if tp < ws.len() {
        names_after(ws, tp + 1)
    } else {
        Vec::new()
    }
}

/// The first index at or after `i` holding a period or the end of input.
fn stmt_end_exec<N>(ts: &Vec<Spanned<N>>, from: usize) -> (r: usize)
    requires
        from <= ts@.len(),
    ensures
        r as int == stmt_end(toks_view(ts@), from as int),
{
    let ghost t = toks_view(ts@);
    let mut i: usize = from;
    while i < ts.len()
        invariant
            from <= i <= ts@.len(),
            t == toks_view(ts@),
            stmt_end(t, from as int) == stmt_end(t, i as int),
        decreases ts@.len() - i,
    {
        match ts[i].token {
            Token::Period => {
                return i;
            },
            Token::Eof => {
                return i;
            },
            _ => {},
        }
        i += 1;
    }
    i
}

fn one_step<N>(r: Result<Stmt<N>, Fault>, idx: usize) -> (out: Result<(Stmt<N>, usize), Fault>)
    requires
        idx < usize::MAX,
    ensures
        pv_step(out) == one(pv_stmt(r), idx as int),
        out matches Ok((_, k)) ==> k == idx + 1,
{
    match r {
        Ok(s) => Ok((s, idx + 1)),
        Err(f) => Err(f),
    }
}

/// The statements of the clauses from `idx`, up to an `end` marker, an
/// `otherwise` or the last clause, with the index where they stop.
fn parse_clauses<N: Copy>(cl: &Vec<Vec<Spanned<N>>>, idx: usize, lines: &mut Vec<usize>) -> (r:
    Result<(Vec<Stmt<N>>, usize), Fault>)
    ensures
        pv_block(r) == s_clauses(cls_view(cl@), idx as int, Seq::empty()),
        idx <= cl@.len() ==> (r matches Ok((_, j)) ==> idx <= j <= cl@.len()),
        r matches Ok((v, _)) ==> final(lines)@ == s_clause_lines(
            cls_view(cl@),
            idx as int,
            old(lines)@,
        ) && final(lines)@.len() == old(lines)@.len() + v@.len(),
    decreases weight(cls_view(cl@), idx as int), 5nat,
{
    let ghost c = cls_view(cl@);
    let ghost l0 = lines@;
    let mut stmts: Vec<Stmt<N>> = Vec::new();
    let mut i: usize = idx;
    proof {
        assert(ss_list(stmts@) =~= Seq::<SStmt<N>>::empty());
    }
    if idx >= cl.len() {
        return Ok((stmts, idx));
    }
    while i < cl.len()
        invariant
            idx <= i <= cl@.len(),
            c == cls_view(cl@),
            s_clauses(c, idx as int, Seq::empty()) == s_clauses(c, i as int, ss_list(stmts@)),
            l0 == old(lines)@,
            s_clause_lines(c, idx as int, l0) == s_clause_lines(c, i as int, lines@),
            lines@.len() == l0.len() + stmts@.len(),
        decreases cl@.len() - i,
    {
        if is_end_marker_exec(&cl[i]) || clause_starts_with(&cl[i], "otherwise") {
            return Ok((stmts, i));
        }
        proof {
            lemma_weight(c, idx as int, i as int);
        }
        match parse_one_clause(cl, i) {
            Ok((st, next)) => {
                proof {
                    lemma_ss_list_push(stmts@, st);
                    assert(toks_view(cl@[i as int]@) == c[i as int]);
                }
                let line = if cl[i].len() > 0 {
                    cl[i][0].line
                } else {
                    1
                };
                lines.push(line);
                stmts.push(st);
                i = next;
            },
            Err(f) => {
                return Err(f);
            },
        }
    }
    Ok((stmts, i))
}

/// The body after clause `idx`, with the index after its `end` marker.
fn parse_body<N: Copy>(cl: &Vec<Vec<Spanned<N>>>, idx: usize) -> (r: Result<
    (Vec<Stmt<N>>, usize),
    Fault,
>)
    requires
        idx < cl@.len(),
    ensures
        pv_block(r) == s_body(cls_view(cl@), idx as int),
        r matches Ok((_, j)) ==> idx < j <= cl@.len(),
    decreases weight(cls_view(cl@), idx as int), 1nat,
{
    let ghost cv = cls_view(cl@);
    let _n = cl.len();
    proof {
        assert(weight(cv, idx as int) == cv[idx as int].len() + 1 + weight(cv, idx + 1));
    }
    let mut scratch: Vec<usize> = Vec::new();
    let (b, next) = match parse_clauses(cl, idx + 1, &mut scratch) {
        Ok(x) => x,
        Err(f) => return Err(f),
    };
    let n2 = if next < cl.len() && is_end_marker_exec(&cl[next]) {
        next + 1
    } else {
        next
    };
    Ok((b, n2))
}

/// The statement that begins with clause `idx`, with the index after it.
fn parse_one_clause<N: Copy>(cl: &Vec<Vec<Spanned<N>>>, idx: usize) -> (r: Result<
    (Stmt<N>, usize),
    Fault,
>)
    requires
        idx < cl@.len(),
    ensures
        pv_step(r) == s_one(cls_view(cl@), idx as int),
        r matches Ok((_, j)) ==> idx < j <= cl@.len(),
    decreases weight(cls_view(cl@), idx as int), 4nat,
{
    let ghost cv = cls_view(cl@);
    let _n = cl.len();
    let c = cl[idx].as_slice();
    proof {
        assert(toks_view(c@) == cv[idx as int]);
    }
    if c.len() == 0 {
        let r = Ok((Stmt::Say(Vec::new()), idx + 1));
        proof {
            assert(ss_list(Seq::<Stmt<N>>::empty()) =~= Seq::<SStmt<N>>::empty());
        }
        return r;
    }
    let line = c[0].line;
    match &c[0].token {
        Token::Word(w) => {
            if is_kw(w, "say") {
                one_step(parse_say(c, line), idx)
            } else if is_kw(w, "set") {
                one_step(parse_set(c, line), idx)
            } else if is_kw(w, "increase") || is_kw(w, "decrease") || is_kw(w, "multiply")
                || is_kw(w, "divide") {
                one_step(parse_arith(w, c, line), idx)
            } else if is_kw(w, "if") {
                parse_if(cl, idx, line)
            } else if is_kw(w, "repeat") {
                parse_repeat(cl, idx, line)
            } else if is_kw(w, "while") {
                parse_while(cl, idx, line)
            } else if is_kw(w, "for") {
                parse_for_each(cl, idx, line)
            } else if is_kw(w, "stop") {
                Ok((Stmt::StopLoop, idx + 1))
            } else if is_kw(w, "skip") {
                Ok((Stmt::SkipToNext, idx + 1))
            } else if is_kw(w, "create") {
                let ws = words_of(c);
                if ws.len() >= 2 && is_kw(&ws[1], "list") {
                    one_step(parse_create_list(c, line), idx)
                } else {
                    one_step(parse_create_object(c, line), idx)
                }
            } else if is_kw(w, "add") {
                one_step(parse_add_to_list(c, line), idx)
            } else if is_kw(w, "remove") {
                one_step(parse_remove(c, line), idx)
            } else if is_kw(w, "define") {
                let ws = words_of(c);
                if ws.len() >= 2 && is_kw(&ws[1], "type") {
                    parse_define_class(cl, idx, line)
                } else {
                    parse_define(cl, idx, line)
                }
            } else if is_kw(w, "run") {
                if position_word(c, "on", 0) < c.len() {
                    one_step(parse_run_method(c, line), idx)
                } else {
                    one_step(parse_run(c, line), idx)
                }
            } else if is_kw(w, "give") {
                one_step(parse_give_back(c, line), idx)
            } else if is_kw(w, "ask") {
                one_step(parse_ask(c, line), idx)
            } else {
                let m = concat3("OrimaLang Error: unknown statement keyword '", w, "'");
                Err(fault_text(m, line))
            }
        },
        Token::Number(_) => Err(
            fault("OrimaLang Error: unexpected number at start of statement", line),
        ),
        _ => Err(fault("OrimaLang Error: unexpected token at start of statement", line)),
    }
}

/// `say <part> and <part> ...`
fn parse_say<N: Copy>(c: &[Spanned<N>], line: usize) -> (r: Result<Stmt<N>, Fault>)
    requires
        c@.len() > 0,
    ensures
        pv_stmt(r) == s_say(toks_view(c@), line),
{
    let n = c.len();
    proof {
        lemma_tv_sub(c@, 1, n as int);
    }
    let r = &c[1..n];
    if r.len() == 0 {
        let parts = vec![Expr::Literal(Value::Str(String::new()))];
        proof {
            lemma_se_list_push(Seq::<Expr<N>>::empty(), parts@[0]);
            assert(parts@ == Seq::<Expr<N>>::empty().push(parts@[0]));
        }
        return Ok(Stmt::Say(parts));
    }
    match parse_and_values(r, line) {
        Ok(ps) => {
            if ps.len() == 0 {
                let parts = vec![Expr::Literal(Value::Str(String::new()))];
                proof {
                    lemma_se_list_push(Seq::<Expr<N>>::empty(), parts@[0]);
                    assert(parts@ == Seq::<Expr<N>>::empty().push(parts@[0]));
                    assert(se_list(ps@).len() == 0) by {
                        if ps@.len() > 0 {
                            assert(se_list(ps@) == se_list(ps@.drop_last()).push(se(ps@.last())));
                        }
                    }
                }
                Ok(Stmt::Say(parts))
            } else {
                proof {
                    assert(se_list(ps@) == se_list(ps@.drop_last()).push(se(ps@.last())));
                }
                Ok(Stmt::Say(ps))
            }
        },
        Err(f) => Err(f),
    }
}

/// `set <name> to <expr>`, or `set [the] <field> of <object> to <expr>`.
fn parse_set<N: Copy>(c: &[Spanned<N>], line: usize) -> (r: Result<Stmt<N>, Fault>)
    requires
        c@.len() > 0,
    ensures
        pv_stmt(r) == s_set(toks_view(c@), line),
{
    let ghost t = toks_view(c@);
    let n = c.len();
    let op = position_word(c, "of", 0);
    let tp = rposition_word(c, "to");
    proof {
        lemma_first_word(t, "of"@, 0);
        lemma_last_word(t, "to"@, n as int);
    }
    match tp {
        Some(tp) => {
            if op < n && op > 1 && tp > op {
                let fs: usize = if tok_is_word(&c[1], "the") {
                    2
                } else {
                    1
                };
                proof {
                    lemma_tv_sub(c@, fs as int, op as int);
                }
                let field = name_of_toks(&c[fs..op]);
                match word_at_exec(c, op + 1) {
                    None => {
                        return Err(
                            fault(
                                "OrimaLang Error: expected object variable name after 'of'",
                                line,
                            ),
                        );
                    },
                    Some(obj) => {
                        if !field.as_str().is_empty() || tok_is_word(&c[1], "the") {
                            proof {
                                lemma_tv_sub(c@, tp + 1, n as int);
                            }
                            let e = match parse_expr(&c[tp + 1..n], line) {
                                Ok(x) => x,
                                Err(f) => return Err(f),
                            };
                            return Ok(Stmt::SetField(obj, field, e));
                        }
                    },
                }
            }
        },
        None => {},
    }
    parse_set_var(c, line)
}

fn parse_set_var<N: Copy>(c: &[Spanned<N>], line: usize) -> (r: Result<Stmt<N>, Fault>)
    ensures
        pv_stmt(r) == s_set_var(toks_view(c@), line),
{
    let n = c.len();
    if n < 4 {
        return Err(fault("OrimaLang Error: malformed 'set' statement", line));
    }
    let name = match tok_word(&c[1]) {
        Some(w) => w,
        None => {
            return Err(fault("OrimaLang Error: expected variable name after 'set'", line));
        },
    };
    if !tok_is_word(&c[2], "to") {
        return Err(fault("OrimaLang Error: expected 'to' in 'set' statement", line));
    }
    proof {
        lemma_tv_sub(c@, 3, n as int);
    }
    match parse_expr(&c[3..n], line) {
        Ok(e) => Ok(Stmt::SetVar(name, e)),
        Err(f) => Err(f),
    }
}

/// `increase|decrease|multiply|divide <name> by <expr>`
fn parse_arith<N: Copy>(kind: &String, c: &[Spanned<N>], line: usize) -> (r: Result<
    Stmt<N>,
    Fault,
>)
    ensures
        pv_stmt(r) == s_arith(kind@, toks_view(c@), line),
{
    let n = c.len();
    if n < 4 {
        let m = concat3("OrimaLang Error: malformed '", kind, "' statement");
        return Err(fault_text(m, line));
    }
    let name = match tok_word(&c[1]) {
        Some(w) => w,
        None => {
            let m = concat3("OrimaLang Error: expected variable name in '", kind, "'");
            return Err(fault_text(m, line));
        },
    };
    if !tok_is_word(&c[2], "by") {
        let m = concat3("OrimaLang Error: expected 'by' in '", kind, "' statement");
        return Err(fault_text(m, line));
    }
    proof {
        lemma_tv_sub(c@, 3, n as int);
    }
    let e = match parse_expr(&c[3..n], line) {
        Ok(x) => x,
        Err(f) => return Err(f),
    };
    if is_kw(kind, "increase") {
        Ok(Stmt::Increase(name, e))
    } else if is_kw(kind, "decrease") {
        Ok(Stmt::Decrease(name, e))
    } else if is_kw(kind, "multiply") {
        Ok(Stmt::Multiply(name, e))
    } else {
        Ok(Stmt::Divide(name, e))
    }
}

fn finish_if<N: Copy>(
    cl: &Vec<Vec<Spanned<N>>>,
    cond: Expr<N>,
    then_b: Vec<Stmt<N>>,
    else_b: Vec<Stmt<N>>,
    next: usize,
) -> (r: (Stmt<N>, usize))
    requires
        next <= cl@.len(),
    ensures
        (r.0@, r.1 as int) == if_done(cls_view(cl@), cond@, ss_list(then_b@), ss_list(else_b@), next as int),
        next <= r.1 <= cl@.len(),
{
    let n2 = if next < cl.len() && is_end_marker_exec(&cl[next]) {
        next + 1
    } else {
        next
    };
    (Stmt::If(cond, then_b, else_b), n2)
}

/// An `if` statement with its body, `otherwise` part and `end` marker.
fn parse_if<N: Copy>(cl: &Vec<Vec<Spanned<N>>>, idx: usize, line: usize) -> (r: Result<
    (Stmt<N>, usize),
    Fault,
>)
    requires
        idx < cl@.len(),
        cl@[idx as int]@.len() > 0,
    ensures
        pv_step(r) == s_if(cls_view(cl@), idx as int, line),
        r matches Ok((_, j)) ==> idx < j <= cl@.len(),
    decreases weight(cls_view(cl@), idx as int), 3nat,
{
    let ghost cv = cls_view(cl@);
    let _len = cl.len();
    let c = cl[idx].as_slice();
    let n = c.len();
    proof {
        assert(toks_view(c@) == cv[idx as int]);
        lemma_tv_sub(c@, 1, n as int);
    }
    let cond = match parse_expr(&c[1..n], line) {
        Ok(x) => x,
        Err(f) => return Err(f),
    };
    let mut scratch: Vec<usize> = Vec::new();
    let (then_b, next) = match parse_clauses(cl, idx + 1, &mut scratch) {
        Ok(x) => x,
        Err(f) => return Err(f),
    };
    if next < cl.len() && clause_starts_with(&cl[next], "otherwise") {
        let ow = cl[next].as_slice();
        let m = ow.len();
        proof {
            assert(toks_view(ow@) == cv[next as int]);
            lemma_tv_sub(ow@, 1, m as int);
            lemma_weight(cv, idx as int, next as int);
            lemma_weight(cv, next as int, next + 1);
        }
        let after = &ow[1..m];
        if after.len() > 0 {
            let s = match parse_one_clause_tokens(after, line) {
                Ok(x) => x,
                Err(f) => return Err(f),
            };
            let else_b = vec![s];
            proof {
                lemma_ss_list_push(Seq::<Stmt<N>>::empty(), s);
                assert(else_b@ == Seq::<Stmt<N>>::empty().push(s));
            }
            return Ok(finish_if(cl, cond, then_b, else_b, next + 1));
        } else {
            let (else_b, nx) = match parse_clauses(cl, next + 1, &mut scratch) {
                Ok(x) => x,
                Err(f) => return Err(f),
            };
            return Ok(finish_if(cl, cond, then_b, else_b, nx));
        }
    }
    let r = Ok(finish_if(cl, cond, then_b, Vec::new(), next));
    proof {
        assert(ss_list(Seq::<Stmt<N>>::empty()) =~= Seq::<SStmt<N>>::empty());
    }
    r
}

/// A statement written after `otherwise` in the same clause.
fn parse_one_clause_tokens<N: Copy>(ts: &[Spanned<N>], line: usize) -> (r: Result<Stmt<N>, Fault>)
    ensures
        pv_stmt(r) == s_one_tokens(toks_view(ts@), line),
    decreases ts@.len() + 2, 0nat,
{
    let cl = vec![clone_tokens(ts)];
    proof {
        assert(cls_view(cl@) =~= seq![toks_view(ts@)]);
        assert(weight(seq![toks_view(ts@)], 1) == 0);
    }
    let mut scratch: Vec<usize> = Vec::new();
    let (mut stmts, _) = match parse_clauses(&cl, 0, &mut scratch) {
        Ok(x) => x,
        Err(f) => return Err(f),
    };
    if stmts.len() > 0 {
        proof {
            assert(ss_list(stmts@)[0] == ss(stmts@[0])) by {
                lemma_ss_list(stmts@);
            }
        }
        Ok(stmts.remove(0))
    } else {
        proof {
            assert(ss_list(Seq::<Stmt<N>>::empty()) =~= Seq::<SStmt<N>>::empty());
        }
        Ok(Stmt::Say(Vec::new()))
    }
}

/// `repeat <count> times`, a body and its `end` marker.
fn parse_repeat<N: Copy>(cl: &Vec<Vec<Spanned<N>>>, idx: usize, line: usize) -> (r: Result<
    (Stmt<N>, usize),
    Fault,
>)
    requires
        opens_with(cl, idx, "repeat"@),
    ensures
        pv_step(r) == s_repeat(cls_view(cl@), idx as int, line),
        r matches Ok((_, j)) ==> idx < j <= cl@.len(),
    decreases weight(cls_view(cl@), idx as int), 3nat,
{
    let ghost cv = cls_view(cl@);
    let c = cl[idx].as_slice();
    let ghost t = toks_view(c@);
    let n = c.len();
    let tp = position_word(c, "times", 0);
    proof {
        assert(t == cv[idx as int]);
        lemma_first_word(t, "times"@, 0);
        reveal_strlit("repeat");
        reveal_strlit("times");
        assert("repeat"@[0] != "times"@[0]);
    }
    let count = if tp < n {
        proof {
            lemma_tv_sub(c@, 1, tp as int);
        }
        &c[1..tp]
    } else {
        proof {
            lemma_tv_sub(c@, 1, n as int);
        }
        &c[1..n]
    };
    let e = match parse_expr(count, line) {
        Ok(x) => x,
        Err(f) => return Err(f),
    };
    let (b, next) = match parse_body(cl, idx) {
        Ok(x) => x,
        Err(f) => return Err(f),
    };
    Ok((Stmt::Repeat(e, b), next))
}

/// `while <condition>`, a body and its `end` marker.
fn parse_while<N: Copy>(cl: &Vec<Vec<Spanned<N>>>, idx: usize, line: usize) -> (r: Result<
    (Stmt<N>, usize),
    Fault,
>)
    requires
        idx < cl@.len(),
        cl@[idx as int]@.len() > 0,
    ensures
        pv_step(r) == s_while(cls_view(cl@), idx as int, line),
        r matches Ok((_, j)) ==> idx < j <= cl@.len(),
    decreases weight(cls_view(cl@), idx as int), 3nat,
{
    let ghost cv = cls_view(cl@);
    let c = cl[idx].as_slice();
    let n = c.len();
    proof {
        assert(toks_view(c@) == cv[idx as int]);
        lemma_tv_sub(c@, 1, n as int);
    }
    let e = match parse_expr(&c[1..n], line) {
        Ok(x) => x,
        Err(f) => return Err(f),
    };
    let (b, next) = match parse_body(cl, idx) {
        Ok(x) => x,
        Err(f) => return Err(f),
    };
    Ok((Stmt::While(e, b), next))
}

/// `for each <item> in <list>`, a body and its `end` marker.
fn parse_for_each<N: Copy>(cl: &Vec<Vec<Spanned<N>>>, idx: usize, line: usize) -> (r: Result<
    (Stmt<N>, usize),
    Fault,
>)
    requires
        idx < cl@.len(),
    ensures
        pv_step(r) == s_for_each(cls_view(cl@), idx as int, line),
        r matches Ok((_, j)) ==> idx < j <= cl@.len(),
    decreases weight(cls_view(cl@), idx as int), 3nat,
{
    let ghost cv = cls_view(cl@);
    let ws = words_of(cl[idx].as_slice());
    proof {
        assert(toks_view(cl@[idx as int]@) == cv[idx as int]);
    }
    if ws.len() < 5 || !is_kw(&ws[1], "each") || !is_kw(&ws[3], "in") {
        return Err(fault("OrimaLang Error: malformed 'for each' statement", line));
    }
    let (b, next) = match parse_body(cl, idx) {
        Ok(x) => x,
        Err(f) => return Err(f),
    };
    Ok((Stmt::ForEach(ws[2].clone(), ws[4].clone(), b), next))
}

/// `create list <name>`
fn parse_create_list<N: Copy>(c: &[Spanned<N>], line: usize) -> (r: Result<Stmt<N>, Fault>)
    ensures
        pv_stmt(r) == s_create_list(toks_view(c@), line),
{
    let ws = words_of(c);
    if ws.len() < 3 || !is_kw(&ws[1], "list") {
        return Err(fault("OrimaLang Error: malformed 'create list'", line));
    }
    Ok(Stmt::CreateList(ws[2].clone()))
}

/// The variable of `store in <var>`.
fn store_var_exec<N>(c: &[Spanned<N>], sp: usize, ip: usize) -> (r: Option<String>)
    ensures
        opt_view(r) == store_var(toks_view(c@), sp as int, ip as int),
{
    if sp < c.len() && ip < c.len() && ip == sp + 1 {
        word_at_exec(c, ip + 1)
    } else {
        None
    }
}

/// The arguments between `with` (at `wp`) and `store` (at `sp`).
fn parse_args<N: Copy>(c: &[Spanned<N>], wp: usize, sp: usize, line: usize) -> (r: Result<
    Vec<Expr<N>>,
    Fault,
>)
    ensures
        pv_exprs(r) == s_args(toks_view(c@), wp as int, sp as int, line),
{
    let n = c.len();
    if wp < n {
        let end = if sp < n {
            if sp > 0 && tok_is_word(&c[sp - 1], "and") {
                sp - 1
            } else {
                sp
            }
        } else {
            n
        };
        if end < wp + 1 {
            return Err(fault("OrimaLang Error: 'with' must come before 'store in'", line));
        }
        proof {
            lemma_tv_sub(c@, wp + 1, end as int);
        }
        parse_and_values(&c[wp + 1..end], line)
    } else {
        let r = Ok(Vec::new());
        proof {
            assert(se_list(Seq::<Expr<N>>::empty()) =~= Seq::<SExpr<N>>::empty());
        }
        r
    }
}

/// `create <class> with <args> and store in <var>`
fn parse_create_object<N: Copy>(c: &[Spanned<N>], line: usize) -> (r: Result<Stmt<N>, Fault>)
    requires
        begins(c, "create"@),
    ensures
        pv_stmt(r) == s_create_object(toks_view(c@), line),
{
    let ghost t = toks_view(c@);
    let n = c.len();
    let wp = position_word(c, "with", 0);
    let sp = position_word(c, "store", 0);
    proof {
        lemma_first_word(t, "with"@, 0);
        lemma_first_word(t, "store"@, 0);
        reveal_strlit("create");
        reveal_strlit("with");
        reveal_strlit("store");
        assert("create"@[0] != "with"@[0]);
        assert("create"@[0] != "store"@[0]);
    }
    let name_end = if wp < n {
        wp
    } else if sp < n {
        sp
    } else {
        n
    };
    proof {
        lemma_tv_sub(c@, 1, name_end as int);
    }
    let class = name_of_toks(&c[1..name_end]);
    if class.as_str().is_empty() {
        return Err(fault("OrimaLang Error: 'create' needs a class name", line));
    }
    let ip = position_word(c, "in", 0);
    let v = match store_var_exec(c, sp, ip) {
        Some(v) => v,
        None => {
            return Err(fault("OrimaLang Error: 'create' needs 'store in <var>'", line));
        },
    };
    match parse_args(c, wp, sp, line) {
        Ok(args) => Ok(Stmt::CreateObject(class, args, v)),
        Err(f) => Err(f),
    }
}

/// `add <value> to <list>`
fn parse_add_to_list<N: Copy>(c: &[Spanned<N>], line: usize) -> (r: Result<Stmt<N>, Fault>)
    requires
        begins(c, "add"@),
    ensures
        pv_stmt(r) == s_add(toks_view(c@), line),
{
    let ghost t = toks_view(c@);
    let n = c.len();
    proof {
        lemma_last_word(t, "to"@, n as int);
        reveal_strlit("add");
        reveal_strlit("to");
        assert("add"@[0] != "to"@[0]);
    }
    let tp = match rposition_word(c, "to") {
        Some(p) => p,
        None => {
            return Err(fault("OrimaLang Error: 'add' missing 'to'", line));
        },
    };
    if tp + 1 >= n {
        return Err(fault("OrimaLang Error: missing list name in 'add'", line));
    }
    let l = match tok_word(&c[tp + 1]) {
        Some(w) => w,
        None => {
            return Err(fault("OrimaLang Error: expected list name after 'to'", line));
        },
    };
    proof {
        lemma_tv_sub(c@, 1, tp as int);
    }
    match parse_value_expr(&c[1..tp], line) {
        Ok(e) => Ok(Stmt::AddToList(e, l)),
        Err(f) => Err(f),
    }
}

/// `remove <value> from <list>` or `remove item <index> from <list>`
fn parse_remove<N: Copy>(c: &[Spanned<N>], line: usize) -> (r: Result<Stmt<N>, Fault>)
    requires
        begins(c, "remove"@),
    ensures
        pv_stmt(r) == s_remove(toks_view(c@), line),
{
    let ghost t = toks_view(c@);
    let n = c.len();
    let fp = position_word(c, "from", 0);
    proof {
        lemma_first_word(t, "from"@, 0);
        reveal_strlit("remove");
        reveal_strlit("from");
        reveal_strlit("item");
        assert("remove"@[0] != "from"@[0]);
        assert("item"@[0] != "from"@[0]);
    }
    if fp >= n {
        return Err(fault("OrimaLang Error: 'remove' missing 'from'", line));
    }
    if fp + 1 >= n {
        return Err(fault("OrimaLang Error: missing list name in 'remove'", line));
    }
    let l = match tok_word(&c[fp + 1]) {
        Some(w) => w,
        None => {
            return Err(fault("OrimaLang Error: expected list name after 'from'", line));
        },
    };
    if n > 1 && tok_is_word(&c[1], "item") {
        proof {
            lemma_tv_sub(c@, 2, fp as int);
        }
        match parse_expr(&c[2..fp], line) {
            Ok(e) => Ok(Stmt::RemoveItemFromList(e, l)),
            Err(f) => Err(f),
        }
    } else {
        proof {
            lemma_tv_sub(c@, 1, fp as int);
        }
        match parse_value_expr(&c[1..fp], line) {
            Ok(e) => Ok(Stmt::RemoveFromList(e, l)),
            Err(f) => Err(f),
        }
    }
}

/// `define <name> taking <p> and <p> ...`, a body and its `end` marker.
fn parse_define<N: Copy>(cl: &Vec<Vec<Spanned<N>>>, idx: usize, line: usize) -> (r: Result<
    (Stmt<N>, usize),
    Fault,
>)
    requires
        opens_with(cl, idx, "define"@),
    ensures
        pv_step(r) == s_define(cls_view(cl@), idx as int, line),
        r matches Ok((_, j)) ==> idx < j <= cl@.len(),
    decreases weight(cls_view(cl@), idx as int), 2nat,
{
    let ghost cv = cls_view(cl@);
    let c = cl[idx].as_slice();
    let ghost t = toks_view(c@);
    let ws = words_of(c);
    let tp = position_text(&ws, "taking", 0);
    proof {
        assert(t == cv[idx as int]);
        lemma_words(t);
        reveal_strlit("define");
        reveal_strlit("taking");
        assert("define"@[0] != "taking"@[0]);
        assert(views(ws@)[0] == ws@[0]@);
        if ws@.len() > 0 {
            assert(views(ws@)[0] == "define"@);
            assert(first_text(views(ws@), "taking"@, 0) == first_text(views(ws@), "taking"@, 1));
            lemma_first_text(views(ws@), "taking"@, 1);
        }
    }
    let name_end = if tp < ws.len() {
        tp
    } else {
        ws.len()
    };
    if ws.len() < 2 {
        return Err(fault("OrimaLang Error: 'define' needs a function name", line));
    }
    let name_words = sub_strings(&ws, 1, name_end);
    let name = join_strings(&name_words, " ");
    if name.as_str().is_empty() {
        return Err(fault("OrimaLang Error: 'define' needs a function name", line));
    }
    let params = taking_names_exec(&ws, tp);
    let (b, next) = match parse_body(cl, idx) {
        Ok(x) => x,
        Err(f) => return Err(f),
    };
    Ok((Stmt::Define(name, params, b), next))
}

/// `define type <name> taking <f> and <f> ...`, its methods and `end type`.
fn parse_define_class<N: Copy>(cl: &Vec<Vec<Spanned<N>>>, idx: usize, line: usize) -> (r: Result<
    (Stmt<N>, usize),
    Fault,
>)
    requires
        idx < cl@.len(),
    ensures
        pv_step(r) == s_define_class(cls_view(cl@), idx as int, line),
        r matches Ok((_, j)) ==> idx < j <= cl@.len(),
    decreases weight(cls_view(cl@), idx as int), 3nat,
{
    let ghost cv = cls_view(cl@);
    let _len = cl.len();
    let ws = words_of(cl[idx].as_slice());
    proof {
        assert(toks_view(cl@[idx as int]@) == cv[idx as int]);
    }
    if ws.len() < 3 {
        return Err(fault("OrimaLang Error: 'define type' needs a type name", line));
    }
    let tp = position_text(&ws, "taking", 0);
    let fields = taking_names_exec(&ws, tp);
    let (ms, next) = match parse_class_body(cl, idx + 1) {
        Ok(x) => x,
        Err(f) => return Err(f),
    };
    Ok((Stmt::DefineClass(ws[2].clone(), fields, ms), next))
}

/// The methods of a class body from clause `i0`.
fn parse_class_body<N: Copy>(cl: &Vec<Vec<Spanned<N>>>, i0: usize) -> (r: Result<
    (Vec<(String, Vec<String>, Vec<Stmt<N>>)>, usize),
    Fault,
>)
    requires
        i0 <= cl@.len(),
    ensures
        pv_methods(r) == s_class_body(cls_view(cl@), i0 as int, Seq::empty()),
        r matches Ok((_, j)) ==> i0 <= j <= cl@.len(),
    decreases weight(cls_view(cl@), i0 as int), 3nat,
{
    let ghost cv = cls_view(cl@);
    let mut ms: Vec<(String, Vec<String>, Vec<Stmt<N>>)> = Vec::new();
    let mut i: usize = i0;
    proof {
        assert(ss_methods(ms@) =~= Seq::<SMethod<N>>::empty());
    }
    while i < cl.len()
        invariant
            i0 <= i <= cl@.len(),
            cv == cls_view(cl@),
            s_class_body(cv, i0 as int, Seq::empty()) == s_class_body(cv, i as int, ss_methods(ms@)),
        decreases cl@.len() - i,
    {
        if is_end_marker_exec(&cl[i]) {
            let ew = words_of(cl[i].as_slice());
            proof {
                assert(toks_view(cl@[i as int]@) == cv[i as int]);
            }
            if ew.len() >= 2 && is_kw(&ew[1], "type") {
                return Ok((ms, i + 1));
            } else {
                return Ok((ms, i));
            }
        }
        if clause_starts_with(&cl[i], "define") {
            proof {
                lemma_weight(cv, i0 as int, i as int);
            }
            let line = cl[i][0].line;
            let (st, next) = match parse_define(cl, i, line) {
                Ok(x) => x,
                Err(f) => return Err(f),
            };
            match st {
                Stmt::Define(name, ps, b) => {
                    proof {
                        lemma_ss_methods_push(ms@, (name, ps, b));
                    }
                    ms.push((name, ps, b));
                },
                _ => {},
            }
            i = next;
        } else {
            i += 1;
        }
    }
    Ok((ms, i))
}

/// `run <function> with <args> and store in <var>`
fn parse_run<N: Copy>(c: &[Spanned<N>], line: usize) -> (r: Result<Stmt<N>, Fault>)
    requires
        begins(c, "run"@),
    ensures
        pv_stmt(r) == s_run(toks_view(c@), line),
{
    let ghost t = toks_view(c@);
    let n = c.len();
    if n < 2 {
        return Err(fault("OrimaLang Error: 'run' needs a function name", line));
    }
    let wp = position_word(c, "with", 0);
    let sp = position_word(c, "store", 0);
    proof {
        lemma_first_word(t, "with"@, 0);
        lemma_first_word(t, "store"@, 0);
        reveal_strlit("run");
        reveal_strlit("with");
        reveal_strlit("store");
        assert("run"@[0] != "with"@[0]);
        assert("run"@[0] != "store"@[0]);
    }
    let name_end = if wp < n {
        wp
    } else if sp < n {
        sp
    } else {
        n
    };
    proof {
        lemma_tv_sub(c@, 1, name_end as int);
    }
    let name = name_of_toks(&c[1..name_end]);
    if name.as_str().is_empty() {
        return Err(fault("OrimaLang Error: 'run' needs a function name", line));
    }
    let args = match parse_args(c, wp, sp, line) {
        Ok(a) => a,
        Err(f) => return Err(f),
    };
    let ip = position_word(c, "in", 0);
    let store = store_var_exec(c, sp, ip);
    Ok(Stmt::Run(name, args, store))
}

/// `run <method> on <object> with <args> and store in <var>`
fn parse_run_method<N: Copy>(c: &[Spanned<N>], line: usize) -> (r: Result<Stmt<N>, Fault>)
    requires
        begins(c, "run"@),
    ensures
        pv_stmt(r) == s_run_method(toks_view(c@), line),
{
    let ghost t = toks_view(c@);
    let n = c.len();
    let op = position_word(c, "on", 0);
    proof {
        lemma_first_word(t, "on"@, 0);
        reveal_strlit("run");
        reveal_strlit("on");
        assert("run"@[0] != "on"@[0]);
    }
    if op >= n {
        return Err(fault("OrimaLang Error: 'run ... on' missing 'on'", line));
    }
    proof {
        lemma_tv_sub(c@, 1, op as int);
    }
    let name = name_of_toks(&c[1..op]);
    if name.as_str().is_empty() {
        return Err(fault("OrimaLang Error: 'run on' needs a method name", line));
    }
    let obj = match word_at_exec(c, op + 1) {
        Some(o) => o,
        None => {
            return Err(fault("OrimaLang Error: expected object variable after 'on'", line));
        },
    };
    let wp = position_word(c, "with", op + 2);
    let sp = position_word(c, "store", op + 2);
    let args = match parse_args(c, wp, sp, line) {
        Ok(a) => a,
        Err(f) => return Err(f),
    };
    let ip = position_word(c, "in", sp);
    let store = store_var_exec(c, sp, ip);
    Ok(Stmt::RunMethod(name, args, obj, store))
}

/// `give back <expr>`
fn parse_give_back<N: Copy>(c: &[Spanned<N>], line: usize) -> (r: Result<Stmt<N>, Fault>)
    ensures
        pv_stmt(r) == s_give_back(toks_view(c@), line),
{
    let ws = words_of(c);
    proof {
        lemma_words(toks_view(c@));
    }
    if ws.len() < 2 || !is_kw(&ws[1], "back") {
        return Err(fault("OrimaLang Error: expected 'give back <value>'", line));
    }
    let n = c.len();
    proof {
        lemma_tv_sub(c@, 2, n as int);
    }
    match parse_expr(&c[2..n], line) {
        Ok(e) => Ok(Stmt::GiveBack(e)),
        Err(f) => Err(f),
    }
}

/// `ask <prompt> and store in <var>`
fn parse_ask<N: Copy>(c: &[Spanned<N>], line: usize) -> (r: Result<Stmt<N>, Fault>)
    requires
        begins(c, "ask"@),
    ensures
        pv_stmt(r) == s_ask(toks_view(c@), line),
{
    let ghost t = toks_view(c@);
    let n = c.len();
    let sp = position_word(c, "store", 0);
    proof {
        lemma_first_word(t, "store"@, 0);
        reveal_strlit("ask");
        reveal_strlit("store");
        reveal_strlit("and");
        assert("ask"@[0] != "store"@[0]);
        assert("ask"@[1] != "and"@[1]);
    }
    if sp >= n {
        return Err(fault("OrimaLang Error: 'ask' missing 'store in'", line));
    }
    let v = match if n - sp > 2 {
        word_at_exec(c, sp + 2)
    } else {
        None
    } {
        Some(v) => v,
        None => {
            return Err(fault("OrimaLang Error: 'ask' missing variable name", line));
        },
    };
    let end = if sp > 0 && tok_is_word(&c[sp - 1], "and") {
        sp - 1
    } else {
        sp
    };
    proof {
        lemma_tv_sub(c@, 1, end as int);
    }
    Ok(Stmt::Ask(texts_of(&c[1..end]), v))
}

/// The statements of one statement's tokens (no final period).
fn parse_statement_tokens<N: Copy>(st: &[Spanned<N>], lines: &mut Vec<usize>) -> (r: Result<
    Vec<Stmt<N>>,
    Fault,
>)
    ensures
        pv_stmts(r) == s_statement(toks_view(st@)),
        r matches Ok(v) ==> final(lines)@ == old(lines)@ + s_statement_lines(toks_view(st@))
            && final(lines)@.len() == old(lines)@.len() + v@.len(),
{
    let cl = split_tokens(st, true);
    if cl.len() == 0 {
        let r = Ok(Vec::new());
        proof {
            assert(ss_list(Seq::<Stmt<N>>::empty()) =~= Seq::<SStmt<N>>::empty());
            assert(old(lines)@ + Seq::<usize>::empty() =~= old(lines)@);
        }
        return r;
    }
    let mut mine: Vec<usize> = Vec::new();
    match parse_clauses(&cl, 0, &mut mine) {
        Ok((ss, _)) => {
            proof {
                lemma_clause_lines_acc(cls_view(cl@), 0, Seq::empty());
                assert(Seq::<usize>::empty() + s_clause_lines(cls_view(cl@), 0, Seq::empty())
                    =~= s_clause_lines(cls_view(cl@), 0, Seq::empty()));
            }
            lines.append(&mut mine);
            Ok(ss)
        },
        Err(f) => Err(f),
    }
}

// ─── The reader ─────────────────────────────────────────────────────────────

/// What a parse gives a caller: the statements, or the message of an error.
pub open spec fn parse_outcome<N>(r: Result<Vec<Stmt<N>>, String>, s: PRes<Seq<SStmt<N>>>) -> bool {
    match r {
        Ok(v) => s == Ok::<Seq<SStmt<N>>, SFault>(ss_list(v@)),
        Err(m) => s == Err::<Seq<SStmt<N>>, SFault>(SFault::Msg(m@)),
    }
}

/// A reader over a token sequence, with its position.
pub struct Parser<N> {
    tokens: Vec<Spanned<N>>,
    pos: usize,
}

impl<N> View for Parser<N> {
    type V = (Seq<SSpanned<N>>, int);

    closed spec fn view(&self) -> (Seq<SSpanned<N>>, int) {
        (toks_view(self.tokens@), self.pos as int)
    }
}

impl<N: Copy> Parser<N> {
    /// A reader at the first token.
    pub fn new(tokens: Vec<Spanned<N>>) -> (p: Self)
        ensures
            p@ == (toks_view(tokens@), 0int),
    {
        Parser { tokens, pos: 0 }
    }

    fn read_program(&mut self, lines: &mut Vec<usize>) -> (r: Result<Vec<Stmt<N>>, Fault>)
        requires
            eof_from(old(self)@.0, old(self)@.1),
            old(lines)@.len() == 0,
        ensures
            final(self)@.0 == old(self)@.0,
            (pv_stmts(r), final(self)@.1) == s_program_from(
                old(self)@.0,
                old(self)@.1,
                Seq::empty(),
            ),
            r matches Ok(v) ==> final(lines)@ == s_program_lines(
                old(self)@.0,
                old(self)@.1,
                Seq::empty(),
            ) && final(lines)@.len() == v@.len(),
    {
        let ghost t = toks_view(self.tokens@);
        let ghost p0 = self.pos as int;
        let mut stmts: Vec<Stmt<N>> = Vec::new();
        proof {
            assert(ss_list(stmts@) =~= Seq::<SStmt<N>>::empty());
            assert(lines@ =~= Seq::<usize>::empty());
        }
        loop
            invariant
                t == toks_view(self.tokens@),
                t == old(self)@.0,
                p0 == old(self)@.1,
                eof_from(t, self.pos as int),
                s_program_from(t, p0, Seq::empty()) == s_program_from(
                    t,
                    self.pos as int,
                    ss_list(stmts@),
                ),
                s_program_lines(t, p0, Seq::empty()) == s_program_lines(
                    t,
                    self.pos as int,
                    lines@,
                ),
                lines@.len() == stmts@.len(),
            decreases self.tokens@.len() - self.pos,
        {
            let pos = self.pos;
            match self.tokens[pos].token {
                Token::Eof => {
                    return Ok(stmts);
                },
                _ => {},
            }
            let _n = self.tokens.len();
            let end = stmt_end_exec(&self.tokens, pos);
            proof {
                lemma_stmt_end(t, pos as int);
                let k = choose|k: int| pos <= k < t.len() && (#[trigger] t[k]).token is Eof;
                assert(end <= k);
            }
            let next = match self.tokens[end].token {
                Token::Period => end + 1,
                _ => end,
            };
            if end == pos {
                self.pos = next;
            } else {
                proof {
                    lemma_tv_sub(self.tokens@, pos as int, end as int);
                }
                let parsed = parse_statement_tokens(&self.tokens[pos..end], lines);
                self.pos = next;
                match parsed {
                    Ok(mut ss) => {
                        proof {
                            lemma_ss_list_append(stmts@, ss@);
                        }
                        stmts.append(&mut ss);
                    },
                    Err(f) => {
                        return Err(f);
                    },
                }
            }
        }
    }

    /// Parses all the statements from the reader's position to the end of input.
    pub fn parse_program(&mut self) -> (r: Result<Vec<Stmt<N>>, String>)
        requires
            eof_from(old(self)@.0, old(self)@.1),
        ensures
            final(self)@.0 == old(self)@.0,
            final(self)@.1 == s_program_from(old(self)@.0, old(self)@.1, Seq::empty()).1,
            parse_outcome(r, s_program_from(old(self)@.0, old(self)@.1, Seq::empty()).0),
    {
        let mut lines: Vec<usize> = Vec::new();
        match self.read_program(&mut lines) {
            Ok(v) => Ok(v),
            Err(Fault::Msg(m)) => Err(m),
        }
    }

    /// Parses a condition, as `if` and `while` take it.
    pub fn parse_condition_expr(&self, tokens: &[Spanned<N>], line: usize) -> (r: Result<
        Expr<N>,
        String,
    >)
        ensures
            match r {
                Ok(e) => s_expr(toks_view(tokens@), line) == Ok::<SExpr<N>, SFault>(e@),
                Err(m) => s_expr(toks_view(tokens@), line) == Err::<SExpr<N>, SFault>(
                    SFault::Msg(m@),
                ),
            },
    {
        match parse_expr(tokens, line) {
            Ok(e) => Ok(e),
            Err(Fault::Msg(m)) => Err(m),
        }
    }
}

/// Parses a token sequence that ends with `Eof` into statements.
pub fn parse<N: Copy>(tokens: Vec<Spanned<N>>) -> (r: Result<Vec<Stmt<N>>, String>)
    requires
        eof_from(toks_view(tokens@), 0),
    ensures
        parse_outcome(r, s_parse(toks_view(tokens@))),
{
    let mut parser = Parser::new(tokens);
    parser.parse_program()
}

/// Parses a token sequence that ends with `Eof` into statements, each with the
/// line of the clause it begins with.
pub fn parse_with_lines<N: Copy>(tokens: Vec<Spanned<N>>) -> (r: Result<
    (Vec<Stmt<N>>, Vec<usize>),
    String,
>)
    requires
        eof_from(toks_view(tokens@), 0),
    ensures
        match r {
            Ok((v, ls)) => parse_outcome(Ok(v), s_parse(toks_view(tokens@))) && ls@ == s_lines(
                toks_view(tokens@),
            ) && ls@.len() == v@.len(),
            Err(m) => parse_outcome(Err(m), s_parse(toks_view(tokens@))),
        },
{
    let mut parser = Parser::new(tokens);
    let mut lines: Vec<usize> = Vec::new();
    match parser.read_program(&mut lines) {
        Ok(v) => Ok((v, lines)),
        Err(Fault::Msg(m)) => Err(m),
    }
}

} // verus!
