use orimalang::evaluator::{eval_expr, eval_program, eval_stmt, value_to_string, Env, Signal};
use orimalang::host::{NumRel, Query, Reply};
use orimalang::lexer::{tokenize, Spanned, Token};
use orimalang::parser::{parse, Comparison, Expr, LogicOp, Op, Parser, Stmt, Value};

fn format_number(n: f64) -> String {
    if n.fract() == 0.0 && n.abs() < 1e15 {
        format!("{}", n as i64)
    } else {
        let s = format!("{:.10}", n);
        let s = s.trim_end_matches('0');
        let s = s.trim_end_matches('.');
        s.to_string()
    }
}

fn host(q: Query<f64>) -> Reply<f64> {
    match q {
        Query::Parse(s) => Reply::MaybeNum(s.parse::<f64>().ok()),
        Query::Format(n) => Reply::Text(format_number(n)),
        Query::Arith(op, a, b) => Reply::Num(match op {
            Op::Plus => a + b,
            Op::Minus => a - b,
            Op::Times => a * b,
            Op::DividedBy => a / b,
            Op::Remainder => a % b,
        }),
        Query::Compare(rel, a, b) => Reply::Flag(match rel {
            NumRel::Eq => a == b,
            NumRel::Gt => a > b,
            NumRel::Lt => a < b,
            NumRel::Ge => a >= b,
            NumRel::Le => a <= b,
        }),
        Query::IsZero(n) => Reply::Flag(n == 0.0),
        Query::FromCount(k) => Reply::Num(k as f64),
        Query::ToCount(n) => Reply::Count(n as i64),
        Query::ToIndex(n) => Reply::Index(n as usize),
    }
}

fn toks(src: &str) -> Vec<Token<f64>> {
    tokenize(src, &host).into_iter().map(|s: Spanned<f64>| s.token).collect()
}

fn lines(src: &str) -> Vec<usize> {
    tokenize(src, &host).into_iter().map(|s: Spanned<f64>| s.line).collect()
}

#[test]
fn tokenize_words_numbers_strings_and_punctuation() {
    assert_eq!(
        toks("Say \"Hi There\", X 42."),
        vec![
            Token::Word("say".to_string()),
            Token::StringLit("Hi There".to_string()),
            Token::Comma,
            Token::Word("x".to_string()),
            Token::Number(42.0),
            Token::Period,
            Token::Eof,
        ]
    );
}

#[test]
fn tokenize_splits_words_at_periods() {
    assert_eq!(
        toks("a.b"),
        vec![Token::Word("a".to_string()), Token::Period, Token::Word("b".to_string()), Token::Eof]
    );
    assert_eq!(toks("1.5"), vec![Token::Number(1.0), Token::Period, Token::Number(5.0), Token::Eof]);
}

#[test]
fn tokenize_skips_comments_and_counts_lines() {
    assert_eq!(toks("note anything at all\nNOTE\nnotes x."), vec![
        Token::Word("notes".to_string()),
        Token::Word("x".to_string()),
        Token::Period,
        Token::Eof,
    ]);
    assert_eq!(lines("say 1.\r\n\r\nsay 2.\n"), vec![1, 1, 1, 3, 3, 3, 3]);
    assert_eq!(lines(""), vec![1]);
}

#[test]
fn tokenize_unterminated_string_runs_to_line_end() {
    assert_eq!(toks("\"abc"), vec![Token::StringLit("abc".to_string()), Token::Eof]);
}

#[test]
fn parse_set_statement() {
    let stmts = parse(tokenize("set x to 1 plus 2.", &host)).unwrap();
    assert_eq!(stmts.len(), 1);
    match &stmts[0] {
        Stmt::SetVar(name, Expr::BinaryOp(l, Op::Plus, r)) => {
            assert_eq!(name, "x");
            assert!(matches!(**l, Expr::Literal(Value::Num(n)) if n == 1.0));
            assert!(matches!(**r, Expr::Literal(Value::Num(n)) if n == 2.0));
        }
        other => panic!("unexpected {:?}", other),
    }
}

#[test]
fn parse_if_with_blocks() {
    let stmts = parse(tokenize("if x is 1, say \"a\", otherwise say \"b\", end if. stop.", &host)).unwrap();
    assert_eq!(stmts.len(), 2);
    match &stmts[0] {
        Stmt::If(Expr::Condition(_, Comparison::Is, _), then_b, else_b) => {
            assert_eq!(then_b.len(), 1);
            assert_eq!(else_b.len(), 1);
        }
        other => panic!("unexpected {:?}", other),
    }
    assert!(matches!(stmts[1], Stmt::StopLoop));
}

#[test]
fn parse_field_forms() {
    let stmts = parse(tokenize("set the color of car to \"red\". say color of car.", &host)).unwrap();
    match &stmts[0] {
        Stmt::SetField(obj, field, _) => {
            assert_eq!(obj, "car");
            assert_eq!(field, "color");
        }
        other => panic!("unexpected {:?}", other),
    }
    match &stmts[1] {
        Stmt::Say(parts) => assert!(matches!(&parts[0], Expr::GetField(o, f) if o == "car" && f == "color")),
        other => panic!("unexpected {:?}", other),
    }
}

#[test]
fn parse_run_method_with_args_and_store() {
    let stmts = parse(tokenize("run grow on tree with 2 and 3 and store in h.", &host)).unwrap();
    match &stmts[0] {
        Stmt::RunMethod(m, args, obj, store) => {
            assert_eq!(m, "grow");
            assert_eq!(args.len(), 2);
            assert_eq!(obj, "tree");
            assert_eq!(store.as_deref(), Some("h"));
        }
        other => panic!("unexpected {:?}", other),
    }
}

#[test]
fn parse_define_type_collects_methods() {
    let stmts = parse(tokenize(
        "define type Box taking w and h, define area, give back w of self times h of self, end define, note, end type.",
        &host,
    ))
    .unwrap();
    match &stmts[0] {
        Stmt::DefineClass(name, fields, methods) => {
            assert_eq!(name, "box");
            assert_eq!(fields, &vec!["w".to_string(), "h".to_string()]);
            assert_eq!(methods.len(), 1);
            assert_eq!(methods[0].0, "area");
        }
        other => panic!("unexpected {:?}", other),
    }
}

#[test]
fn parse_errors_carry_line_numbers() {
    assert_eq!(
        parse(tokenize("say 1.\nrepeat.", &host)).unwrap_err(),
        "OrimaLang Error: expected expression on line 2"
    );
    assert_eq!(
        parse(tokenize("remove 1 from.", &host)).unwrap_err(),
        "OrimaLang Error: missing list name in 'remove' on line 1"
    );
    assert_eq!(
        parse(tokenize("define.", &host)).unwrap_err(),
        "OrimaLang Error: 'define' needs a function name on line 1"
    );
    assert_eq!(
        parse(tokenize("define type.", &host)).unwrap_err(),
        "OrimaLang Error: 'define type' needs a type name on line 1"
    );
    assert_eq!(
        parse(tokenize("give 1.", &host)).unwrap_err(),
        "OrimaLang Error: expected 'give back <value>' on line 1"
    );
    assert_eq!(
        parse(tokenize("create with 1 and store in x.", &host)).unwrap_err(),
        "OrimaLang Error: 'create' needs a class name on line 1"
    );
    assert_eq!(
        parse(tokenize("create Dog with 1.", &host)).unwrap_err(),
        "OrimaLang Error: 'create' needs 'store in <var>' on line 1"
    );
    assert_eq!(
        parse(tokenize("run on x.", &host)).unwrap_err(),
        "OrimaLang Error: 'run on' needs a method name on line 1"
    );
    assert_eq!(
        parse(tokenize("run m on.", &host)).unwrap_err(),
        "OrimaLang Error: expected object variable after 'on' on line 1"
    );
    assert_eq!(
        parse(tokenize("run.", &host)).unwrap_err(),
        "OrimaLang Error: 'run' needs a function name on line 1"
    );
    assert_eq!(
        parse(tokenize("say the size of.", &host)).unwrap_err(),
        "OrimaLang Error: expected list name in 'size of' on line 1"
    );
    assert_eq!(
        parse(tokenize("say , x.", &host)).unwrap_err(),
        "OrimaLang Error: unknown statement keyword 'x' on line 1"
    );
    assert_eq!(
        parse(tokenize("\"x\" is 1.", &host)).unwrap_err(),
        "OrimaLang Error: unexpected token at start of statement on line 1"
    );
    assert_eq!(
        parse(tokenize("set 1 to 2.", &host)).unwrap_err(),
        "OrimaLang Error: expected variable name after 'set' on line 1"
    );
    assert_eq!(
        parse(tokenize("ask \"q\" and store in.", &host)).unwrap_err(),
        "OrimaLang Error: 'ask' missing variable name on line 1"
    );
}

#[test]
fn parse_reports_inputs_that_end_too_early() {
    assert_eq!(
        parse(tokenize("say item 1 from.", &host)).unwrap_err(),
        "OrimaLang Error: expected list name after 'from' on line 1"
    );
    assert_eq!(
        parse(tokenize("run f and store in x with 1.", &host)).unwrap_err(),
        "OrimaLang Error: 'with' must come before 'store in' on line 1"
    );
    assert!(matches!(parse(tokenize("say 1.", &host)), Ok(v) if v.len() == 1));
}

#[test]
fn parser_object_api() {
    let mut p = Parser::new(tokenize("say 1. say 2.", &host));
    let stmts = p.parse_program().unwrap();
    assert_eq!(stmts.len(), 2);
    let ts = tokenize("x is at least 3", &host);
    let cond = p.parse_condition_expr(&ts[..ts.len() - 1], 7).unwrap();
    assert!(matches!(cond, Expr::Condition(_, Comparison::AtLeast, _)));
    let ts = tokenize("a or b and also c", &host);
    let e = p.parse_condition_expr(&ts[..ts.len() - 1], 1).unwrap();
    assert!(matches!(e, Expr::LogicalOp(_, LogicOp::Or, _)));
    assert_eq!(p.parse_condition_expr(&[], 9).unwrap_err(), "OrimaLang Error: expected expression on line 9");
}

#[test]
fn env_scopes() {
    let mut env: Env<f64> = Env::new();
    assert_eq!(env.depth(), 1);
    env.set("x", Value::Num(1.0));
    assert_eq!(env.get("x"), Some(&Value::Num(1.0)));
    env.push_frame();
    env.set_local("x", Value::Num(2.0));
    assert_eq!(env.get("x"), Some(&Value::Num(2.0)));
    env.set("y", Value::Bool(true));
    env.pop_frame();
    assert_eq!(env.get("x"), Some(&Value::Num(1.0)));
    assert_eq!(env.get("y"), None);
    env.pop_frame();
    assert_eq!(env.depth(), 1);
    env.set("x", Value::Nil);
    assert_eq!(env.get("x"), Some(&Value::Nil));
}

#[test]
fn value_texts() {
    assert_eq!(value_to_string(&Value::Num(2.5), &host), "2.5");
    assert_eq!(value_to_string(&Value::Num(-3.0), &host), "-3");
    assert_eq!(value_to_string(&Value::Bool(false), &host), "false");
    assert_eq!(value_to_string(&Value::Nil, &host), "nothing");
    assert_eq!(
        value_to_string(&Value::List(vec![Value::Str("a".to_string()), Value::Num(1.0)]), &host),
        "[a, 1]"
    );
    assert_eq!(
        value_to_string(
            &Value::Object("p".to_string(), vec![("b".to_string(), Value::Num(2.0)), ("a".to_string(), Value::Nil)]),
            &host
        ),
        "p(a: nothing, b: 2)"
    );
}

#[test]
fn evaluate_expressions_and_statements() {
    let mut env: Env<f64> = Env::new();
    env.output_buffer = Some(Vec::new());
    let e = Expr::BinaryOp(
        Box::new(Expr::Literal(Value::Str("4".to_string()))),
        Op::Times,
        Box::new(Expr::Literal(Value::Bool(true))),
    );
    assert_eq!(eval_expr(&e, &mut env, &host), Ok(Value::Num(4.0)));
    let bad = Expr::BinaryOp(
        Box::new(Expr::Literal(Value::Str("four".to_string()))),
        Op::Minus,
        Box::new(Expr::Literal(Value::Num(1.0))),
    );
    assert_eq!(
        eval_expr(&bad, &mut env, &host),
        Err("OrimaLang Error: expected number in subtraction, got 'four'".to_string())
    );
    let cat = Expr::BinaryOp(
        Box::new(Expr::Literal(Value::Str("four".to_string()))),
        Op::Plus,
        Box::new(Expr::Literal(Value::Num(1.0))),
    );
    assert_eq!(eval_expr(&cat, &mut env, &host), Ok(Value::Str("four1".to_string())));
    let s = Stmt::Say(vec![Expr::Literal(Value::Str("hi".to_string()))]);
    assert!(matches!(eval_stmt(&s, &mut env, &host), Ok(Signal::Normal)));
    assert!(matches!(eval_stmt(&Stmt::StopLoop, &mut env, &host), Ok(Signal::Break)));
    let prog = vec![Stmt::SetVar("n".to_string(), Expr::Literal(Value::Num(3.0)))];
    assert_eq!(eval_program(&prog, &mut env, &host), Ok(()));
    assert_eq!(env.get("n"), Some(&Value::Num(3.0)));
    assert_eq!(env.output_buffer, Some(vec!["hi".to_string()]));
}

#[test]
fn token_stream_ends_once_on_the_last_line() {
    let ts = tokenize("say 1.\n\nsay 2.\n", &host);
    let eofs = ts.iter().filter(|s| matches!(s.token, Token::Eof)).count();
    assert_eq!(eofs, 1);
    assert!(matches!(ts[ts.len() - 1].token, Token::Eof));
    assert_eq!(ts[ts.len() - 1].line, 3);
    assert_eq!(lines("say 1.\n\nsay 2.\n"), vec![1, 1, 1, 3, 3, 3, 3]);
    assert_eq!(lines(""), vec![1]);
}

#[test]
fn trailing_note_ends_the_line() {
    assert_eq!(
        toks("set age to 25.   note number\nsay age."),
        vec![
            Token::Word("set".to_string()),
            Token::Word("age".to_string()),
            Token::Word("to".to_string()),
            Token::Number(25.0),
            Token::Period,
            Token::Word("say".to_string()),
            Token::Word("age".to_string()),
            Token::Period,
            Token::Eof,
        ]
    );
    assert_eq!(
        toks("say note."),
        vec![Token::Word("say".to_string()), Token::Word("note".to_string()), Token::Period, Token::Eof]
    );
}

#[test]
fn words_are_lower_case() {
    assert_eq!(
        toks("SAY Hello."),
        vec![Token::Word("say".to_string()), Token::Word("hello".to_string()), Token::Period, Token::Eof]
    );
}

#[test]
fn parser_stops_at_the_first_end_of_input() {
    let mut ts = tokenize("say 1.", &host);
    let before = parse(tokenize("say 1.", &host)).unwrap();
    ts.push(Spanned { token: Token::Word("bogus".to_string()), line: 1 });
    ts.push(Spanned { token: Token::Period, line: 1 });
    let after = parse(ts).unwrap();
    assert_eq!(format!("{:?}", before), format!("{:?}", after));
}

#[test]
fn every_parse_error_names_a_line() {
    let e = parse(tokenize("say 1.\n\nbogus.", &host)).unwrap_err();
    assert!(e.starts_with("OrimaLang Error: "));
    assert!(e.contains(" on line 3"));
    let e = parse(tokenize("say 1.\nsay hello world.", &host)).unwrap_err();
    assert_eq!(e, "OrimaLang Error: unexpected multi-word expression on line 2; did you forget quotes?");
}

#[test]
fn statements_compose_with_an_empty_first_part() {
    let whole = Parser::new(tokenize("say 1. say 2.", &host)).parse_program().unwrap();
    let first = Parser::new(tokenize("say 1.", &host)).parse_program().unwrap();
    let second = Parser::new(tokenize("say 2.", &host)).parse_program().unwrap();
    assert_eq!(whole.len(), first.len() + second.len());
    let empty = Parser::new(tokenize("", &host)).parse_program().unwrap();
    assert!(empty.is_empty());
}
