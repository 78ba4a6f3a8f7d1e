
use orimalang::host::{NumRel, Query, Reply};
use orimalang::parser::Op;
use orimalang::session::{awaits_more, repl_input, ReplStep};
use orimalang::{run_program_interactive, run_program_internal, Interaction, ReplState};

fn format_number(n: f64) -> String {
    if n.fract() == 0.0 && n.abs() < 1e15 {
        format!("{}", n as i64)
    } else {
        let s = format!("{:.10}", n);
        let s = s.trim_end_matches('0');
        let s = s.trim_end_matches('.');
        s.to_string()
    }
}

fn host(q: Query<f64>) -> Reply<f64> {
    match q {
        Query::Parse(s) => Reply::MaybeNum(s.parse::<f64>().ok()),
        Query::Format(n) => Reply::Text(format_number(n)),
        Query::Arith(op, a, b) => Reply::Num(match op {
            Op::Plus => a + b,
            Op::Minus => a - b,
            Op::Times => a * b,
            Op::DividedBy => a / b,
            Op::Remainder => a % b,
        }),
        Query::Compare(rel, a, b) => Reply::Flag(match rel {
            NumRel::Eq => a == b,
            NumRel::Gt => a > b,
            NumRel::Lt => a < b,
            NumRel::Ge => a >= b,
            NumRel::Le => a <= b,
        }),
        Query::IsZero(n) => Reply::Flag(n == 0.0),
        Query::FromCount(k) => Reply::Num(k as f64),
        Query::ToCount(n) => Reply::Count(n as i64),
        Query::ToIndex(n) => Reply::Index(n as usize),
    }
}

fn run(src: &str) -> String {
    run_program_internal(src, &host)
}

#[test]
fn say_a_string() {
    assert_eq!(run("say \"hello\"."), "hello\n");
}

#[test]
fn say_joins_parts_with_spaces() {
    assert_eq!(run("set name to \"Ori\". say \"hello\" and name and \"nice to meet you\"."), "hello Ori nice to meet you\n");
}

#[test]
fn empty_program_shows_nothing() {
    assert_eq!(run(""), "");
    assert_eq!(run("note only a comment."), "");
}

#[test]
fn keywords_are_case_insensitive() {
    assert_eq!(run("SAY \"x\". Set A to 2. say a."), "x\n2\n");
}

#[test]
fn arithmetic_statements() {
    assert_eq!(
        run("set x to 5. increase x by 10. decrease x by 3. multiply x by 2. divide x by 4. say x."),
        "6\n"
    );
}

#[test]
fn math_expressions() {
    assert_eq!(run("set a to 7 divided by 2. say a."), "3.5\n");
    assert_eq!(run("set r to 17 remainder of divided by 5. say r."), "2\n");
    assert_eq!(run("set t to 6 times 7. say t."), "42\n");
    assert_eq!(run("set d to 10 minus 15. say d."), "-5\n");
    assert_eq!(run("set p to 1 divided by 4. set q to p plus 1. say q."), "1.25\n");
    assert_eq!(run("set p to 0.5."), "OrimaLang Error: unexpected number at start of statement on line 1\n");
}

#[test]
fn division_by_zero_is_an_error() {
    assert_eq!(run("say \"a\". set x to 1 divided by 0. say \"b\"."), "a\nOrimaLang Error: division by zero on line 1\n");
    assert_eq!(run("set x to 1 remainder of divided by 0."), "OrimaLang Error: division by zero in remainder on line 1\n");
}

#[test]
fn undefined_variable_error() {
    assert_eq!(
        run("say ghost."),
        "OrimaLang Error: undefined variable 'ghost' - did you mean to quote it as \"ghost\"? on line 1\n"
    );
}

#[test]
fn runtime_errors_carry_the_statement_line() {
    assert_eq!(
        run("create list fruits.\nadd \"apple\" to fruits.\n\nsay item 5 from fruits."),
        "OrimaLang Error: index 5 out of range for list 'fruits' on line 4\n"
    );
    assert_eq!(
        run("say \"start\".\nif 1 is 1,\n  say \"in\",\n  say nope,\nend if."),
        "start\nin\nOrimaLang Error: undefined variable 'nope' - did you mean to quote it as \"nope\"? on line 2\n"
    );
}

#[test]
fn repeat_loop() {
    assert_eq!(
        run("set score to 0. repeat 5 times, increase score by 10, end repeat. say \"final score is\" and score."),
        "final score is 50\n"
    );
}

#[test]
fn if_otherwise() {
    assert_eq!(run("set score to 50. if score is at least 40, say \"you win\", otherwise say \"try harder\", end if."), "you win\n");
    assert_eq!(run("set score to 5. if score is at least 40, say \"you win\", otherwise say \"try harder\", end if."), "try harder\n");
}

#[test]
fn comparisons() {
    assert_eq!(run("if 3 is greater than 2, say \"gt\", end if."), "gt\n");
    assert_eq!(run("if 3 is less than 2, say \"lt\", otherwise say \"not lt\", end if."), "not lt\n");
    assert_eq!(run("if 2 is at most 2, say \"le\", end if."), "le\n");
    assert_eq!(run("if \"Hello\" is \"hello\", say \"same\", end if."), "same\n");
    assert_eq!(run("if \"abc\" is not \"abd\", say \"differ\", end if."), "differ\n");
    assert_eq!(run("if \"banana\" contains \"NAN\", say \"yes\", end if."), "yes\n");
    assert_eq!(run("if \"banana\" starts with \"ban\", say \"yes\", end if."), "yes\n");
    assert_eq!(run("if \"banana\" ends with \"na\", say \"yes\", end if."), "yes\n");
}

#[test]
fn logical_operators() {
    assert_eq!(run("set flag to true. if 18 is greater than 17 and also flag is true, say \"ok\", end if."), "ok\n");
    assert_eq!(run("set x to 5. set y to 2. if x is 1 or y is 2, say \"yes\", end if."), "yes\n");
    assert_eq!(run("if it is not the case that 1 is 2, say \"not\", end if."), "not\n");
}

#[test]
fn nothing_is_falsy() {
    assert_eq!(run("set name to nothing. if name, say \"set\", otherwise say \"empty\", end if."), "empty\n");
    assert_eq!(run("set name to nothing. say name."), "nothing\n");
}

#[test]
fn while_loop_with_stop() {
    assert_eq!(
        run("set i to 0. while i is less than 10, increase i by 1, if i is 3, stop, end if, end while. say i."),
        "3\n"
    );
}

#[test]
fn lists() {
    assert_eq!(
        run("create list fruits. add \"apple\" to fruits. add \"banana\" to fruits. for each fruit in fruits, say fruit, end for."),
        "apple\nbanana\n"
    );
    assert_eq!(run("create list xs. add 1 to xs. add 2 to xs. say xs. say the size of xs."), "[1, 2]\n2\n");
    assert_eq!(run("create list xs. add 1 to xs. add 2 to xs. remove 1 from xs. say xs."), "[2]\n");
    assert_eq!(run("create list xs. add \"a\" to xs. add \"b\" to xs. say item 2 from xs."), "b\n");
}

#[test]
fn undefined_list_error() {
    assert_eq!(run("add 1 to nums."), "OrimaLang Error: undefined list 'nums' on line 1\n");
}

#[test]
fn functions() {
    assert_eq!(run("define greet taking person, say \"hello\" and person, end define. run greet with \"World\"."), "hello World\n");
    assert_eq!(
        run("define double taking n, give back n times 2, end define. run double with 21 and store in r. say r."),
        "42\n"
    );
    assert_eq!(run("run missing."), "OrimaLang Error: undefined function 'missing' on line 1\n");
}

#[test]
fn function_locals_do_not_leak() {
    assert_eq!(
        run("define f taking p, set q to p, end define. run f with 1. say p."),
        "OrimaLang Error: undefined variable 'p' - did you mean to quote it as \"p\"? on line 1\n"
    );
}

#[test]
fn classes_and_methods() {
    let src = "define type Dog taking name and breed,\n  define bark, say \"Woof I am\" and name of self, end define,\nend type.\n\ncreate Dog with \"Rex\" and \"Labrador\" and store in myDog.\nrun bark on myDog.";
    assert_eq!(run(src), "Woof I am Rex\n");
}

#[test]
fn object_text_lists_fields_sorted() {
    assert_eq!(
        run("define type Pet taking zed and alpha, end type. create Pet with 1 and 2 and store in p. say p."),
        "pet(alpha: 2, zed: 1)\n"
    );
}

#[test]
fn text_helpers() {
    assert_eq!(run("set s to \"Hi\". say s in uppercase. say s in lowercase. say the length of s."), "HI\nhi\n2\n");
    assert_eq!(run("set a to \"x\". set b to \"y\". say a joined with b."), "xy\n");
}

#[test]
fn readme_example() {
    let src = r#"note This is a comment.
set name to nothing.

if name is nothing,
  ask "what is your name" and store in name,
end if.

say "hello" and name.

set score to 0.
repeat 5 times, increase score by 10, end repeat.
say "final score is" and score.

if score is at least 40, say "you win", otherwise say "try harder", end if.

create list fruits.
add "apple" to fruits.
add "banana" to fruits.
for each fruit in fruits, say fruit, end for.

define greet taking person, say "hello" and person, end define.
run greet with "World".

define type Dog taking name and breed,
  define bark, say "Woof I am" and name of self, end define,
end type.

create Dog with "Rex" and "Labrador" and store in myDog.
run bark on myDog.
"#;
    assert_eq!(
        run(src),
        "hello \nfinal score is 50\nyou win\napple\nbanana\nhello World\nWoof I am Rex\n"
    );
}

#[test]
fn parse_error_unknown_keyword() {
    assert_eq!(run("say \"a\".\n\nbogus thing."), "OrimaLang Error: unknown statement keyword 'bogus' on line 3\n");
}

#[test]
fn parse_error_number_first() {
    assert_eq!(run("5 is x."), "OrimaLang Error: unexpected number at start of statement on line 1\n");
}

#[test]
fn parse_error_messages() {
    assert_eq!(run("set x."), "OrimaLang Error: malformed 'set' statement on line 1\n");
    assert_eq!(run("increase x to 3."), "OrimaLang Error: expected 'by' in 'increase' statement on line 1\n");
    assert_eq!(run("for x in y."), "OrimaLang Error: malformed 'for each' statement on line 1\n");
    assert_eq!(run("add 1 xs."), "OrimaLang Error: 'add' missing 'to' on line 1\n");
    assert_eq!(run("say hello world."), "OrimaLang Error: unexpected multi-word expression on line 1; did you forget quotes?\n");
    assert_eq!(run("ask \"name\"."), "OrimaLang Error: 'ask' missing 'store in' on line 1\n");
}

#[test]
fn inputs_that_end_too_early_are_reported() {
    assert_eq!(run("say item 1 from."), "OrimaLang Error: expected list name after 'from' on line 1\n");
    assert_eq!(
        run("create Dog store in d with 1."),
        "OrimaLang Error: 'with' must come before 'store in' on line 1\n"
    );
    assert_eq!(run("say \"ok\"."), "ok\n");
}

fn no_answers() -> Vec<String> {
    Vec::new()
}

fn ended(text: &str) -> Interaction {
    Interaction::Ended(text.to_string(), Ok(()))
}

fn failed(text: &str, e: &str) -> Interaction {
    Interaction::Ended(text.to_string(), Err(e.to_string()))
}

#[test]
fn repl_keeps_state() {
    let mut state: ReplState<f64> = ReplState::new();
    let none = no_answers();
    assert_eq!(state.run_snippet("set x to 3.", &none, &host), ended(""));
    assert_eq!(state.run_snippet("increase x by 1. say x.", &none, &host), ended("4\n"));
    assert_eq!(
        state.run_snippet("bogus.", &none, &host),
        failed(
            "OrimaLang Error: unknown statement keyword 'bogus' on line 1\n",
            "OrimaLang Error: unknown statement keyword 'bogus' on line 1"
        )
    );
    assert_eq!(state.run_snippet("say x.", &none, &host), ended("4\n"));
    assert_eq!(
        state.run_snippet("say item 1 from.", &none, &host),
        failed(
            "OrimaLang Error: expected list name after 'from' on line 1\n",
            "OrimaLang Error: expected list name after 'from' on line 1"
        )
    );
    assert_eq!(state.run_snippet("say x.", &none, &host), ended("4\n"));
}

#[test]
fn repl_shows_output_then_the_error_line() {
    let mut state: ReplState<f64> = ReplState::new();
    let none = no_answers();
    assert_eq!(
        state.run_snippet("say \"a\". set z to 1 divided by 0. say \"b\".", &none, &host),
        failed("a\nOrimaLang Error: division by zero on line 1\n", "OrimaLang Error: division by zero on line 1")
    );
}

#[test]
fn repl_default_is_fresh() {
    let mut state: ReplState<f64> = ReplState::default();
    assert_eq!(
        state.run_snippet("say x.", &no_answers(), &host),
        failed(
            "OrimaLang Error: undefined variable 'x' - did you mean to quote it as \"x\"? on line 1\n",
            "OrimaLang Error: undefined variable 'x' - did you mean to quote it as \"x\"? on line 1"
        )
    );
}

#[test]
fn repl_ask_waits_for_an_answer() {
    let mut state: ReplState<f64> = ReplState::new();
    let src = "say \"hello\". ask \"what is your name\" and store in n. say n.";
    assert_eq!(
        state.run_snippet(src, &no_answers(), &host),
        Interaction::Awaits("hello\n".to_string(), "what is your name".to_string())
    );
    let answers = vec!["Ori".to_string()];
    assert_eq!(state.run_snippet(src, &answers, &host), ended("hello\nOri\n"));
    assert_eq!(state.run_snippet("say n.", &no_answers(), &host), ended("Ori\n"));
}

#[test]
fn repl_failed_call_closes_its_scope() {
    let mut state: ReplState<f64> = ReplState::new();
    let none = no_answers();
    assert_eq!(state.run_snippet("define f taking a, say b, end define.", &none, &host), ended(""));
    let r = state.run_snippet("run f with 5.", &none, &host);
    assert!(matches!(r, Interaction::Ended(ref t, Err(ref e)) if *t == format!("{}\n", e) && e.starts_with("OrimaLang Error: undefined variable 'b'")));
    let r = state.run_snippet("say a.", &none, &host);
    assert!(matches!(r, Interaction::Ended(ref t, Err(ref e)) if *t == format!("{}\n", e) && e.starts_with("OrimaLang Error: undefined variable 'a'")));
}

#[test]
fn failed_call_closes_its_scope() {
    assert!(run("define f taking a, say b, end define. run f with 5. say a.")
        .starts_with("OrimaLang Error: undefined variable 'b'"));
}

#[test]
fn trailing_note_is_a_comment() {
    assert_eq!(run("set age to 25.   note number\nsay age."), "25\n");
    assert_eq!(run("set flag to true.        note boolean (true / false)\nsay flag."), "true\n");
    assert_eq!(run("set name to \"Ori\".       NOTE string\nsay name."), "Ori\n");
}

#[test]
fn interactive_run_takes_answers_in_order() {
    let src = "ask \"name\" and store in n. say \"hi\" and n. ask \"age\" and store in a. say a. set z to 1 divided by 0.";
    assert_eq!(
        run_program_interactive(src, &no_answers(), &host),
        Interaction::Awaits(String::new(), "name".to_string())
    );
    let one = vec!["Ada".to_string()];
    assert_eq!(
        run_program_interactive(src, &one, &host),
        Interaction::Awaits("hi Ada\n".to_string(), "age".to_string())
    );
    let two = vec!["Ada".to_string(), "36".to_string()];
    assert_eq!(
        run_program_interactive(src, &two, &host),
        failed("hi Ada\n36\n", "OrimaLang Error: division by zero on line 1")
    );
}

#[test]
fn program_without_answers_stores_empty_text() {
    assert_eq!(run("ask \"name\" and store in n. say \"[\" and n and \"]\"."), "[  ]\n");
}

#[test]
fn skip_to_next_in_repeat() {
    assert_eq!(
        run("set i to 0. set total to 0. repeat 5 times, increase i by 1, if i is 3, skip to next, end if, increase total by i, end repeat. say total."),
        "12\n"
    );
}

#[test]
fn arithmetic_on_unset_variable_starts_at_zero() {
    assert_eq!(run("increase n by 2. say n."), "2\n");
}

#[test]
fn repeat_count_from_text() {
    assert_eq!(run("repeat \"2\" times, say \"x\", end repeat."), "x\nx\n");
    assert_eq!(
        run("repeat \"two\" times, say \"x\", end repeat."),
        "OrimaLang Error: expected number in repeat count, got 'two' on line 1\n"
    );
}

#[test]
fn for_each_over_a_single_value_and_missing_list() {
    assert_eq!(run("set s to \"abc\". for each c in s, say c, end for."), "abc\n");
    assert_eq!(
        run("for each x in missing, say x, end for."),
        "OrimaLang Error: undefined variable 'missing' on line 1\n"
    );
}

#[test]
fn removing_from_lists() {
    assert_eq!(run("create list xs. add 1 to xs. remove item 3 from xs."), "OrimaLang Error: index 3 out of range for list 'xs' on line 1\n");
    assert_eq!(run("create list xs. add \"a\" to xs. add \"b\" to xs. remove item 1 from xs. say xs."), "[b]\n");
    assert_eq!(run("create list xs. add 1 to xs. add 2 to xs. add 1 to xs. remove 1 from xs. say xs."), "[2]\n");
    assert_eq!(run("set x to 1. add 2 to x."), "OrimaLang Error: 'x' is not a list on line 1\n");
}

#[test]
fn methods_change_their_object() {
    let src = "define type Dog taking name and breed,\n  define bark, say \"Woof I am\" and name of self, end define,\n  define rename taking new_name, set name of self to new_name, end define,\nend type.\ncreate Dog with \"Rex\" and \"Labrador\" and store in myDog.\nrun rename on myDog with \"Buddy\".\nrun bark on myDog.\nsay breed of myDog.\nset name of myDog to \"Max\".\nsay name of myDog.";
    assert_eq!(run(src), "Woof I am Buddy\nLabrador\nMax\n");
}

#[test]
fn method_results_and_errors() {
    let src = "define type Acc taking total,\n  define add taking a and b, give back a plus b, end define,\n  define bump, give back total of self plus 1, end define,\nend type.\ncreate Acc with 1 and store in acc.\nrun add on acc with 10 and 20 and store in result.\nsay result.\nrun bump on acc and store in b.\nsay b.\nrun fly on acc.";
    assert_eq!(run(src), "30\n2\nOrimaLang Error: undefined method 'fly' on class 'acc' on line 10\n");
    assert_eq!(run("set x to 1. run m on x."), "OrimaLang Error: 'x' is not an object on line 1\n");
    assert_eq!(run("create Ghost with 1 and store in g."), "OrimaLang Error: undefined class 'ghost' on line 1\n");
}

#[test]
fn while_counts_up() {
    assert_eq!(
        run("set count to 1. while count is at most 3, say count, increase count by 1, end while."),
        "1\n2\n3\n"
    );
}

#[test]
fn parameters_are_passed_by_value() {
    assert_eq!(
        run("set x to 1. define f taking y, set y to 5, say y, end define. run f with x. say x."),
        "5\n1\n"
    );
}

#[test]
fn runtime_error_variants() {
    assert_eq!(
        run("if nothing is greater than 1, say \"x\", end if."),
        "OrimaLang Error: expected number in comparison on line 1\n"
    );
    assert_eq!(run("set x to 1. say the size of x."), "OrimaLang Error: 'x' is not a list on line 1\n");
    assert_eq!(run("set x to 1. say item 1 from x."), "OrimaLang Error: 'x' is not a list on line 1\n");
    assert_eq!(run("say item 1 from nums."), "OrimaLang Error: undefined list 'nums' on line 1\n");
    assert_eq!(run("say the length of nope."), "OrimaLang Error: undefined variable 'nope' on line 1\n");
    assert_eq!(run("set x to 1. set y to color of x."), "OrimaLang Error: 'x' is not an object on line 1\n");
    assert_eq!(run("set color of ghost to 1."), "OrimaLang Error: undefined variable 'ghost' on line 1\n");
    assert_eq!(run("set a to true. set b to a times 3. say b."), "3\n");
}

#[test]
fn session_input_is_buffered_until_a_period() {
    let mut buffer = String::new();
    assert_eq!(repl_input(&mut buffer, "say 1.\n"), ReplStep::Run("say 1.".to_string()));
    assert_eq!(buffer, "");
    assert!(!awaits_more(&buffer));
    assert_eq!(repl_input(&mut buffer, "say\n"), ReplStep::Wait);
    assert_eq!(buffer, "say ");
    assert!(awaits_more(&buffer));
    assert_eq!(repl_input(&mut buffer, "1. say 2\n"), ReplStep::Run("say 1.".to_string()));
    assert_eq!(buffer, "say 2");
    assert_eq!(repl_input(&mut buffer, "QUIT.  \n"), ReplStep::Quit);
    assert_eq!(buffer, "say 2");
    let mut other = String::new();
    assert_eq!(repl_input(&mut other, "  quit\n"), ReplStep::Wait);
    assert_eq!(other, "  quit ");
    assert_eq!(repl_input(&mut buffer, "quit now\n"), ReplStep::Wait);
    assert_eq!(buffer, "say 2quit now ");
    let mut empty = String::new();
    assert_eq!(repl_input(&mut empty, " . \n"), ReplStep::Run(".".to_string()));
    assert_eq!(repl_input(&mut empty, "   \n"), ReplStep::Wait);
    assert_eq!(empty, " ");
}

#[test]
fn a_field_name_is_held_once() {
    assert_eq!(
        run("define type T taking a and a, end type. create T with 1 and 2 and store in t. say t."),
        "t(a: 2)\n"
    );
    assert_eq!(run("set x to 1. set x to 2. say x."), "2\n");
}

#[test]
fn quick_example_runs_with_an_answer() {
    let src = "note This is a comment.
set name to nothing.

if name is nothing,
  ask \"what is your name\" and store in name,
end if.

say \"hello\" and name.

set score to 0.
repeat 5 times, increase score by 10, end repeat.
say \"final score is\" and score.

if score is at least 40, say \"you win\", otherwise say \"try harder\", end if.

create list fruits.
add \"apple\" to fruits.
add \"banana\" to fruits.
for each fruit in fruits, say fruit, end for.

define greet taking person, say \"hello\" and person, end define.
run greet with \"World\".

define type Dog taking name and breed,
  define bark, say \"Woof I am\" and name of self, end define,
end type.

create Dog with \"Rex\" and \"Labrador\" and store in myDog.
run bark on myDog.
";
    assert_eq!(
        run_program_interactive(src, &no_answers(), &host),
        Interaction::Awaits(String::new(), "what is your name".to_string())
    );
    let answers = vec!["Ori".to_string()];
    assert_eq!(
        run_program_interactive(src, &answers, &host),
        ended("hello Ori\nfinal score is 50\nyou win\napple\nbanana\nhello World\nWoof I am Rex\n")
    );
}

#[test]
fn methods_change_the_object() {
    let src = "define type Dog taking name and breed,
  define bark,
    say \"Woof I am\" and name of self,
  end define,
  define rename taking new_name,
    set name of self to new_name,
  end define,
end type.
create Dog with \"Rex\" and \"Labrador\" and store in myDog.
run rename on myDog with \"Buddy\".
run bark on myDog.
say breed of myDog.";
    assert_eq!(run(src), "Woof I am Buddy\nLabrador\n");
}

#[test]
fn call_leaves_no_locals_behind() {
    assert!(run("define f taking a, set b to 1, end define. run f with 5. say b.")
        .starts_with("OrimaLang Error: undefined variable 'b'"));
    assert_eq!(run("set b to 2. define f taking a, set b to a, end define. run f with 5. say b."), "5\n");
}

#[test]
fn method_call_leaves_no_locals_behind() {
    let src = "define type Box taking size,
  define grow taking n, set extra to n, set size of self to size plus n, end define,
end type.
create Box with 1 and store in b.
run grow on b with 2.
say size of b.
say extra.";
    let out = run(src);
    assert!(out.starts_with("3\nOrimaLang Error: undefined variable 'extra'"), "{}", out);
}
