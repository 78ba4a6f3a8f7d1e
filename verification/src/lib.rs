//! OrimaLang, a plain-English programming language: its tokenizer, parser
//! and tree-walking interpreter. Numbers are the host's: every numeric
//! question goes to a host closure (see [`host`]).
pub mod text;
pub mod parser;
pub mod lexer;
pub mod grammar;
pub mod reading;
pub mod host;
pub mod assoc;
pub mod evaluator;
pub mod semantics;
pub mod laws;
pub mod error_lines;
pub mod call_scopes;
pub mod meaning;
pub mod session;

use vstd::prelude::*;

use crate::evaluator::{eval_program_lines, out_view, rv_unit, s_new, Env, SEnv};
use crate::grammar::{eof_from, s_lines, s_parse, SFault};
use crate::host::{host_ok, oracle, Query, Reply};
use crate::lexer::{s_tokenize, tokenize, toks_view};
use crate::parser::{clone_strings, parse_outcome, parse_with_lines, ss_list, SStmt, Stmt};
use crate::semantics::{s_program_lined, Oracle, SRes};
use crate::text::{join, join_strings, views};

verus! {

/// The lines a buffered run shows: the buffer, with the error that stopped
/// the run as its last line.
pub open spec fn collected(r: SRes<()>, out: Option<Seq<Seq<char>>>) -> Seq<Seq<char>> {
    match out {
        Some(b) => match r {
            Err(e) => b.push(e),
            Ok(_) => b,
        },
        None => Seq::empty(),
    }
}

/// Lines joined by line feeds, with a final line feed unless there is no text.
pub open spec fn render(lines: Seq<Seq<char>>) -> Seq<char> {
    let s = join(lines, "\n"@);
    if s.len() > 0 {
        s.push('\n')
    } else {
        s
    }
}

/// `env` with an empty output buffer.
pub open spec fn buffered<N>(env: SEnv<N>) -> SEnv<N> {
    SEnv { output: Some(Seq::empty()), ..env }
}

/// Running statements (each with its line) in `env` with output buffered: the
/// text shown, and the environment after, its buffer taken out.
pub open spec fn s_run_in<N>(o: Oracle<N>, stmts: Seq<SStmt<N>>, lines: Seq<usize>, env: SEnv<N>) -> (
    Seq<char>,
    SEnv<N>,
) {
    let (r, env1) = s_program_lined(o, stmts, lines, 0, buffered(env));
    (render(collected(r, env1.output)), SEnv { output: None, ..env1 })
}

/// What running a source text in a fresh environment shows: a parse error's
/// message and a line feed, else the buffered run (`ask` stores the empty text).
pub open spec fn s_run_source<N>(o: Oracle<N>, source: Seq<char>) -> Seq<char> {
    match s_parse(s_tokenize(o, source)) {
        Ok(stmts) => s_run_in(o, stmts, s_lines(s_tokenize(o, source)), s_new()).0,
        Err(SFault::Msg(m)) => m.push('\n'),
    }
}

/// The outcome of a run that is given the answers for `ask`.
#[derive(Debug, PartialEq)]
pub enum Interaction {
    /// The run ended: the text it said, and its result.
    Ended(String, Result<(), String>),
    /// The run stopped at an `ask` with no answer left: the text it said so
    /// far, and the prompt to show.
    Awaits(String, String),
}

pub enum SInteraction {
    Ended(Seq<char>, SRes<()>),
    Awaits(Seq<char>, Seq<char>),
}

impl View for Interaction {
    type V = SInteraction;

    open spec fn view(&self) -> SInteraction {
        match *self {
            Interaction::Ended(t, r) => SInteraction::Ended(t@, rv_unit(r)),
            Interaction::Awaits(t, p) => SInteraction::Awaits(t@, p@),
        }
    }
}

/// `env` ready for a run given `answers`: an empty buffer, nothing awaited.
pub open spec fn answering<N>(env: SEnv<N>, answers: Seq<Seq<char>>) -> SEnv<N> {
    SEnv { output: Some(Seq::empty()), input: Some(answers), waiting: None, ..env }
}

/// Running statements in `env` with the given answers: when an `ask` finds no
/// answer left, the text said so far and its prompt, with `env` as it was;
/// else the text said and the result, with the environment after the run.
pub open spec fn s_interact<N>(
    o: Oracle<N>,
    stmts: Seq<SStmt<N>>,
    lines: Seq<usize>,
    answers: Seq<Seq<char>>,
    env: SEnv<N>,
) -> (SInteraction, SEnv<N>) {
    let (r, env1) = s_program_lined(o, stmts, lines, 0, answering(env, answers));
    let text = render(
        match env1.output {
            Some(b) => b,
            None => Seq::empty(),
        },
    );
    match env1.waiting {
        Some(p) => (SInteraction::Awaits(text, p), env),
        None => (
            SInteraction::Ended(text, r),
            SEnv { output: None, input: None, waiting: None, ..env1 },
        ),
    }
}

/// A source text run in `env` with the given answers: a parse error ends it
/// at once, saying nothing and leaving `env` as it was.
pub open spec fn s_interact_source<N>(
    o: Oracle<N>,
    source: Seq<char>,
    answers: Seq<Seq<char>>,
    env: SEnv<N>,
) -> (SInteraction, SEnv<N>) {
    match s_parse(s_tokenize(o, source)) {
        Ok(stmts) => s_interact(o, stmts, s_lines(s_tokenize(o, source)), answers, env),
        Err(SFault::Msg(m)) => (SInteraction::Ended(Seq::empty(), Err(m)), env),
    }
}

/// The tokens of a source text end with the end of input.
pub proof fn lemma_tokens_end<N>(o: Oracle<N>, source: Seq<char>)
    ensures
        eof_from(s_tokenize(o, source), 0),
{
    let ts = s_tokenize(o, source);
    assert(ts[ts.len() - 1].token is Eof);
}

/// What a session shows of an outcome: a run that ended in an error shows the
/// error as the last line of its text.
pub open spec fn shown(i: SInteraction) -> SInteraction {
    match i {
        SInteraction::Ended(t, Err(e)) => SInteraction::Ended(t + e.push('\n'), Err(e)),
        _ => i,
    }
}

/// A snippet run in a session with the given answers: as
/// `s_interact_source`, its error shown as the last line of its text.
pub open spec fn s_snippet<N>(
    o: Oracle<N>,
    source: Seq<char>,
    answers: Seq<Seq<char>>,
    env: SEnv<N>,
) -> (SInteraction, SEnv<N>) {
    let (i, env1) = s_interact_source(o, source, answers, env);
    (shown(i), env1)
}

/// Tokenize and parse: the statements with their lines, or the parse error.
fn read_source<N: Copy, H: Fn(Query<N>) -> Reply<N>>(source: &str, h: &H) -> (r: Result<
    (Vec<Stmt<N>>, Vec<usize>),
    String,
>)
    requires
        host_ok(*h),
    ensures
        match r {
            Ok((v, ls)) => parse_outcome(Ok(v), s_parse(s_tokenize(oracle(*h), source@))) && ls@
                == s_lines(s_tokenize(oracle(*h), source@)) && ls@.len() == v@.len(),
            Err(m) => parse_outcome(Err(m), s_parse(s_tokenize(oracle(*h), source@))),
        },
{
    let tokens = tokenize(source, h);
    proof {
        lemma_tokens_end(oracle(*h), source@);
    }
    parse_with_lines(tokens)
}

/// Lines joined by line feeds, with a final line feed unless there is no text.
fn render_lines(lines: &Vec<String>) -> (r: String)
    ensures
        r@ == render(views(lines@)),
{
    let mut out = join_strings(lines, "\n");
    if !out.as_str().is_empty() {
        let ghost before = out@;
        out.append("\n");
        proof {
            reveal_strlit("\n");
            assert(out@ =~= before.push('\n'));
        }
    }
    out
}

/// Run statements in `env` with output buffered; give the text shown.
fn run_buffered<N: Copy, H: Fn(Query<N>) -> Reply<N>>(
    stmts: &Vec<Stmt<N>>,
    lines: &Vec<usize>,
    env: &mut Env<N>,
    h: &H,
) -> (r: String)
    requires
        host_ok(*h),
        lines@.len() == stmts@.len(),
    ensures
        (r@, final(env)@) == s_run_in(oracle(*h), ss_list(stmts@), lines@, old(env)@),
{
    let empty: Vec<String> = Vec::new();
    proof {
        assert(views(empty@) =~= Seq::<Seq<char>>::empty());
    }
    env.set_output(Some(empty));
    match eval_program_lines(stmts.as_slice(), lines.as_slice(), env, h) {
        Ok(()) => {},
        Err(e) => {
            env.record_line(e);
        },
    }
    let lines_out = match env.take_output() {
        Some(v) => v,
        None => {
            let v: Vec<String> = Vec::new();
            proof {
                assert(views(v@) =~= Seq::<Seq<char>>::empty());
            }
            v
        },
    };
    render_lines(&lines_out)
}

/// Run a complete program and give all it shows, one line per `say`; an
/// error ends the text as its last line. `ask` stores the empty text.
pub fn run_program_internal<N: Copy, H: Fn(Query<N>) -> Reply<N>>(source: &str, h: &H) -> (r: String)
    requires
        host_ok(*h),
    ensures
        r@ == s_run_source(oracle(*h), source@),
{
    let stmts = match read_source(source, h) {
        Ok(s) => s,
        Err(e) => {
            let mut m = e;
            let ghost before = m@;
            m.append("\n");
            proof {
                reveal_strlit("\n");
                assert(m@ =~= before.push('\n'));
            }
            return m;
        },
    };
    let mut env = Env::new();
    run_buffered(&stmts.0, &stmts.1, &mut env, h)
}

/// Run statements in `env` with the given answers for `ask`.
fn run_answering<N: Copy, H: Fn(Query<N>) -> Reply<N>>(
    stmts: &Vec<Stmt<N>>,
    lines: &Vec<usize>,
    answers: &Vec<String>,
    env: &mut Env<N>,
    h: &H,
) -> (r: Interaction)
    requires
        host_ok(*h),
        lines@.len() == stmts@.len(),
    ensures
        (r@, final(env)@) == s_interact(
            oracle(*h),
            ss_list(stmts@),
            lines@,
            views(answers@),
            old(env)@,
        ),
{
    let mut work = env.duplicate();
    let empty: Vec<String> = Vec::new();
    proof {
        assert(views(empty@) =~= Seq::<Seq<char>>::empty());
    }
    work.set_output(Some(empty));
    work.set_input(Some(clone_strings(answers)));
    let r = eval_program_lines(stmts.as_slice(), lines.as_slice(), &mut work, h);
    let said = match work.take_output() {
        Some(v) => v,
        None => {
            let v: Vec<String> = Vec::new();
            proof {
                assert(views(v@) =~= Seq::<Seq<char>>::empty());
            }
            v
        },
    };
    let text = render_lines(&said);
    match work.waiting() {
        Some(p) => Interaction::Awaits(text, p),
        None => {
            work.set_input(None);
            *env = work;
            Interaction::Ended(text, r)
        },
    }
}

/// Run a complete program from a fresh environment, giving `ask` the answers
/// in order: it ends, or it stops at an `ask` that has no answer left. The
/// caller shows the new text and the prompt, reads the answer and runs again
/// with it added.
pub fn run_program_interactive<N: Copy, H: Fn(Query<N>) -> Reply<N>>(
    source: &str,
    answers: &Vec<String>,
    h: &H,
) -> (r: Interaction)
    requires
        host_ok(*h),
    ensures
        r@ == s_interact_source(oracle(*h), source@, views(answers@), s_new()).0,
{
    let stmts = match read_source(source, h) {
        Ok(s) => s,
        Err(e) => return Interaction::Ended(String::new(), Err(e)),
    };
    let mut env = Env::new();
    run_answering(&stmts.0, &stmts.1, answers, &mut env, h)
}

/// The outcome with an error that ended the run added as the last line of
/// its text.
fn show_error(r: Interaction) -> (s: Interaction)
    ensures
        s@ == shown(r@),
{
    match r {
        Interaction::Ended(t, Err(e)) => {
            let mut text = t;
            let ghost t0 = text@;
            text.append(e.as_str());
            text.append("\n");
            proof {
                reveal_strlit("\n");
                assert(text@ =~= t0 + e@.push('\n'));
            }
            Interaction::Ended(text, Err(e))
        },
        other => other,
    }
}

/// An interpreter session whose variables, functions and types persist from
/// one snippet to the next.
pub struct ReplState<N> {
    env: Env<N>,
}

impl<N> View for ReplState<N> {
    type V = SEnv<N>;

    closed spec fn view(&self) -> SEnv<N> {
        self.env@
    }
}

impl<N: Copy> ReplState<N> {
    /// A session with nothing defined.
    pub fn new() -> (r: Self)
        ensures
            r@ == s_new::<N>(),
    {
        ReplState { env: Env::new() }
    }

    /// Run a snippet (one or more complete statements) in the session, giving
    /// `ask` the answers in order. A snippet that ends changes the session and
    /// shows what it said, an error that stopped it as the last line; a parse
    /// error, or an `ask` with no answer left, leaves the session as it was,
    /// so that the snippet can run again with one more answer.
    pub fn run_snippet<H: Fn(Query<N>) -> Reply<N>>(
        &mut self,
        source: &str,
        answers: &Vec<String>,
        h: &H,
    ) -> (r: Interaction)
        requires
            host_ok(*h),
        ensures
            (r@, final(self)@) == s_snippet(oracle(*h), source@, views(answers@), old(self)@),
    {
        let r = match read_source(source, h) {
            Ok(s) => run_answering(&s.0, &s.1, answers, &mut self.env, h),
            Err(e) => Interaction::Ended(String::new(), Err(e)),
        };
        show_error(r)
    }
}

impl<N: Copy> Default for ReplState<N> {
    fn default() -> (r: Self)
        ensures
            r@ == s_new::<N>(),
    {
        Self::new()
    }
}

} // verus!
