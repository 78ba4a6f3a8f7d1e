//! The rules of an interactive session's input: when to stop, and which
//! complete statements a line of input releases.
use vstd::prelude::*;

use crate::lexer::{back_ws, lemma_back_ws, sub_chars, trim, trim_chars};
use crate::text::{char_is_ws, chars_of, is_kw, is_ws, lowercase, string_of, to_lower};

verus! {

/// What a session does with a line of input.
#[derive(Debug, PartialEq, Eq)]
pub enum ReplStep {
    /// Leave the session.
    Quit,
    /// Run these complete statements.
    Run(String),
    /// Wait for more input.
    Wait,
}

pub enum SReplStep {
    Quit,
    Run(Seq<char>),
    Wait,
}

impl View for ReplStep {
    type V = SReplStep;

    open spec fn view(&self) -> SReplStep {
        match *self {
            ReplStep::Quit => SReplStep::Quit,
            ReplStep::Run(s) => SReplStep::Run(s@),
            ReplStep::Wait => SReplStep::Wait,
        }
    }
}

/// `str::trim_end`: whitespace removed at the end.
pub open spec fn trim_end(s: Seq<char>) -> Seq<char> {
    s.take(back_ws(s, s.len() as int))
}

/// A line that ends the session: `quit` or `quit.`, in any case, before
/// trailing whitespace.
pub open spec fn is_quit(line: Seq<char>) -> bool {
    lowercase(trim_end(line)) == "quit"@ || lowercase(trim_end(line)) == "quit."@
}

/// The index of the last `c` in `s`, or -1.
pub open spec fn last_index_of(s: Seq<char>, c: char) -> int
    decreases s.len(),
{
    if s.len() == 0 {
        -1
    } else if s.last() == c {
        s.len() - 1
    } else {
        last_index_of(s.drop_last(), c)
    }
}

/// One line of input: a quit line leaves the buffer as it is; any other line
/// joins the buffer (its end trimmed, then a space), and once the buffer
/// holds a period, everything up to its last period is released to run
/// (trimmed, when not empty) and the trimmed rest stays in the buffer.
pub open spec fn repl_step(buffer: Seq<char>, line: Seq<char>) -> (SReplStep, Seq<char>) {
    if is_quit(line) {
        (SReplStep::Quit, buffer)
    } else {
        let b = (buffer + trim_end(line)).push(' ');
        let d = last_index_of(b, '.');
        if d < 0 {
            (SReplStep::Wait, b)
        } else {
            let run = trim(b.take(d + 1));
            (
                if run.len() > 0 {
                    SReplStep::Run(run)
                } else {
                    SReplStep::Wait
                },
                trim(b.skip(d + 1)),
            )
        }
    }
}

proof fn lemma_last_index_of(s: Seq<char>, c: char, j: int)
    requires
        -1 <= j < s.len(),
        j >= 0 ==> s[j] == c,
        forall|k: int| j < k < s.len() ==> s[k] != c,
    ensures
        last_index_of(s, c) == j,
    decreases s.len(),
{
    if s.len() > 0 && s.last() != c {
        let t = s.drop_last();
        assert forall|k: int| j < k < t.len() implies t[k] != c by {
            assert(t[k] == s[k]);
        }
        if j >= 0 {
            assert(t[j] == s[j]);
        }
        lemma_last_index_of(t, c, j);
    }
}

fn trim_end_chars(s: &Vec<char>) -> (r: Vec<char>)
    ensures
        r@ == trim_end(s@),
{
    let mut b: usize = s.len();
    while b > 0 && char_is_ws(s[b - 1])
        invariant
            b <= s@.len(),
            forall|j: int| b <= j < s@.len() ==> is_ws(#[trigger] s@[j]),
        decreases b,
    {
        b -= 1;
    }
    proof {
        lemma_back_ws(s@, b as int, s@.len() as int);
    }
    sub_chars(s, 0, b)
}

/// Whether the session awaits the rest of a statement.
pub fn awaits_more(buffer: &str) -> (r: bool)
    ensures
        r == (trim(buffer@).len() > 0),
{
    let t = trim_chars(&chars_of(buffer));
    t.len() > 0
}

/// Take one line of input into the buffer and say what to do.
pub fn repl_input(buffer: &mut String, line: &str) -> (r: ReplStep)
    ensures
        (r@, final(buffer)@) == repl_step(old(buffer)@, line@),
{
    let te = trim_end_chars(&chars_of(line));
    let lower = to_lower(string_of(te.as_slice()).as_str());
    if is_kw(&lower, "quit") || is_kw(&lower, "quit.") {
        return ReplStep::Quit;
    }
    let mut b = chars_of(buffer.as_str());
    let ghost b0 = b@;
    let mut k: usize = 0;
    while k < te.len()
        invariant
            k <= te@.len(),
            b@ == b0 + te@.take(k as int),
        decreases te@.len() - k,
    {
        b.push(te[k]);
        proof {
            assert(te@.take(k + 1) == te@.take(k as int).push(te@[k as int]));
        }
        k += 1;
    }
    b.push(' ');
    proof {
        assert(te@.take(te@.len() as int) == te@);
    }
    let mut d: usize = b.len();
    while d > 0 && b[d - 1] != '.'
        invariant
            d <= b@.len(),
            forall|j: int| d <= j < b@.len() ==> b@[j] != '.',
        decreases d,
    {
        d -= 1;
    }
    if d == 0 {
        proof {
            lemma_last_index_of(b@, '.', -1);
        }
        *buffer = string_of(b.as_slice());
        return ReplStep::Wait;
    }
    proof {
        lemma_last_index_of(b@, '.', d - 1);
    }
    let run = trim_chars(&sub_chars(&b, 0, d));
    let rest = trim_chars(&sub_chars(&b, d, b.len()));
    proof {
        assert(b@.take(d as int) == b@.subrange(0, d as int));
        assert(b@.skip(d as int) == b@.subrange(d as int, b@.len() as int));
    }
    *buffer = string_of(rest.as_slice());
    if run.len() > 0 {
        ReplStep::Run(string_of(run.as_slice()))
    } else {
        ReplStep::Wait
    }
}

} // verus!
