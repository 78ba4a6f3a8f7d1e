//! Laws that hold across the library's operations.
use vstd::prelude::*;

use crate::assoc::{first_in, insert, keys_of, lemma_first_in, lemma_first_in_is, lookup};
use crate::evaluator::{
    frame_holding, s_get, s_new, s_pop, s_push, s_set, s_set_local, SClass, SEnv, SFrame, SFunc,
};
use crate::grammar::{
    ends_statement, is_end_marker, lemma_stmt_end, lemma_weight, line_of, s_body, s_class_body, s_clauses,
    s_define, s_if, s_one, s_parse, s_program_from, s_statement, starts_kw, stmt_end, weight, Toks,
};
use crate::grammar::SFault;
use crate::lexer::{
    back_ws, find_from, is_comment, is_stop, lemma_find_from_bounds, line_tokens, lines, lines_from, quote_end, s_tokenize,
    next_nl, scan, skip_ws, strip_cr, starts_note, tokens_from, trim, word_end, word_token, SSpanned, SToken,
};
use crate::session::{is_quit, last_index_of, repl_step, trim_end, SReplStep};
use crate::text::{has_prefix, is_ws, join, lowercase, on_line};
use crate::host::q_parse;
use crate::error_lines::{err_prefix, lemma_prefix_extend, lemma_program_lines, line_of_some, names_line};
use crate::parser::Comparison;
use crate::semantics::{
    method_names, s_bind, s_bind_fields, s_block, s_compare, s_expr, s_pairs, s_run_method, s_say_parts,
    s_stmt, s_str, Oracle, FUEL,
};
use crate::text::{lemma_sort_texts, lemma_text_le_total_ordering, sort_texts, text_order};
use crate::{s_interact_source, s_snippet, SInteraction};
use crate::parser::{SExpr, SMethod, SStmt, SValue};

verus! {

// ─── Maps ───────────────────────────────────────────────────────────────────

/// Reading a key after inserting it gives the inserted value, and every other
/// key reads as before.
pub proof fn law_lookup_insert<V>(s: Seq<(Seq<char>, V)>, k: Seq<char>, v: V, k2: Seq<char>)
    ensures
        lookup(insert(s, k, v), k) == Some(v),
        k2 != k ==> lookup(insert(s, k, v), k2) == lookup(s, k2),
{
    let ks = keys_of(s);
    let t = insert(s, k, v);
    lemma_first_in(ks, k);
    lemma_first_in(ks, k2);
    match first_in(ks, k) {
        Some(i) => {
            assert(keys_of(t) =~= ks.update(i, k));
            lemma_first_in_is(keys_of(t), k, Some(i));
            if k2 != k {
                lemma_first_in_is(keys_of(t), k2, first_in(ks, k2));
            }
        },
        None => {
            assert(keys_of(t) =~= ks.push(k));
            lemma_first_in_is(keys_of(t), k, Some(ks.len() as int));
            if k2 != k {
                lemma_first_in_is(keys_of(t), k2, first_in(ks, k2));
            }
        },
    }
}

// ─── Scopes ─────────────────────────────────────────────────────────────────

pub(crate) proof fn lemma_frame_holding<N>(fs: Seq<SFrame<N>>, k: Seq<char>)
    ensures
        match frame_holding(fs, k) {
            Some(i) => 0 <= i < fs.len() && lookup(fs[i], k) is Some && forall|j: int|
                i < j < fs.len() ==> lookup(#[trigger] fs[j], k) is None,
            None => forall|j: int| 0 <= j < fs.len() ==> lookup(#[trigger] fs[j], k) is None,
        },
    decreases fs.len(),
{
    if fs.len() > 0 && lookup(fs.last(), k) is None {
        lemma_frame_holding(fs.drop_last(), k);
        assert forall|j: int| 0 <= j < fs.len() - 1 implies #[trigger] fs[j] == fs.drop_last()[j] by {}
    }
}

pub(crate) proof fn lemma_frame_holding_is<N>(fs: Seq<SFrame<N>>, k: Seq<char>, r: Option<int>)
    requires
        match r {
            Some(i) => 0 <= i < fs.len() && lookup(fs[i], k) is Some && forall|j: int|
                i < j < fs.len() ==> lookup(#[trigger] fs[j], k) is None,
            None => forall|j: int| 0 <= j < fs.len() ==> lookup(#[trigger] fs[j], k) is None,
        },
    ensures
        frame_holding(fs, k) == r,
    decreases fs.len(),
{
    if fs.len() > 0 {
        let l = fs.len() - 1;
        if r != Some(l) {
            assert(lookup(fs[l], k) is None);
            let d = fs.drop_last();
            assert forall|j: int| 0 <= j < d.len() implies #[trigger] d[j] == fs[j] by {}
            lemma_frame_holding_is(d, k, r);
        }
    }
}

/// A variable read after it is assigned gives the assigned value.
pub proof fn law_get_after_set<N>(env: SEnv<N>, k: Seq<char>, v: SValue<N>)
    ensures
        s_get(s_set(env, k, v), k) == Some(v),
{
    let fs = env.frames;
    let fs2 = s_set(env, k, v).frames;
    lemma_frame_holding(fs, k);
    match frame_holding(fs, k) {
        Some(i) => {
            law_lookup_insert(fs[i], k, v, k);
            lemma_frame_holding_is(fs2, k, Some(i));
        },
        None => {
            if fs.len() == 0 {
                law_lookup_insert(Seq::<(Seq<char>, SValue<N>)>::empty(), k, v, k);
                assert(insert(Seq::<(Seq<char>, SValue<N>)>::empty(), k, v) =~= seq![(k, v)]);
                lemma_frame_holding_is(fs2, k, Some(0));
            } else {
                law_lookup_insert(fs.last(), k, v, k);
                lemma_frame_holding_is(fs2, k, Some(fs.len() - 1));
            }
        },
    }
}

/// Assigning one variable leaves every other variable as it was.
pub proof fn law_set_keeps_others<N>(env: SEnv<N>, k: Seq<char>, v: SValue<N>, k2: Seq<char>)
    requires
        k2 != k,
    ensures
        s_get(s_set(env, k, v), k2) == s_get(env, k2),
{
    let fs = env.frames;
    let fs2 = s_set(env, k, v).frames;
    lemma_frame_holding(fs, k);
    lemma_frame_holding(fs, k2);
    if fs.len() == 0 && frame_holding(fs, k) is None {
        law_lookup_insert(Seq::<(Seq<char>, SValue<N>)>::empty(), k, v, k2);
        assert(insert(Seq::<(Seq<char>, SValue<N>)>::empty(), k, v) =~= seq![(k, v)]);
        lemma_frame_holding_is(fs2, k2, None);
    } else {
        let i = match frame_holding(fs, k) {
            Some(i) => i,
            None => fs.len() - 1,
        };
        law_lookup_insert(fs[i], k, v, k2);
        assert forall|j: int| 0 <= j < fs.len() implies lookup(#[trigger] fs2[j], k2) == lookup(
            fs[j],
            k2,
        ) by {}
        lemma_frame_holding_is(fs2, k2, frame_holding(fs, k2));
    }
}

/// A binding made in the innermost scope is read back, whatever outer scopes hold.
pub proof fn law_get_after_set_local<N>(env: SEnv<N>, k: Seq<char>, v: SValue<N>)
    ensures
        s_get(s_set_local(env, k, v), k) == Some(v),
{
    let fs = env.frames;
    let fs2 = s_set_local(env, k, v).frames;
    if fs.len() == 0 {
        law_lookup_insert(Seq::<(Seq<char>, SValue<N>)>::empty(), k, v, k);
        assert(insert(Seq::<(Seq<char>, SValue<N>)>::empty(), k, v) =~= seq![(k, v)]);
        lemma_frame_holding_is(fs2, k, Some(0));
    } else {
        law_lookup_insert(fs.last(), k, v, k);
        lemma_frame_holding_is(fs2, k, Some(fs.len() - 1));
    }
}

/// The scope a call opens takes its bindings with it when it closes: opening
/// a scope, binding in it and closing it leaves the environment as it was.
pub proof fn law_scope_restores<N>(env: SEnv<N>, k: Seq<char>, v: SValue<N>)
    requires
        env.frames.len() >= 1,
    ensures
        s_pop(s_set_local(s_push(env), k, v)) == env,
{
    let e2 = s_set_local(s_push(env), k, v);
    assert(e2.frames.drop_last() =~= env.frames);
}


// ─── Reading statements ─────────────────────────────────────────────────────

proof fn lemma_stmt_end_prefix<N>(a: Toks<N>, b: Toks<N>, e: SSpanned<N>, pos: int)
    requires
        0 <= pos < a.len(),
        ends_statement(a.last()),
    ensures
        stmt_end(a + b, pos) == stmt_end(a.push(e), pos),
        stmt_end(a + b, pos) < a.len(),
    decreases a.len() - pos,
{
    assert((a + b)[pos] == a[pos]);
    assert(a.push(e)[pos] == a[pos]);
    if !ends_statement(a[pos]) {
        lemma_stmt_end_prefix(a, b, e, pos + 1);
    }
}

proof fn lemma_stmt_end_suffix<N>(a: Toks<N>, b: Toks<N>, q: int)
    requires
        0 <= q <= b.len(),
    ensures
        stmt_end(a + b, a.len() + q) == a.len() + stmt_end(b, q),
    decreases b.len() - q,
{
    if q < b.len() {
        assert((a + b)[a.len() + q] == b[q]);
        if !ends_statement(b[q]) {
            lemma_stmt_end_suffix(a, b, q + 1);
        }
    }
}

/// The accumulator only prefixes what is read.
proof fn lemma_program_acc<N>(ts: Toks<N>, pos: int, acc: Seq<SStmt<N>>)
    ensures
        s_program_from(ts, pos, acc).1 == s_program_from(ts, pos, Seq::empty()).1,
        s_program_from(ts, pos, acc).0 == match s_program_from(ts, pos, Seq::empty()).0 {
            Ok(y) => Ok(acc + y),
            Err(f) => Err(f),
        },
    decreases ts.len() - pos,
{
    if pos < 0 || pos >= ts.len() || ts[pos].token is Eof {
        assert(acc + Seq::<SStmt<N>>::empty() =~= acc);
    } else {
        let end = stmt_end(ts, pos);
        let next = if end < ts.len() && ts[end].token is Period {
            end + 1
        } else {
            end
        };
        lemma_stmt_end(ts, pos);
        if end == pos {
            lemma_program_acc(ts, next, acc);
        } else {
            match s_statement(ts.subrange(pos, end)) {
                Ok(ss) => {
                    lemma_program_acc(ts, next, acc + ss);
                    lemma_program_acc(ts, next, ss);
                    match s_program_from(ts, next, Seq::empty()).0 {
                        Ok(y) => {
                            assert(acc + ss + y =~= acc + (ss + y));
                        },
                        Err(_) => {},
                    }
                },
                Err(_) => {},
            }
        }
    }
}

proof fn lemma_program_suffix<N>(a: Toks<N>, b: Toks<N>, q: int, acc: Seq<SStmt<N>>)
    requires
        0 <= q,
    ensures
        s_program_from(a + b, a.len() + q, acc) == (
            s_program_from(b, q, acc).0,
            s_program_from(b, q, acc).1 + a.len(),
        ),
    decreases b.len() - q,
{
    let x = a + b;
    if q < b.len() {
        assert(x[a.len() + q] == b[q]);
        if !(b[q].token is Eof) {
            lemma_stmt_end_suffix(a, b, q);
            lemma_stmt_end(b, q);
            let end = stmt_end(b, q);
            if end < b.len() {
                assert(x[a.len() + end] == b[end]);
            }
            let next = if end < b.len() && b[end].token is Period {
                end + 1
            } else {
                end
            };
            assert(x.subrange(a.len() + q, a.len() + end) =~= b.subrange(q, end));
            if end == q {
                lemma_program_suffix(a, b, next, acc);
            } else {
                match s_statement(b.subrange(q, end)) {
                    Ok(ss) => lemma_program_suffix(a, b, next, acc + ss),
                    Err(_) => {},
                }
            }
        }
    }
}

proof fn lemma_program_prefix<N>(
    a: Toks<N>,
    b: Toks<N>,
    e: SSpanned<N>,
    pos: int,
    acc: Seq<SStmt<N>>,
)
    requires
        0 <= pos <= a.len(),
        a.len() > 0,
        a.last().token is Period,
        forall|i: int| 0 <= i < a.len() ==> !((#[trigger] a[i]).token is Eof),
        e.token is Eof,
    ensures
        match s_program_from(a.push(e), pos, acc).0 {
            Ok(x) => s_program_from(a + b, pos, acc) == s_program_from(a + b, a.len() as int, x),
            Err(f) => s_program_from(a + b, pos, acc) == s_program_from(a.push(e), pos, acc),
        },
    decreases a.len() - pos,
{
    let x = a + b;
    let y = a.push(e);
    if pos == a.len() {
        assert(y[pos] == e);
    } else {
        assert(x[pos] == a[pos]);
        assert(y[pos] == a[pos]);
        lemma_stmt_end_prefix(a, b, e, pos);
        lemma_stmt_end(y, pos);
        let end = stmt_end(y, pos);
        assert(x[end] == a[end]);
        assert(y[end] == a[end]);
        assert(x.subrange(pos, end) =~= y.subrange(pos, end));
        let next = if a[end].token is Period {
            end + 1
        } else {
            end
        };
        assert(a[end].token is Period);
        if end == pos {
            lemma_program_prefix(a, b, e, next, acc);
        } else {
            match s_statement(y.subrange(pos, end)) {
                Ok(ss) => lemma_program_prefix(a, b, e, next, acc + ss),
                Err(_) => {},
            }
        }
    }
}

/// A program is read statement by statement: the statements of a token
/// sequence that is empty or ends with a period, followed by more tokens, are
/// those of the first part (closed by the end of input) followed by those of
/// the rest; an error in either part is the error of the whole.
pub proof fn law_statements_compose<N>(a: Toks<N>, b: Toks<N>, e: SSpanned<N>)
    requires
        a.len() == 0 || a.last().token is Period,
        forall|i: int| 0 <= i < a.len() ==> !((#[trigger] a[i]).token is Eof),
        e.token is Eof,
    ensures
        s_parse(a + b) == match s_parse(a.push(e)) {
            Ok(x) => match s_parse(b) {
                Ok(y) => Ok(x + y),
                Err(f) => Err(f),
            },
            Err(f) => Err(f),
        },
{
    if a.len() == 0 {
        assert(a + b =~= b);
        assert(a.push(e)[0] == e);
        lemma_program_acc(b, 0, Seq::empty());
        match s_parse(b) {
            Ok(y) => {
                assert(Seq::<SStmt<N>>::empty() + y =~= y);
            },
            Err(_) => {},
        }
    } else {
        lemma_program_prefix(a, b, e, 0, Seq::empty());
        match s_program_from(a.push(e), 0, Seq::empty()).0 {
            Ok(x) => {
                lemma_program_suffix(a, b, 0, x);
                assert(a.len() + 0 == a.len());
                lemma_program_acc(b, 0, x);
            },
            Err(_) => {},
        }
    }
}


// ─── Tokens, comparisons, sessions ──────────────────────────────────────────

/// No token before the last one is the end of input, every line lies in
/// `1..=top`, and lines never decrease.
pub open spec fn well_lined<N>(ts: Seq<SSpanned<N>>, top: int) -> bool {
    &&& forall|i: int| 0 <= i < ts.len() ==> !((#[trigger] ts[i]).token is Eof)
    &&& forall|i: int| 0 <= i < ts.len() ==> 1 <= (#[trigger] ts[i]).line <= top
    &&& forall|i: int, j: int| 0 <= i < j < ts.len() ==> (#[trigger] ts[i]).line <= (#[trigger] ts[j]).line
}

/// What `scan` adds after `acc` lies on `line` and holds no end of input.
proof fn lemma_scan_adds<N>(o: Oracle<N>, s: Seq<char>, i: int, line: usize, acc: Seq<SSpanned<N>>)
    ensures
        scan(o, s, i, line, acc).len() >= acc.len(),
        scan(o, s, i, line, acc).subrange(0, acc.len() as int) == acc,
        forall|j: int|
            acc.len() <= j < scan(o, s, i, line, acc).len() ==> (#[trigger] scan(o, s, i, line, acc)[j]).line
                == line && !(scan(o, s, i, line, acc)[j].token is Eof),
    decreases s.len() - i,
{
    if i < 0 || i >= s.len() {
        assert(acc.subrange(0, acc.len() as int) =~= acc);
    } else if is_ws(s[i]) {
        lemma_scan_adds(o, s, i + 1, line, acc);
    } else if s[i] == '"' {
        let j = quote_end(s, i + 1);
        lemma_find_from_bounds(s, i + 1, |c: char| c == '"');
        let t = SSpanned { token: SToken::StringLit(s.subrange(i + 1, j)), line };
        let a2 = acc.push(t);
        lemma_scan_adds(o, s, if j < s.len() { j + 1 } else { j }, line, a2);
        let r = scan(o, s, if j < s.len() { j + 1 } else { j }, line, a2);
        assert(r.subrange(0, acc.len() as int) =~= r.subrange(0, a2.len() as int).subrange(0, acc.len() as int));
        assert(r[acc.len() as int] == r.subrange(0, a2.len() as int)[acc.len() as int]);
    } else if s[i] == '.' || s[i] == ',' {
        let t = SSpanned { token: if s[i] == '.' { SToken::Period } else { SToken::Comma }, line };
        let a2 = acc.push(t);
        lemma_scan_adds(o, s, i + 1, line, a2);
        let r = scan(o, s, i + 1, line, a2);
        assert(r.subrange(0, acc.len() as int) =~= r.subrange(0, a2.len() as int).subrange(0, acc.len() as int));
        assert(r[acc.len() as int] == r.subrange(0, a2.len() as int)[acc.len() as int]);
    } else {
        let j = word_end(s, i);
        lemma_find_from_bounds(s, i, |c: char| is_stop(c));
        if starts_note(acc, s.subrange(i, j)) {
            assert(acc.subrange(0, acc.len() as int) =~= acc);
        } else {
            let t = SSpanned { token: word_token(o, s.subrange(i, j)), line };
            let a2 = acc.push(t);
            lemma_scan_adds(o, s, j, line, a2);
            let r = scan(o, s, j, line, a2);
            assert(r.subrange(0, acc.len() as int) =~= r.subrange(0, a2.len() as int).subrange(0, acc.len() as int));
            assert(r[acc.len() as int] == r.subrange(0, a2.len() as int)[acc.len() as int]);
        }
    }
}

/// A text has at most as many lines as characters.
proof fn lemma_lines_count(s: Seq<char>, i: int)
    requires
        0 <= i,
    ensures
        lines_from(s, i).len() <= if i < s.len() { s.len() - i } else { 0 },
    decreases s.len() - i,
{
    if i < s.len() {
        lemma_find_from_bounds(s, i, |c: char| c == '\n');
        let j = next_nl(s, i);
        if j < s.len() {
            lemma_lines_count(s, j + 1);
        }
    }
}

proof fn lemma_tokens_from_lined<N>(o: Oracle<N>, ls: Seq<Seq<char>>, k: int, acc: Seq<SSpanned<N>>)
    requires
        0 <= k <= ls.len(),
        ls.len() <= usize::MAX,
        well_lined(acc, ls.len() as int),
        forall|i: int| 0 <= i < acc.len() ==> (#[trigger] acc[i]).line <= k,
    ensures
        well_lined(tokens_from(o, ls, k, acc), ls.len() as int),
    decreases ls.len() - k,
{
    if k < ls.len() {
        let line = (k + 1) as usize;
        let lt = line_tokens(o, ls[k], line);
        assert forall|j: int| 0 <= j < lt.len() implies (#[trigger] lt[j]).line == line && !(lt[j].token is Eof) by {
            if !is_comment(trim(ls[k])) {
                lemma_scan_adds(o, trim(ls[k]), 0, line, Seq::empty());
            }
        }
        let a2 = acc + lt;
        assert forall|i: int| 0 <= i < a2.len() implies (#[trigger] a2[i]).line <= k + 1 by {
            if i >= acc.len() {
                assert(a2[i] == lt[i - acc.len()]);
            }
        }
        assert forall|i: int, j: int| 0 <= i < j < a2.len() implies (#[trigger] a2[i]).line <= (#[trigger] a2[j]).line by {
            if i < acc.len() {
                assert(a2[i] == acc[i]);
            }
            if j < acc.len() {
                assert(a2[j] == acc[j]);
            }
            if j >= acc.len() {
                assert(a2[j] == lt[j - acc.len()]);
                if i >= acc.len() {
                    assert(a2[i] == lt[i - acc.len()]);
                }
            }
        }
        assert forall|i: int| 0 <= i < a2.len() implies !((#[trigger] a2[i]).token is Eof) && 1 <= a2[i].line <= ls.len() by {
            if i >= acc.len() {
                assert(a2[i] == lt[i - acc.len()]);
            } else {
                assert(a2[i] == acc[i]);
            }
        }
        lemma_tokens_from_lined(o, ls, k + 1, a2);
    }
}

/// The tokens of any text end with one end of input, on the last line (line
/// one for a text of at most one line); no token comes before it on a later
/// line, and lines never decrease.
pub proof fn law_tokens_end_once<N>(o: Oracle<N>, source: Seq<char>)
    requires
        source.len() <= usize::MAX,
    ensures
        ({
            let ts = s_tokenize(o, source);
            let top: int = if lines(source).len() > 1 { lines(source).len() as int } else { 1 };
            &&& ts.len() >= 1
            &&& ts.last().token is Eof
            &&& ts.last().line == top
            &&& well_lined(ts.drop_last(), top)
            &&& forall|i: int| 0 <= i < ts.len() ==> (#[trigger] ts[i]).line <= top
        }),
{
    let ls = lines(source);
    let top: int = if ls.len() > 1 { ls.len() as int } else { 1 };
    let body = tokens_from(o, ls, 0, Seq::empty());
    lemma_lines_count(source, 0);
    lemma_tokens_from_lined(o, ls, 0, Seq::empty());
    let ts = s_tokenize(o, source);
    assert(ts.drop_last() =~= body);
    assert(well_lined(body, top));
    assert forall|i: int| 0 <= i < ts.len() implies (#[trigger] ts[i]).line <= top by {
        if i < body.len() {
            assert(ts[i] == body[i]);
        }
    }
}

/// A bare word: not empty, with no whitespace, period, comma or quote in it.
pub open spec fn bare_word(raw: Seq<char>) -> bool {
    raw.len() > 0 && forall|k: int| 0 <= k < raw.len() ==> !is_stop(#[trigger] raw[k])
}

/// What a token holds: a word is the lower case of a bare word that is no
/// number, a number is what the host read from a bare word, and a string
/// literal holds no quote and no line feed.
pub open spec fn token_formed<N>(o: Oracle<N>, t: SToken<N>) -> bool {
    match t {
        SToken::Word(w) => exists|raw: Seq<char>| bare_word(raw) && q_parse(o, raw) is None && w == lowercase(raw),
        SToken::Number(n) => exists|raw: Seq<char>| bare_word(raw) && q_parse(o, raw) == Some(n),
        SToken::StringLit(x) => forall|k: int| 0 <= k < x.len() ==> #[trigger] x[k] != '"' && x[k] != '\n',
        _ => true,
    }
}

pub open spec fn all_formed<N>(o: Oracle<N>, ts: Seq<SSpanned<N>>) -> bool {
    forall|i: int| 0 <= i < ts.len() ==> token_formed(o, #[trigger] ts[i].token)
}

pub open spec fn no_line_feed(s: Seq<char>) -> bool {
    forall|k: int| 0 <= k < s.len() ==> #[trigger] s[k] != '\n'
}

proof fn lemma_word_formed<N>(o: Oracle<N>, raw: Seq<char>)
    requires
        bare_word(raw),
    ensures
        token_formed(o, word_token(o, raw)),
{
}

proof fn lemma_formed_push<N>(o: Oracle<N>, acc: Seq<SSpanned<N>>, t: SSpanned<N>)
    requires
        all_formed(o, acc),
        token_formed(o, t.token),
    ensures
        all_formed(o, acc.push(t)),
{
    assert forall|i: int| 0 <= i < acc.push(t).len() implies token_formed(o, #[trigger] acc.push(t)[i].token) by {
        if i < acc.len() {
            assert(acc.push(t)[i] == acc[i]);
        }
    }
}

proof fn lemma_scan_formed<N>(o: Oracle<N>, s: Seq<char>, i: int, line: usize, acc: Seq<SSpanned<N>>)
    requires
        0 <= i,
        no_line_feed(s),
        all_formed(o, acc),
    ensures
        all_formed(o, scan(o, s, i, line, acc)),
    decreases s.len() - i,
{
    if i < s.len() {
        if is_ws(s[i]) {
            lemma_scan_formed(o, s, i + 1, line, acc);
        } else if s[i] == '"' {
            let j = quote_end(s, i + 1);
            lemma_find_hit(s, i + 1, |c: char| c == '"');
            let x = s.subrange(i + 1, j);
            assert forall|k: int| 0 <= k < x.len() implies #[trigger] x[k] != '"' && x[k] != '\n' by {
                assert(x[k] == s[i + 1 + k]);
            }
            let t = SSpanned { token: SToken::StringLit(x), line };
            lemma_formed_push(o, acc, t);
            lemma_scan_formed(o, s, if j < s.len() { j + 1 } else { j }, line, acc.push(t));
        } else if s[i] == '.' || s[i] == ',' {
            let t = SSpanned { token: if s[i] == '.' { SToken::Period } else { SToken::Comma }, line };
            lemma_formed_push(o, acc, t);
            lemma_scan_formed(o, s, i + 1, line, acc.push(t));
        } else {
            let j = word_end(s, i);
            lemma_find_hit(s, i, |c: char| is_stop(c));
            lemma_find_from_bounds(s, i, |c: char| is_stop(c));
            let raw = s.subrange(i, j);
            assert forall|k: int| 0 <= k < raw.len() implies !is_stop(#[trigger] raw[k]) by {
                assert(raw[k] == s[i + k]);
            }
            if !starts_note(acc, raw) {
                lemma_word_formed(o, raw);
                let t = SSpanned { token: word_token(o, raw), line };
                lemma_formed_push(o, acc, t);
                lemma_scan_formed(o, s, j, line, acc.push(t));
            }
        }
    }
}

proof fn lemma_lines_no_line_feed(s: Seq<char>, i: int)
    requires
        0 <= i,
    ensures
        forall|q: int| 0 <= q < lines_from(s, i).len() ==> no_line_feed(#[trigger] lines_from(s, i)[q]),
    decreases s.len() - i,
{
    if i < s.len() {
        let j = next_nl(s, i);
        lemma_find_hit(s, i, |c: char| c == '\n');
        let x = s.subrange(i, j);
        assert(no_line_feed(x)) by {
            assert forall|k: int| 0 <= k < x.len() implies #[trigger] x[k] != '\n' by {
                assert(x[k] == s[i + k]);
            }
        }
        if j < s.len() {
            lemma_lines_no_line_feed(s, j + 1);
            let head = strip_cr(x);
            assert(no_line_feed(head)) by {
                assert forall|k: int| 0 <= k < head.len() implies #[trigger] head[k] != '\n' by {
                    assert(head[k] == x[k]);
                }
            }
            let ls = lines_from(s, i);
            assert forall|q: int| 0 <= q < ls.len() implies no_line_feed(#[trigger] ls[q]) by {
                if q == 0 {
                    assert(ls[q] == head);
                } else {
                    assert(ls[q] == lines_from(s, j + 1)[q - 1]);
                }
            }
        } else {
            assert(lines_from(s, i)[0] == x);
        }
    }
}

proof fn lemma_tokens_from_formed<N>(o: Oracle<N>, ls: Seq<Seq<char>>, k: int, acc: Seq<SSpanned<N>>)
    requires
        0 <= k,
        forall|q: int| 0 <= q < ls.len() ==> no_line_feed(#[trigger] ls[q]),
        all_formed(o, acc),
    ensures
        all_formed(o, tokens_from(o, ls, k, acc)),
    decreases ls.len() - k,
{
    if k < ls.len() {
        let l = ls[k];
        let t = trim(l);
        lemma_trim(l);
        assert(no_line_feed(t)) by {
            if t.len() > 0 {
                assert forall|m: int| 0 <= m < t.len() implies #[trigger] t[m] != '\n' by {
                    assert(t[m] == l[skip_ws(l, 0) + m]);
                }
            }
        }
        let lt = line_tokens(o, l, (k + 1) as usize);
        if !is_comment(t) {
            lemma_scan_formed(o, t, 0, (k + 1) as usize, Seq::empty());
        }
        assert(all_formed(o, lt));
        let a2 = acc + lt;
        assert forall|i: int| 0 <= i < a2.len() implies token_formed(o, #[trigger] a2[i].token) by {
            if i < acc.len() {
                assert(a2[i] == acc[i]);
            } else {
                assert(a2[i] == lt[i - acc.len()]);
            }
        }
        lemma_tokens_from_formed(o, ls, k + 1, a2);
    }
}

/// Every token of any text is well formed: a word is the lower case of a
/// bare word (no whitespace, period, comma or quote in it) that the host does
/// not read as a number, a number is what the host read from a bare word, and
/// a string literal holds no quote and no line feed.
pub proof fn law_tokens_formed<N>(o: Oracle<N>, source: Seq<char>)
    ensures
        all_formed(o, s_tokenize(o, source)),
{
    let ls = lines(source);
    lemma_lines_no_line_feed(source, 0);
    lemma_tokens_from_formed(o, ls, 0, Seq::empty());
    let top: usize = if ls.len() > 1 { ls.len() as usize } else { 1 };
    lemma_formed_push(o, tokens_from(o, ls, 0, Seq::empty()), SSpanned { token: SToken::Eof, line: top });
}

/// `stmt_end` reads nothing after the first end of input.
proof fn lemma_stmt_end_upto<N>(ts: Toks<N>, k: int, pos: int)
    requires
        0 <= pos <= k < ts.len(),
        ts[k].token is Eof,
    ensures
        stmt_end(ts, pos) == stmt_end(ts.subrange(0, k + 1), pos),
        stmt_end(ts, pos) <= k,
    decreases k - pos,
{
    let u = ts.subrange(0, k + 1);
    assert(u[pos] == ts[pos]);
    if pos < k && !ends_statement(ts[pos]) {
        lemma_stmt_end_upto(ts, k, pos + 1);
    }
}

proof fn lemma_program_upto<N>(ts: Toks<N>, k: int, pos: int, acc: Seq<SStmt<N>>)
    requires
        0 <= pos <= k < ts.len(),
        ts[k].token is Eof,
        forall|i: int| 0 <= i < k ==> !((#[trigger] ts[i]).token is Eof),
    ensures
        s_program_from(ts, pos, acc).0 == s_program_from(ts.subrange(0, k + 1), pos, acc).0,
    decreases k - pos,
{
    let u = ts.subrange(0, k + 1);
    assert(u[pos] == ts[pos]);
    if pos < k {
        lemma_stmt_end_upto(ts, k, pos);
        lemma_stmt_end(ts, pos);
        let end = stmt_end(ts, pos);
        assert(u[end] == ts[end]);
        assert(u.subrange(pos, end) =~= ts.subrange(pos, end));
        let next = if end < ts.len() && ts[end].token is Period {
            end + 1
        } else {
            end
        };
        if end == pos {
            lemma_program_upto(ts, k, next, acc);
        } else {
            match s_statement(ts.subrange(pos, end)) {
                Ok(ss) => lemma_program_upto(ts, k, next, acc + ss),
                Err(_) => {},
            }
        }
    }
}

/// Every parse error gives a description and a line of its input: its
/// message begins with `OrimaLang Error: ` and holds ` on line N`, where `N`
/// is the line of one of the tokens it was given.
pub proof fn law_parse_errors_name_a_line<N>(ts: Toks<N>)
    ensures
        s_parse(ts) matches Err(SFault::Msg(m)) ==> has_prefix(m, "OrimaLang Error: "@) && exists|
            i: int,
            a: Seq<char>,
            b: Seq<char>,
        | 0 <= i < ts.len() && m == a + on_line(ts[i].line as nat) + b,
{
    lemma_program_lines(ts, 0, Seq::empty());
    match s_parse(ts) {
        Err(f) => {
            let l = choose|l: usize| line_of_some(ts, l) && names_line(f, l);
            let i = choose|i: int| 0 <= i < ts.len() && (#[trigger] ts[i]).line == l;
            match f {
                SFault::Msg(m) => {
                    let (a, b) = choose|a: Seq<char>, b: Seq<char>|
                        has_prefix(a, err_prefix()) && m == a + on_line(l as nat) + b;
                    lemma_prefix_extend(a, on_line(l as nat));
                    lemma_prefix_extend(a + on_line(l as nat), b);
                    assert(m == a + on_line(ts[i].line as nat) + b);
                },
            }
        },
        Ok(_) => {},
    }
}

// ─── Progress of the clause reader ──────────────────────────────────────────

pub(crate) proof fn lemma_clauses_progress<N>(cl: Seq<Toks<N>>, i: int, acc: Seq<SStmt<N>>)
    requires
        0 <= i <= cl.len(),
    ensures
        s_clauses(cl, i, acc) matches Ok((_, n)) ==> i <= n <= cl.len(),
    decreases weight(cl, i), 5nat,
{
    if i < cl.len() && !(is_end_marker(cl[i]) || starts_kw(cl[i], "otherwise"@)) {
        lemma_one_progress(cl, i);
        match s_one(cl, i) {
            Ok((st, next)) => {
                if i < next <= cl.len() {
                    lemma_weight(cl, i, next);
                    lemma_clauses_progress(cl, next, acc.push(st));
                }
            },
            Err(_) => {},
        }
    }
}

proof fn lemma_body_progress<N>(cl: Seq<Toks<N>>, idx: int)
    requires
        0 <= idx < cl.len(),
    ensures
        s_body(cl, idx) matches Ok((_, n)) ==> idx < n <= cl.len(),
    decreases weight(cl, idx), 1nat,
{
    lemma_weight(cl, idx, idx + 1);
    lemma_clauses_progress(cl, idx + 1, Seq::empty());
}

proof fn lemma_class_body_progress<N>(cl: Seq<Toks<N>>, i: int, ms: Seq<SMethod<N>>)
    requires
        0 <= i <= cl.len(),
    ensures
        s_class_body(cl, i, ms) matches Ok((_, n)) ==> i <= n <= cl.len(),
    decreases weight(cl, i), 3nat,
{
    if i < cl.len() && !is_end_marker(cl[i]) {
        if starts_kw(cl[i], "define"@) {
            lemma_define_progress(cl, i, line_of(cl[i]));
            match s_define(cl, i, line_of(cl[i])) {
                Ok((st, next)) => {
                    if i < next <= cl.len() {
                        lemma_weight(cl, i, next);
                        lemma_class_body_progress(
                            cl,
                            next,
                            match st {
                                SStmt::Define(name, ps, b) => ms.push((name, ps, b)),
                                _ => ms,
                            },
                        );
                    }
                },
                Err(_) => {},
            }
        } else {
            lemma_weight(cl, i, i + 1);
            lemma_class_body_progress(cl, i + 1, ms);
        }
    }
}

pub(crate) proof fn lemma_define_progress<N>(cl: Seq<Toks<N>>, idx: int, line: usize)
    requires
        0 <= idx < cl.len(),
    ensures
        s_define(cl, idx, line) matches Ok((_, n)) ==> idx < n <= cl.len(),
    decreases weight(cl, idx), 2nat,
{
    lemma_body_progress(cl, idx);
}

proof fn lemma_if_progress<N>(cl: Seq<Toks<N>>, idx: int, line: usize)
    requires
        0 <= idx < cl.len(),
    ensures
        s_if(cl, idx, line) matches Ok((_, n)) ==> idx < n <= cl.len(),
    decreases weight(cl, idx), 3nat,
{
    lemma_weight(cl, idx, idx + 1);
    lemma_clauses_progress(cl, idx + 1, Seq::empty());
    match s_clauses(cl, idx + 1, Seq::empty()) {
        Ok((_, next)) => {
            if idx + 1 <= next < cl.len() && starts_kw(cl[next], "otherwise"@) {
                lemma_weight(cl, idx, next + 1);
                lemma_clauses_progress(cl, next + 1, Seq::empty());
            }
        },
        Err(_) => {},
    }
}

pub(crate) proof fn lemma_one_progress<N>(cl: Seq<Toks<N>>, idx: int)
    requires
        0 <= idx < cl.len(),
    ensures
        s_one(cl, idx) matches Ok((_, n)) ==> idx < n <= cl.len(),
    decreases weight(cl, idx), 4nat,
{
    let line = line_of(cl[idx]);
    lemma_if_progress(cl, idx, line);
    lemma_define_progress(cl, idx, line);
    lemma_body_progress(cl, idx);
    if 0 <= idx + 1 <= cl.len() {
        lemma_weight(cl, idx, idx + 1);
        lemma_class_body_progress(cl, idx + 1, Seq::empty());
    }
}

/// Each statement the clause reader takes (`s_one`, the result of the parser's
/// `parse_one_clause`) consumes at least one clause and stops within the
/// clauses.
pub proof fn law_one_step_advances<N>(cl: Seq<Toks<N>>, idx: int)
    requires
        0 <= idx < cl.len(),
    ensures
        s_one(cl, idx) matches Ok((_, n)) ==> idx < n <= cl.len(),
{
    lemma_one_progress(cl, idx);
}

/// The parser reads nothing after the first end of input: the tokens up to
/// and including it give the same result as the whole sequence.
pub proof fn law_parse_stops_at_eof<N>(ts: Toks<N>, k: int)
    requires
        0 <= k < ts.len(),
        ts[k].token is Eof,
        forall|i: int| 0 <= i < k ==> !((#[trigger] ts[i]).token is Eof),
    ensures
        s_parse(ts) == s_parse(ts.subrange(0, k + 1)),
{
    lemma_program_upto(ts, k, 0, Seq::empty());
}

/// A comment line (its trimmed text starts with `note`) gives no tokens.
pub proof fn law_comment_lines_vanish<N>(o: Oracle<N>, l: Seq<char>, line: usize)
    requires
        is_comment(trim(l)),
    ensures
        line_tokens(o, l, line) == Seq::<SSpanned<N>>::empty(),
{
}

/// `is not` holds exactly where `is` does not.
pub proof fn law_is_not_negates<N>(o: Oracle<N>, l: SValue<N>, r: SValue<N>)
    ensures
        s_compare(o, l, Comparison::Is, r) is Ok,
        s_compare(o, l, Comparison::IsNot, r) == Ok::<bool, Seq<char>>(
            !s_compare(o, l, Comparison::Is, r)->Ok_0,
        ),
{
}

/// A snippet that does not parse ends with its error, shows only that error,
/// and leaves the session as it was, whatever the answers.
pub proof fn law_parse_error_keeps_session<N>(
    o: Oracle<N>,
    source: Seq<char>,
    answers: Seq<Seq<char>>,
    env: SEnv<N>,
)
    requires
        s_parse(s_tokenize(o, source)) is Err,
    ensures
        ({
            let m = s_parse(s_tokenize(o, source))->Err_0->Msg_0;
            s_snippet(o, source, answers, env) == (SInteraction::Ended(m.push('\n'), Err(m)), env)
        }),
{
    let m = s_parse(s_tokenize(o, source))->Err_0->Msg_0;
    assert(Seq::<char>::empty() + m.push('\n') =~= m.push('\n'));
}

/// A snippet whose `ask` finds no answer left leaves the session as it was.
pub proof fn law_awaiting_keeps_session<N>(
    o: Oracle<N>,
    source: Seq<char>,
    answers: Seq<Seq<char>>,
    env: SEnv<N>,
)
    ensures
        s_snippet(o, source, answers, env).0 is Awaits ==> s_snippet(o, source, answers, env).1 == env,
{
}

// ─── The text of an object ──────────────────────────────────────────────────

pub open spec fn pair_text<N>(o: Oracle<N>) -> spec_fn((Seq<char>, SValue<N>)) -> Seq<char> {
    |p: (Seq<char>, SValue<N>)| p.0 + ": "@ + s_str(o, p.1)
}

proof fn lemma_pairs_map<N>(o: Oracle<N>, f: Seq<(Seq<char>, SValue<N>)>)
    ensures
        s_pairs(o, f) == f.map_values(pair_text(o)),
    decreases f.len(),
{
    if f.len() == 0 {
        assert(f.map_values(pair_text(o)) =~= Seq::<Seq<char>>::empty());
    } else {
        lemma_pairs_map(o, f.drop_last());
        assert(f.map_values(pair_text(o)) =~= f.drop_last().map_values(pair_text(o)).push(
            pair_text(o)(f.last()),
        ));
    }
}

proof fn lemma_map_multiset<A, B>(s: Seq<A>, t: Seq<A>, g: spec_fn(A) -> B)
    requires
        s.to_multiset() == t.to_multiset(),
    ensures
        s.map_values(g).to_multiset() == t.map_values(g).to_multiset(),
    decreases s.len(),
{
    broadcast use vstd::seq_lib::group_to_multiset_ensures;
    broadcast use vstd::multiset::group_multiset_axioms;

    if s.len() == 0 {
        assert(t.to_multiset().len() == 0);
        assert(t.len() == 0);
        assert(s.map_values(g) =~= Seq::<B>::empty());
        assert(t.map_values(g) =~= Seq::<B>::empty());
    } else {
        let x = s.last();
        let s1 = s.drop_last();
        assert(s =~= s1.push(x));
        assert(s.to_multiset().count(x) > 0);
        assert(t.to_multiset().count(x) > 0);
        assert(t.contains(x));
        let k = choose|k: int| 0 <= k < t.len() && t[k] == x;
        let t1 = t.remove(k);
        assert(t1.to_multiset() =~= s1.to_multiset());
        lemma_map_multiset(s1, t1, g);
        assert(s.map_values(g) =~= s1.map_values(g).push(g(x)));
        assert(t.map_values(g) =~= t1.map_values(g).insert(k, g(x)));
    }
}

/// An object's text lists its fields in sorted order, so it does not depend on
/// the order in which the fields were set: two objects of one class that hold
/// the same fields show the same text.
pub proof fn law_object_text_ignores_field_order<N>(
    o: Oracle<N>,
    c: Seq<char>,
    f1: Seq<(Seq<char>, SValue<N>)>,
    f2: Seq<(Seq<char>, SValue<N>)>,
)
    requires
        f1.to_multiset() == f2.to_multiset(),
    ensures
        s_str(o, SValue::Object(c, f1)) == s_str(o, SValue::Object(c, f2)),
{
    lemma_pairs_map(o, f1);
    lemma_pairs_map(o, f2);
    lemma_map_multiset(f1, f2, pair_text(o));
    let p1 = s_pairs(o, f1);
    let p2 = s_pairs(o, f2);
    lemma_sort_texts(p1);
    lemma_sort_texts(p2);
    lemma_text_le_total_ordering();
    vstd::seq_lib::lemma_sorted_unique(sort_texts(p1), sort_texts(p2), text_order());
}


// ─── Methods ────────────────────────────────────────────────────────────────

/// Changes a method makes to `self` persist on the object after it returns:
/// once a method call succeeds without storing a result, the object variable
/// holds the fields that `self` held when the method's body ended.
pub proof fn law_method_changes_persist<N>(
    o: Oracle<N>,
    fuel: nat,
    m: Seq<char>,
    argv: Seq<SValue<N>>,
    obj: Seq<char>,
    env: SEnv<N>,
)
    ensures
        ({
            let (r, after) = s_run_method(o, fuel, m, argv, obj, None, env);
            match s_get(env, obj) {
                Some(SValue::Object(c, ofs)) => match lookup(env.classes, c) {
                    Some(def) => match first_in(method_names(def.1), m) {
                        Some(k) => {
                            let body_env = s_bind(
                                s_bind_fields(
                                    s_set_local(s_push(env), "self"@, SValue::Object(c, ofs)),
                                    ofs,
                                    0,
                                ),
                                def.1[k].1,
                                argv,
                                0,
                            );
                            let end = s_block(o, fuel, def.1[k].2, 0, body_env).1;
                            r is Ok ==> (s_get(end, "self"@) matches Some(SValue::Object(_, upd))
                                ==> s_get(after, obj) == Some(SValue::Object(c, upd)))
                        },
                        None => true,
                    },
                    None => true,
                },
                _ => true,
            }
        }),
{
    match s_get(env, obj) {
        Some(SValue::Object(c, ofs)) => match lookup(env.classes, c) {
            Some(def) => match first_in(method_names(def.1), m) {
                Some(k) => {
                    let body_env = s_bind(
                        s_bind_fields(
                            s_set_local(s_push(env), "self"@, SValue::Object(c, ofs)),
                            ofs,
                            0,
                        ),
                        def.1[k].1,
                        argv,
                        0,
                    );
                    let end = s_block(o, fuel, def.1[k].2, 0, body_env).1;
                    match s_get(end, "self"@) {
                        Some(SValue::Object(_, upd)) => {
                            law_get_after_set(s_pop(end), obj, SValue::Object(c, upd));
                        },
                        _ => {},
                    }
                },
                None => {},
            },
            None => {},
        },
        _ => {},
    }
}


// ─── Names occur once ───────────────────────────────────────────────────────

/// No key occurs twice.
pub open spec fn keys_unique<V>(s: Seq<(Seq<char>, V)>) -> bool {
    keys_of(s).no_duplicates()
}

/// Every scope, the functions and the types each bind a name at most once.
pub open spec fn env_wf<N>(env: SEnv<N>) -> bool {
    &&& forall|i: int| 0 <= i < env.frames.len() ==> keys_unique(#[trigger] env.frames[i])
    &&& keys_unique(env.functions)
    &&& keys_unique(env.classes)
}

/// Inserting into a map keeps each key at most once.
pub proof fn law_insert_keeps_keys_unique<V>(s: Seq<(Seq<char>, V)>, k: Seq<char>, v: V)
    requires
        keys_unique(s),
    ensures
        keys_unique(insert(s, k, v)),
{
    let ks = keys_of(s);
    lemma_first_in(ks, k);
    match first_in(ks, k) {
        Some(i) => {
            assert(keys_of(insert(s, k, v)) =~= ks);
        },
        None => {
            assert(keys_of(insert(s, k, v)) =~= ks.push(k));
        },
    }
}

/// A fresh environment binds nothing twice, and assigning, binding locally,
/// opening and closing scopes and defining functions and types keep it so.
pub proof fn law_env_names_unique<N>(
    env: SEnv<N>,
    k: Seq<char>,
    v: SValue<N>,
    f: SFunc<N>,
    c: SClass<N>,
)
    requires
        env_wf(env),
    ensures
        env_wf(s_new::<N>()),
        env_wf(s_set(env, k, v)),
        env_wf(s_set_local(env, k, v)),
        env_wf(s_push(env)),
        env_wf(s_pop(env)),
        env_wf(SEnv { functions: insert(env.functions, k, f), ..env }),
        env_wf(SEnv { classes: insert(env.classes, k, c), ..env }),
{
    let empty = Seq::<(Seq<char>, SValue<N>)>::empty();
    assert(keys_of(empty) =~= Seq::<Seq<char>>::empty());
    assert(keys_of(Seq::<(Seq<char>, SFunc<N>)>::empty()) =~= Seq::<Seq<char>>::empty());
    assert(keys_of(Seq::<(Seq<char>, SClass<N>)>::empty()) =~= Seq::<Seq<char>>::empty());
    assert(keys_of(seq![(k, v)]) =~= seq![k]);
    let fs = env.frames;
    lemma_frame_holding(fs, k);
    match frame_holding(fs, k) {
        Some(i) => {
            law_insert_keeps_keys_unique(fs[i], k, v);
        },
        None => {
            if fs.len() > 0 {
                law_insert_keeps_keys_unique(fs.last(), k, v);
            }
        },
    }
    if fs.len() > 0 {
        law_insert_keeps_keys_unique(fs.last(), k, v);
    }
    law_insert_keeps_keys_unique(env.functions, k, f);
    law_insert_keeps_keys_unique(env.classes, k, c);
    assert forall|i: int| 0 <= i < s_push(env).frames.len() implies keys_unique(
        #[trigger] s_push(env).frames[i],
    ) by {
        if i == fs.len() {
            assert(s_push(env).frames[i] == empty);
        }
    }
}


// ─── Session input ──────────────────────────────────────────────────────────

proof fn lemma_find_hit(s: Seq<char>, i: int, p: spec_fn(char) -> bool)
    requires
        0 <= i <= s.len(),
    ensures
        i <= find_from(s, i, p) <= s.len(),
        find_from(s, i, p) < s.len() ==> p(s[find_from(s, i, p)]),
        forall|k: int| i <= k < find_from(s, i, p) ==> !p(#[trigger] s[k]),
    decreases s.len() - i,
{
    if i < s.len() && !p(s[i]) {
        lemma_find_hit(s, i + 1, p);
    }
}

proof fn lemma_back_ws_hit(s: Seq<char>, j: int)
    requires
        0 <= j <= s.len(),
    ensures
        0 <= back_ws(s, j) <= j,
        forall|k: int| 0 <= k < j && !is_ws(#[trigger] s[k]) ==> k < back_ws(s, j),
    decreases j,
{
    if j > 0 && is_ws(s[j - 1]) {
        lemma_back_ws_hit(s, j - 1);
    }
}

/// `trim` keeps the stretch from the first to the last character other than
/// whitespace.
proof fn lemma_trim(s: Seq<char>)
    ensures
        0 <= skip_ws(s, 0) <= s.len(),
        trim(s).len() > 0 ==> skip_ws(s, 0) < back_ws(s, s.len() as int) <= s.len() && trim(s)
            == s.subrange(skip_ws(s, 0), back_ws(s, s.len() as int)),
        forall|k: int| 0 <= k < s.len() && !is_ws(#[trigger] s[k]) ==> skip_ws(s, 0) <= k,
{
    let p = |c: char| !is_ws(c);
    lemma_find_hit(s, 0, p);
    lemma_back_ws_hit(s, s.len() as int);
    let a = skip_ws(s, 0);
    if a < s.len() {
        assert(p(s[a]));
    }
    assert forall|k: int| 0 <= k < s.len() && !is_ws(#[trigger] s[k]) implies skip_ws(s, 0) <= k by {
        if k < a {
            assert(!p(s[k]));
        }
    }
}

proof fn lemma_last_index(s: Seq<char>, c: char)
    ensures
        -1 <= last_index_of(s, c) < s.len(),
        last_index_of(s, c) >= 0 ==> s[last_index_of(s, c)] == c,
        forall|k: int| last_index_of(s, c) < k < s.len() ==> #[trigger] s[k] != c,
    decreases s.len(),
{
    if s.len() > 0 && s.last() != c {
        let t = s.drop_last();
        lemma_last_index(t, c);
        assert forall|k: int| last_index_of(s, c) < k < s.len() implies #[trigger] s[k] != c by {
            if k < t.len() {
                assert(s[k] == t[k]);
            }
        }
    }
}

/// A session runs only complete statements: what a line of input releases
/// ends with a period, and what stays in the buffer holds no period.
pub proof fn law_session_runs_complete_statements(buffer: Seq<char>, line: Seq<char>)
    ensures
        repl_step(buffer, line).0 matches SReplStep::Run(r) ==> r.len() > 0 && r.last() == '.',
        !is_quit(line) ==> !repl_step(buffer, line).1.contains('.'),
{
    if !is_quit(line) {
        let b = (buffer + trim_end(line)).push(' ');
        let d = last_index_of(b, '.');
        lemma_last_index(b, '.');
        reveal_strlit(".");
        if d >= 0 {
            let head = b.take(d + 1);
            let tail = b.skip(d + 1);
            assert(head[d] == '.');
            assert(!is_ws('.'));
            lemma_trim(head);
            assert(back_ws(head, head.len() as int) == head.len());
            if trim(head).len() > 0 {
                let a = skip_ws(head, 0);
                assert(head.len() == d + 1);
                assert(trim(head) == head.subrange(a, d + 1));
                assert(head.subrange(a, d + 1)[d - a] == head[d]);
                assert(trim(head)[trim(head).len() - 1] == head[d]);
            }
            lemma_trim(tail);
            if trim(tail).contains('.') {
                let i = choose|i: int| 0 <= i < trim(tail).len() && trim(tail)[i] == '.';
                let a = skip_ws(tail, 0);
                assert(trim(tail).len() > 0);
                let e = back_ws(tail, tail.len() as int);
                assert(trim(tail) == tail.subrange(a, e));
                assert(tail.subrange(a, e)[i] == tail[a + i]);
                assert(trim(tail)[i] == tail[a + i]);
                assert(tail[a + i] == b[d + 1 + a + i]);
            }
        } else {
            if b.contains('.') {
                let i = choose|i: int| 0 <= i < b.len() && b[i] == '.';
                assert(b[i] != '.');
            }
        }
    }
}


// ─── Programs ───────────────────────────────────────────────────────────────

/// A variable shows what was last assigned to it: after `set x to e`, where
/// `e` has the value `v`, `say x` adds the text of `v` to the output.
pub proof fn law_say_after_set<N>(o: Oracle<N>, x: Seq<char>, e: SExpr<N>, v: SValue<N>, env: SEnv<N>)
    requires
        s_expr(o, e, env) == Ok::<SValue<N>, Seq<char>>(v),
        env.output is Some,
    ensures
        ({
            let (r1, env1) = s_stmt(o, FUEL as nat, SStmt::SetVar(x, e), env);
            let (r2, env2) = s_stmt(o, FUEL as nat, SStmt::Say(seq![SExpr::Variable(x)]), env1);
            r1 is Ok && r2 is Ok && env2.output == Some(env.output->0.push(s_str(o, v)))
        }),
{
    let env1 = s_set(env, x, v);
    law_get_after_set(env, x, v);
    let parts = seq![SExpr::<N>::Variable(x)];
    assert(s_expr(o, parts[0], env1) == Ok::<SValue<N>, Seq<char>>(v));
    assert(s_say_parts(o, parts, 1, seq![s_str(o, v)], env1) == Ok::<Seq<Seq<char>>, Seq<char>>(
        seq![s_str(o, v)],
    ));
    assert(Seq::<Seq<char>>::empty().push(s_str(o, v)) =~= seq![s_str(o, v)]);
    assert(s_say_parts(o, parts, 0, Seq::empty(), env1) == Ok::<Seq<Seq<char>>, Seq<char>>(
        seq![s_str(o, v)],
    ));
    assert(join(seq![s_str(o, v)], " "@) == s_str(o, v));
}

} // verus!
