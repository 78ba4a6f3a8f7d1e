//! The tokenizer.
use vstd::prelude::*;

use crate::host::{host_ok, host_parse, oracle, q_parse, Query, Reply, SQuery, SReply};
use crate::text::{
    char_is_ws, chars_of, has_prefix, is_kw, is_ws, lowercase, string_of, to_lower,
};

verus! {

/// A token.
#[derive(Debug, Clone, PartialEq)]
pub enum Token<N> {
    Word(String),
    Number(N),
    StringLit(String),
    Comma,
    Period,
    Eof,
}

pub enum SToken<N> {
    Word(Seq<char>),
    Number(N),
    StringLit(Seq<char>),
    Comma,
    Period,
    Eof,
}

impl<N> View for Token<N> {
    type V = SToken<N>;

    open spec fn view(&self) -> SToken<N> {
        match *self {
            Token::Word(w) => SToken::Word(w@),
            Token::Number(n) => SToken::Number(n),
            Token::StringLit(s) => SToken::StringLit(s@),
            Token::Comma => SToken::Comma,
            Token::Period => SToken::Period,
            Token::Eof => SToken::Eof,
        }
    }
}

/// A token with the source line it came from.
#[derive(Debug, Clone)]
pub struct Spanned<N> {
    pub token: Token<N>,
    pub line: usize,
}

pub struct SSpanned<N> {
    pub token: SToken<N>,
    pub line: usize,
}

impl<N> View for Spanned<N> {
    type V = SSpanned<N>;

    open spec fn view(&self) -> SSpanned<N> {
        SSpanned { token: self.token@, line: self.line }
    }
}

pub open spec fn toks_view<N>(s: Seq<Spanned<N>>) -> Seq<SSpanned<N>> {
    s.map_values(|t: Spanned<N>| t@)
}

// ─── Lines ──────────────────────────────────────────────────────────────────

/// The first index at or after `i` whose character satisfies `p`, or the length.
pub open spec fn find_from(s: Seq<char>, i: int, p: spec_fn(char) -> bool) -> int
    decreases s.len() - i,
{
    if i < 0 || i >= s.len() {
        s.len() as int
    } else if p(s[i]) {
        i
    } else {
        find_from(s, i + 1, p)
    }
}

/// `find_from` stays within `[i, s.len()]`.
pub proof fn lemma_find_from_bounds(s: Seq<char>, i: int, p: spec_fn(char) -> bool)
    requires
        0 <= i <= s.len(),
    ensures
        i <= find_from(s, i, p) <= s.len(),
        i < s.len() && !p(s[i]) ==> i < find_from(s, i, p),
    decreases s.len() - i,
{
    if i < s.len() && !p(s[i]) {
        lemma_find_from_bounds(s, i + 1, p);
    }
}

pub open spec fn next_nl(s: Seq<char>, i: int) -> int {
    find_from(s, i, |c: char| c == '\n')
}

pub open spec fn strip_cr(l: Seq<char>) -> Seq<char> {
    if l.len() > 0 && l.last() == '\r' {
        l.drop_last()
    } else {
        l
    }
}

/// The lines of `s[i..]` as `str::lines` gives them: split at each line feed,
/// a carriage return before it dropped, no empty line after a final line feed.
pub open spec fn lines_from(s: Seq<char>, i: int) -> Seq<Seq<char>>
    decreases s.len() - i,
{
    if i < 0 || i >= s.len() {
        Seq::empty()
    } else {
        let j = next_nl(s, i);
        proof {
            lemma_find_from_bounds(s, i, |c: char| c == '\n');
        }
        if j >= s.len() {
            seq![s.subrange(i, s.len() as int)]
        } else {
            seq![strip_cr(s.subrange(i, j))] + lines_from(s, j + 1)
        }
    }
}

pub open spec fn lines(s: Seq<char>) -> Seq<Seq<char>> {
    lines_from(s, 0)
}

// ─── Trimming ───────────────────────────────────────────────────────────────

/// The index of the first character at or after `i` that is not whitespace.
pub open spec fn skip_ws(s: Seq<char>, i: int) -> int {
    find_from(s, i, |c: char| !is_ws(c))
}

/// One past the last character before `j` that is not whitespace.
pub open spec fn back_ws(s: Seq<char>, j: int) -> int
    decreases j,
{
    if j <= 0 || j > s.len() {
        0
    } else if is_ws(s[j - 1]) {
        back_ws(s, j - 1)
    } else {
        j
    }
}

/// `str::trim`: whitespace removed at both ends.
pub open spec fn trim(s: Seq<char>) -> Seq<char> {
    let a = skip_ws(s, 0);
    if a >= s.len() {
        Seq::empty()
    } else {
        s.subrange(a, back_ws(s, s.len() as int))
    }
}

/// A line whose trimmed text begins with `note` (in any case) followed by
/// nothing, a space or a tab is a comment.
pub open spec fn is_comment(t: Seq<char>) -> bool {
    &&& has_prefix(lowercase(t), "note"@)
    &&& t.len() >= 4
    &&& (t.len() == 4 || t[4] == ' ' || t[4] == '\t')
}

// ─── Scanning a line ────────────────────────────────────────────────────────

pub open spec fn is_stop(c: char) -> bool {
    is_ws(c) || c == '.' || c == ',' || c == '"'
}

/// The index of the first `"` at or after `i`.
pub open spec fn quote_end(s: Seq<char>, i: int) -> int {
    find_from(s, i, |c: char| c == '"')
}

/// The index of the first character at or after `i` that ends a word.
pub open spec fn word_end(s: Seq<char>, i: int) -> int {
    find_from(s, i, |c: char| is_stop(c))
}

/// A bare word: a number when the host parses it as one, else a word in lower case.
pub open spec fn word_token<N>(o: spec_fn(SQuery<N>) -> SReply<N>, raw: Seq<char>) -> SToken<N> {
    match q_parse(o, raw) {
        Some(n) => SToken::Number(n),
        None => SToken::Word(lowercase(raw)),
    }
}

/// The tokens of `s[i..]`, after `acc`, all on line `line`.
pub open spec fn scan<N>(
    o: spec_fn(SQuery<N>) -> SReply<N>,
    s: Seq<char>,
    i: int,
    line: usize,
    acc: Seq<SSpanned<N>>,
) -> Seq<SSpanned<N>>
    decreases s.len() - i,
{
    if i < 0 || i >= s.len() {
        acc
    } else if is_ws(s[i]) {
        scan(o, s, i + 1, line, acc)
    } else if s[i] == '"' {
        let j = quote_end(s, i + 1);
        proof {
            lemma_find_from_bounds(s, i + 1, |c: char| c == '"');
        }
        let t = SSpanned { token: SToken::StringLit(s.subrange(i + 1, j)), line };
        scan(o, s, if j < s.len() { j + 1 } else { j }, line, acc.push(t))
    } else if s[i] == '.' {
        scan(o, s, i + 1, line, acc.push(SSpanned { token: SToken::Period, line }))
    } else if s[i] == ',' {
        scan(o, s, i + 1, line, acc.push(SSpanned { token: SToken::Comma, line }))
    } else {
        let j = word_end(s, i);
        proof {
            lemma_find_from_bounds(s, i, |c: char| is_stop(c));
        }
        if starts_note(acc, s.subrange(i, j)) {
            acc
        } else {
            let t = SSpanned { token: word_token(o, s.subrange(i, j)), line };
            scan(o, s, j, line, acc.push(t))
        }
    }
}

/// The word `raw` is `note` (in any case) and stands right after a statement's
/// period: the rest of the line is a comment.
pub open spec fn starts_note<N>(acc: Seq<SSpanned<N>>, raw: Seq<char>) -> bool {
    &&& acc.len() > 0
    &&& acc[acc.len() - 1].token is Period
    &&& lowercase(raw) == "note"@
}

/// The tokens of one line (numbered `line`): none for a comment.
pub open spec fn line_tokens<N>(o: spec_fn(SQuery<N>) -> SReply<N>, l: Seq<char>, line: usize) -> Seq<SSpanned<N>> {
    let t = trim(l);
    if is_comment(t) {
        Seq::empty()
    } else {
        scan(o, t, 0, line, Seq::empty())
    }
}

/// The tokens of lines `k..`, after `acc`.
pub open spec fn tokens_from<N>(
    o: spec_fn(SQuery<N>) -> SReply<N>,
    ls: Seq<Seq<char>>,
    k: int,
    acc: Seq<SSpanned<N>>,
) -> Seq<SSpanned<N>>
    decreases ls.len() - k,
{
    if k < 0 || k >= ls.len() {
        acc
    } else {
        tokens_from(o, ls, k + 1, acc + line_tokens(o, ls[k], (k + 1) as usize))
    }
}

/// The tokens of a source text: those of each line, then `Eof` on the last line.
pub open spec fn s_tokenize<N>(o: spec_fn(SQuery<N>) -> SReply<N>, source: Seq<char>) -> Seq<SSpanned<N>> {
    let ls = lines(source);
    tokens_from(o, ls, 0, Seq::empty()).push(
        SSpanned { token: SToken::Eof, line: if ls.len() > 1 { ls.len() as usize } else { 1 } },
    )
}


// ─── Lemmas ─────────────────────────────────────────────────────────────────

pub proof fn lemma_find_from(s: Seq<char>, a: int, b: int, p: spec_fn(char) -> bool)
    requires
        0 <= a <= b <= s.len(),
        forall|j: int| a <= j < b ==> !p(#[trigger] s[j]),
        b == s.len() || p(s[b]),
    ensures
        find_from(s, a, p) == b,
    decreases b - a,
{
    if a < b {
        lemma_find_from(s, a + 1, b, p);
    }
}

pub proof fn lemma_back_ws(s: Seq<char>, a: int, b: int)
    requires
        0 <= a <= b <= s.len(),
        forall|j: int| a <= j < b ==> is_ws(#[trigger] s[j]),
        a == 0 || !is_ws(s[a - 1]),
    ensures
        back_ws(s, b) == a,
    decreases b - a,
{
    if a < b {
        lemma_back_ws(s, a, b - 1);
    }
}

pub open spec fn char_lines(v: Seq<Vec<char>>) -> Seq<Seq<char>> {
    v.map_values(|l: Vec<char>| l@)
}

// ─── Tokenizing ─────────────────────────────────────────────────────────────

pub(crate) fn sub_chars(s: &Vec<char>, a: usize, b: usize) -> (r: Vec<char>)
    requires
        a <= b <= s@.len(),
    ensures
        r@ == s@.subrange(a as int, b as int),
{
    let mut out: Vec<char> = Vec::new();
    let mut i: usize = a;
    while i < b
        invariant
            a <= i <= b,
            b <= s@.len(),
            out@ == s@.subrange(a as int, i as int),
        decreases b - i,
    {
        out.push(s[i]);
        proof {
            assert(s@.subrange(a as int, i + 1) == s@.subrange(a as int, i as int).push(s@[i as int]));
        }
        i += 1;
    }
    out
}

/// The lines of a text, as `str::lines` gives them.
fn split_lines(s: &Vec<char>) -> (r: Vec<Vec<char>>)
    ensures
        char_lines(r@) == lines(s@),
{
    let mut out: Vec<Vec<char>> = Vec::new();
    let mut start: usize = 0;
    let mut i: usize = 0;
    proof {
        assert(char_lines(out@) =~= Seq::<Seq<char>>::empty());
        assert(lines(s@) == Seq::<Seq<char>>::empty() + lines_from(s@, 0));
    }
    while i < s.len()
        invariant
            start <= i <= s@.len(),
            forall|j: int| start <= j < i ==> #[trigger] s@[j] != '\n',
            lines(s@) == char_lines(out@) + lines_from(s@, start as int),
        decreases s@.len() - i,
    {
        if s[i] == '\n' {
            let mut l = sub_chars(s, start, i);
            if l.len() > 0 && l[l.len() - 1] == '\r' {
                l.pop();
                proof {
                    assert(l@ == s@.subrange(start as int, i as int).drop_last());
                }
            }
            proof {
                lemma_find_from(s@, start as int, i as int, |c: char| c == '\n');
                assert(l@ == strip_cr(s@.subrange(start as int, i as int)));
                assert(char_lines(out@.push(l)) =~= char_lines(out@).push(l@));
                assert(lines_from(s@, start as int) == seq![l@] + lines_from(s@, i + 1));
                assert(char_lines(out@) + lines_from(s@, start as int) =~= char_lines(out@.push(l))
                    + lines_from(s@, i + 1));
            }
            out.push(l);
            start = i + 1;
        }
        i += 1;
    }
    if start < s.len() {
        let l = sub_chars(s, start, s.len());
        proof {
            lemma_find_from(s@, start as int, s@.len() as int, |c: char| c == '\n');
            assert(lines_from(s@, start as int) == seq![l@]);
            assert(char_lines(out@.push(l)) =~= char_lines(out@).push(l@));
            assert(char_lines(out@) + lines_from(s@, start as int) =~= char_lines(out@.push(l)));
        }
        out.push(l);
    } else {
        proof {
            assert(char_lines(out@) + lines_from(s@, start as int) =~= char_lines(out@));
        }
    }
    out
}

pub(crate) fn trim_chars(s: &Vec<char>) -> (r: Vec<char>)
    ensures
        r@ == trim(s@),
{
    let mut a: usize = 0;
    while a < s.len() && char_is_ws(s[a])
        invariant
            a <= s@.len(),
            forall|j: int| 0 <= j < a ==> is_ws(#[trigger] s@[j]),
        decreases s@.len() - a,
    {
        a += 1;
    }
    proof {
        lemma_find_from(s@, 0, a as int, |c: char| !is_ws(c));
    }
    if a >= s.len() {
        return Vec::new();
    }
    let mut b: usize = s.len();
    while b > a && char_is_ws(s[b - 1])
        invariant
            a < s@.len(),
            a <= b <= s@.len(),
            forall|j: int| b <= j < s@.len() ==> is_ws(#[trigger] s@[j]),
        decreases b,
    {
        b -= 1;
    }
    proof {
        assert(b > a);
        lemma_back_ws(s@, b as int, s@.len() as int);
    }
    sub_chars(s, a, b)
}

fn word_token_exec<N: Copy, H: Fn(Query<N>) -> Reply<N>>(raw: &Vec<char>, h: &H) -> (r: Token<N>)
    requires
        host_ok(*h),
    ensures
        r@ == word_token(oracle(*h), raw@),
{
    let w = string_of(raw.as_slice());
    match host_parse(h, &w) {
        Some(n) => Token::Number(n),
        None => Token::Word(to_lower(w.as_str())),
    }
}

/// The tokens of one trimmed line.
fn scan_line<N: Copy, H: Fn(Query<N>) -> Reply<N>>(t: &Vec<char>, line: usize, h: &H) -> (r: Vec<Spanned<N>>)
    requires
        host_ok(*h),
    ensures
        toks_view(r@) == scan(oracle(*h), t@, 0, line, Seq::empty()),
{
    let ghost o = oracle(*h);
    let mut out: Vec<Spanned<N>> = Vec::new();
    let mut i: usize = 0;
    proof {
        assert(toks_view(out@) =~= Seq::<SSpanned<N>>::empty());
    }
    while i < t.len()
        invariant
            host_ok(*h),
            o == oracle(*h),
            i <= t@.len(),
            scan(o, t@, 0, line, Seq::empty()) == scan(o, t@, i as int, line, toks_view(out@)),
        decreases t@.len() - i,
    {
        let c = t[i];
        if char_is_ws(c) {
            i += 1;
        } else if c == '"' {
            let mut j = i + 1;
            while j < t.len() && t[j] != '"'
                invariant
                    i < j <= t@.len(),
                    forall|k: int| i + 1 <= k < j ==> #[trigger] t@[k] != '"',
                decreases t@.len() - j,
            {
                j += 1;
            }
            proof {
                lemma_find_from(t@, i + 1, j as int, |c: char| c == '"');
            }
            let content = sub_chars(t, i + 1, j);
            let tok = Spanned { token: Token::StringLit(string_of(content.as_slice())), line };
            proof {
                assert(toks_view(out@.push(tok)) =~= toks_view(out@).push(tok@));
            }
            out.push(tok);
            i = if j < t.len() {
                j + 1
            } else {
                j
            };
        } else if c == '.' {
            let tok = Spanned { token: Token::Period, line };
            proof {
                assert(toks_view(out@.push(tok)) =~= toks_view(out@).push(tok@));
            }
            out.push(tok);
            i += 1;
        } else if c == ',' {
            let tok = Spanned { token: Token::Comma, line };
            proof {
                assert(toks_view(out@.push(tok)) =~= toks_view(out@).push(tok@));
            }
            out.push(tok);
            i += 1;
        } else {
            let mut j = i;
            while j < t.len() && !(char_is_ws(t[j]) || t[j] == '.' || t[j] == ',' || t[j] == '"')
                invariant
                    i <= j <= t@.len(),
                    forall|k: int| i <= k < j ==> !is_stop(#[trigger] t@[k]),
                decreases t@.len() - j,
            {
                j += 1;
            }
            proof {
                lemma_find_from(t@, i as int, j as int, |c: char| is_stop(c));
            }
            let raw = sub_chars(t, i, j);
            if out.len() > 0 && matches!(out[out.len() - 1].token, Token::Period) {
                let lower = to_lower(string_of(raw.as_slice()).as_str());
                if is_kw(&lower, "note") {
                    proof {
                        reveal_strlit("note");
                        assert(starts_note(toks_view(out@), raw@));
                    }
                    return out;
                }
            }
            let tok = Spanned { token: word_token_exec(&raw, h), line };
            proof {
                assert(toks_view(out@.push(tok)) =~= toks_view(out@).push(tok@));
            }
            out.push(tok);
            i = j;
        }
    }
    out
}

fn is_comment_exec(t: &Vec<char>) -> (r: bool)
    ensures
        r == is_comment(t@),
{
    let lower = to_lower(string_of(t.as_slice()).as_str());
    let note = String::from_str("note");
    if !crate::text::text_starts_with(&lower, &note) {
        return false;
    }
    if t.len() < 4 {
        return false;
    }
    t.len() == 4 || t[4] == ' ' || t[4] == '\t'
}

/// Tokenize a source text. A bare word that the host parses as a number is a
/// `Number`; any other word is lower-cased; `"..."` is a string literal; lines
/// whose trimmed text starts with `note` are comments, and so is the rest of a
/// line from a `note` that follows a statement's period.
pub fn tokenize<N: Copy, H: Fn(Query<N>) -> Reply<N>>(source: &str, h: &H) -> (r: Vec<Spanned<N>>)
    requires
        host_ok(*h),
    ensures
        toks_view(r@) == s_tokenize(oracle(*h), source@),
{
    let ghost o = oracle(*h);
    let src = chars_of(source);
    let ls = split_lines(&src);
    let mut tokens: Vec<Spanned<N>> = Vec::new();
    let mut k: usize = 0;
    proof {
        assert(toks_view(tokens@) =~= Seq::<SSpanned<N>>::empty());
    }
    while k < ls.len()
        invariant
            host_ok(*h),
            o == oracle(*h),
            k <= ls@.len(),
            char_lines(ls@) == lines(source@),
            tokens_from(o, char_lines(ls@), 0, Seq::empty()) == tokens_from(
                o,
                char_lines(ls@),
                k as int,
                toks_view(tokens@),
            ),
        decreases ls@.len() - k,
    {
        let t = trim_chars(&ls[k]);
        let mut lt: Vec<Spanned<N>> = if is_comment_exec(&t) {
            Vec::new()
        } else {
            scan_line(&t, k + 1, h)
        };
        proof {
            assert(char_lines(ls@)[k as int] == ls@[k as int]@);
            assert(toks_view(lt@) == line_tokens(o, ls@[k as int]@, (k + 1) as usize)) by {
                if is_comment(t@) {
                    assert(toks_view(lt@) =~= Seq::<SSpanned<N>>::empty());
                }
            }
        }
        let ghost before = tokens@;
        let ghost added = lt@;
        tokens.append(&mut lt);
        proof {
            assert(toks_view(tokens@) =~= toks_view(before) + toks_view(added));
        }
        k += 1;
    }
    let last_line: usize = if ls.len() > 1 {
        ls.len()
    } else {
        1
    };
    let eof = Spanned { token: Token::Eof, line: last_line };
    proof {
        assert(toks_view(tokens@.push(eof)) =~= toks_view(tokens@).push(eof@));
    }
    tokens.push(eof);
    tokens
}

} // verus!
