//! The host: whoever runs the interpreter supplies the number type `N` and one
//! function that answers every question about numbers.
use vstd::prelude::*;

use crate::parser::Op;

verus! {

/// A comparison between two numbers.
#[derive(Debug, Clone, Copy, PartialEq, Eq, Structural)]
pub enum NumRel {
    Eq,
    Gt,
    Lt,
    Ge,
    Le,
}

/// A question the interpreter asks its host.
#[derive(Debug)]
pub enum Query<N> {
    /// Parse a text as a number; `None` when it is not one.
    Parse(String),
    /// The text of a number, as `say` shows it.
    Format(N),
    /// An arithmetic operation.
    Arith(Op, N, N),
    /// A comparison.
    Compare(NumRel, N, N),
    /// Whether a number is zero.
    IsZero(N),
    /// The number for a count (a size, a length, `true` as 1 and `false` as 0).
    FromCount(usize),
    /// The number converted to a 64-bit count, saturating.
    ToCount(N),
    /// The number converted to an index, saturating.
    ToIndex(N),
}

/// The host's answer.
#[derive(Debug)]
pub enum Reply<N> {
    Num(N),
    MaybeNum(Option<N>),
    Flag(bool),
    Text(String),
    Count(i64),
    Index(usize),
}

pub enum SQuery<N> {
    Parse(Seq<char>),
    Format(N),
    Arith(Op, N, N),
    Compare(NumRel, N, N),
    IsZero(N),
    FromCount(usize),
    ToCount(N),
    ToIndex(N),
}

pub enum SReply<N> {
    Num(N),
    MaybeNum(Option<N>),
    Flag(bool),
    Text(Seq<char>),
    Count(i64),
    Index(usize),
}

impl<N> View for Query<N> {
    type V = SQuery<N>;

    open spec fn view(&self) -> SQuery<N> {
        match *self {
            Query::Parse(s) => SQuery::Parse(s@),
            Query::Format(n) => SQuery::Format(n),
            Query::Arith(op, a, b) => SQuery::Arith(op, a, b),
            Query::Compare(c, a, b) => SQuery::Compare(c, a, b),
            Query::IsZero(n) => SQuery::IsZero(n),
            Query::FromCount(k) => SQuery::FromCount(k),
            Query::ToCount(n) => SQuery::ToCount(n),
            Query::ToIndex(n) => SQuery::ToIndex(n),
        }
    }
}

impl<N> View for Reply<N> {
    type V = SReply<N>;

    open spec fn view(&self) -> SReply<N> {
        match *self {
            Reply::Num(n) => SReply::Num(n),
            Reply::MaybeNum(m) => SReply::MaybeNum(m),
            Reply::Flag(b) => SReply::Flag(b),
            Reply::Text(s) => SReply::Text(s@),
            Reply::Count(c) => SReply::Count(c),
            Reply::Index(i) => SReply::Index(i),
        }
    }
}

/// The host may be asked anything, and answers each question as a function of it.
pub open spec fn host_ok<N, H: Fn(Query<N>) -> Reply<N>>(h: H) -> bool {
    &&& forall|q: Query<N>| call_requires(h, (q,))
    &&& forall|q1: Query<N>, q2: Query<N>, r1: Reply<N>, r2: Reply<N>|
        q1@ == q2@ && call_ensures(h, (q1,), r1) && call_ensures(h, (q2,), r2) ==> r1@ == r2@
}

/// The host's answer to a question.
pub open spec fn answer<N, H: Fn(Query<N>) -> Reply<N>>(h: H, q: SQuery<N>) -> SReply<N> {
    let (q2, r2) = choose|q2: Query<N>, r2: Reply<N>|
        #[trigger] call_ensures(h, (q2,), r2) && q2@ == q;
    r2@
}

/// The host as a function from questions to answers.
pub open spec fn oracle<N, H: Fn(Query<N>) -> Reply<N>>(h: H) -> spec_fn(SQuery<N>) -> SReply<N> {
    |q: SQuery<N>| answer(h, q)
}

pub fn ask_host<N, H: Fn(Query<N>) -> Reply<N>>(h: &H, q: Query<N>) -> (r: Reply<N>)
    requires
        host_ok(*h),
    ensures
        r@ == oracle(*h)(q@),
{
    let ghost qv = q@;
    let r = h(q);
    proof {
        assert(call_ensures(*h, (q,), r) && q@ == qv);
        let (q3, r3) = choose|q3: Query<N>, r3: Reply<N>|
            #[trigger] call_ensures(*h, (q3,), r3) && q3@ == qv;
        assert(r3@ == r@);
    }
    r
}

pub open spec fn host_error() -> Seq<char> {
    "OrimaLang Error: the host gave an answer of the wrong kind"@
}

pub fn host_error_text() -> (r: String)
    ensures
        r@ == host_error(),
{
    String::from_str("OrimaLang Error: the host gave an answer of the wrong kind")
}

// Answers read by kind; an answer of the wrong kind counts as the default shown.

pub open spec fn q_format<N>(o: spec_fn(SQuery<N>) -> SReply<N>, n: N) -> Seq<char> {
    match o(SQuery::Format(n)) {
        SReply::Text(s) => s,
        _ => Seq::empty(),
    }
}

pub open spec fn q_parse<N>(o: spec_fn(SQuery<N>) -> SReply<N>, s: Seq<char>) -> Option<N> {
    match o(SQuery::Parse(s)) {
        SReply::MaybeNum(m) => m,
        _ => None,
    }
}

pub open spec fn q_arith<N>(o: spec_fn(SQuery<N>) -> SReply<N>, op: Op, a: N, b: N) -> Result<
    N,
    Seq<char>,
> {
    match o(SQuery::Arith(op, a, b)) {
        SReply::Num(n) => Ok(n),
        _ => Err(host_error()),
    }
}

pub open spec fn q_relation<N>(o: spec_fn(SQuery<N>) -> SReply<N>, c: NumRel, a: N, b: N) -> bool {
    match o(SQuery::Compare(c, a, b)) {
        SReply::Flag(f) => f,
        _ => false,
    }
}

pub open spec fn q_is_zero<N>(o: spec_fn(SQuery<N>) -> SReply<N>, n: N) -> bool {
    match o(SQuery::IsZero(n)) {
        SReply::Flag(f) => f,
        _ => false,
    }
}

pub open spec fn q_count<N>(o: spec_fn(SQuery<N>) -> SReply<N>, k: usize) -> Result<N, Seq<char>> {
    match o(SQuery::FromCount(k)) {
        SReply::Num(n) => Ok(n),
        _ => Err(host_error()),
    }
}

pub open spec fn q_to_count<N>(o: spec_fn(SQuery<N>) -> SReply<N>, n: N) -> i64 {
    match o(SQuery::ToCount(n)) {
        SReply::Count(c) => c,
        _ => 0,
    }
}

pub open spec fn q_to_index<N>(o: spec_fn(SQuery<N>) -> SReply<N>, n: N) -> usize {
    match o(SQuery::ToIndex(n)) {
        SReply::Index(i) => i,
        _ => 0,
    }
}

pub fn host_format<N: Copy, H: Fn(Query<N>) -> Reply<N>>(h: &H, n: N) -> (r: String)
    requires
        host_ok(*h),
    ensures
        r@ == q_format(oracle(*h), n),
{
    match ask_host(h, Query::Format(n)) {
        Reply::Text(s) => s,
        _ => String::new(),
    }
}

pub fn host_parse<N: Copy, H: Fn(Query<N>) -> Reply<N>>(h: &H, s: &String) -> (r: Option<N>)
    requires
        host_ok(*h),
    ensures
        r == q_parse(oracle(*h), s@),
{
    match ask_host(h, Query::Parse(s.clone())) {
        Reply::MaybeNum(m) => m,
        _ => None,
    }
}

pub fn host_arith<N: Copy, H: Fn(Query<N>) -> Reply<N>>(h: &H, op: Op, a: N, b: N) -> (r: Result<
    N,
    String,
>)
    requires
        host_ok(*h),
    ensures
        match (r, q_arith(oracle(*h), op, a, b)) {
            (Ok(x), Ok(y)) => x == y,
            (Err(e), Err(f)) => e@ == f,
            _ => false,
        },
{
    match ask_host(h, Query::Arith(op, a, b)) {
        Reply::Num(n) => Ok(n),
        _ => Err(host_error_text()),
    }
}

pub fn host_relation<N: Copy, H: Fn(Query<N>) -> Reply<N>>(h: &H, c: NumRel, a: N, b: N) -> (r: bool)
    requires
        host_ok(*h),
    ensures
        r == q_relation(oracle(*h), c, a, b),
{
    match ask_host(h, Query::Compare(c, a, b)) {
        Reply::Flag(f) => f,
        _ => false,
    }
}

pub fn host_is_zero<N: Copy, H: Fn(Query<N>) -> Reply<N>>(h: &H, n: N) -> (r: bool)
    requires
        host_ok(*h),
    ensures
        r == q_is_zero(oracle(*h), n),
{
    match ask_host(h, Query::IsZero(n)) {
        Reply::Flag(f) => f,
        _ => false,
    }
}

pub fn host_count<N: Copy, H: Fn(Query<N>) -> Reply<N>>(h: &H, k: usize) -> (r: Result<N, String>)
    requires
        host_ok(*h),
    ensures
        match (r, q_count(oracle(*h), k)) {
            (Ok(x), Ok(y)) => x == y,
            (Err(e), Err(f)) => e@ == f,
            _ => false,
        },
{
    match ask_host(h, Query::FromCount(k)) {
        Reply::Num(n) => Ok(n),
        _ => Err(host_error_text()),
    }
}

pub fn host_to_count<N: Copy, H: Fn(Query<N>) -> Reply<N>>(h: &H, n: N) -> (r: i64)
    requires
        host_ok(*h),
    ensures
        r == q_to_count(oracle(*h), n),
{
    match ask_host(h, Query::ToCount(n)) {
        Reply::Count(c) => c,
        _ => 0,
    }
}

pub fn host_to_index<N: Copy, H: Fn(Query<N>) -> Reply<N>>(h: &H, n: N) -> (r: usize)
    requires
        host_ok(*h),
    ensures
        r == q_to_index(oracle(*h), n),
{
    match ask_host(h, Query::ToIndex(n)) {
        Reply::Index(i) => i,
        _ => 0,
    }
}

} // verus!
