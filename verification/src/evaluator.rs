//! The tree-walking interpreter and its environment.
use vstd::prelude::*;

use crate::assoc::{
    exec_keys, find_key, first_in, insert, keys_of, lookup, lemma_first_in, lemma_first_in_is,
};
use crate::parser::{
    sv, sv_fields, ss_list, ss_methods, SMethod, SStmt, SValue, Stmt, Value, lemma_sv_fields_push,
};
use crate::text::{
    on_line_text, views, lit, concat, concat3, join_strings, sort_strings, to_lower, to_upper, text_contains,
    text_starts_with, text_ends_with, usize_to_string, lowercase,
};
use crate::host::{
    host_ok, oracle, Query, Reply, NumRel, host_format, host_parse, host_arith, host_relation,
    host_is_zero, host_count, host_to_count, host_to_index, 
};
use crate::parser::{
    Expr, Op, Comparison, LogicOp, clone_value, lemma_sv_list, lemma_sv_list_push, lemma_se_list,
    lemma_views_push, sv_list, se, se_list, clone_strings, clone_stmts, clone_methods, lemma_ss_list, lemma_ss_methods, ss, opt_view,
};
use crate::semantics::{
    s_program_lined,
    SRes, s_str, s_strs, s_pairs, s_deq, s_list_deq, s_fields_eq, s_fields_all, s_values_equal,
    s_truthy, s_to_num, s_compare, lemma_s_strs_push, lemma_s_pairs_push, lemma_list_deq,
    lemma_fields_all, field_ok, quoted, out_of_range, s_item, num_val, s_num_op, s_binary, s_expr,
    s_concat, s_emit, s_say_parts, s_args, limit_msg, s_arith_stmt, s_retain, s_stmt, s_block,
    s_repeat, s_while, s_foreach, count_of, items_of, s_build, s_bind, s_call, result_of,
    s_run_method, s_bind_fields, method_names, Oracle, undefined_variable, s_say, s_assign, s_add,
    s_remove, s_remove_item, s_ask, s_create, s_set_field, s_program, FUEL,
};
use vstd::pervasive::VecAdditionalExecFns;

verus! {

// ─── Signals ────────────────────────────────────────────────────────────────

/// What a statement tells the statements around it.
#[derive(Debug)]
pub enum Signal<N> {
    Normal,
    Return(Value<N>),
    Break,
    Continue,
}

pub enum SSignal<N> {
    Normal,
    Return(SValue<N>),
    Break,
    Continue,
}

impl<N> View for Signal<N> {
    type V = SSignal<N>;

    open spec fn view(&self) -> SSignal<N> {
        match *self {
            Signal::Normal => SSignal::Normal,
            Signal::Return(v) => SSignal::Return(v@),
            Signal::Break => SSignal::Break,
            Signal::Continue => SSignal::Continue,
        }
    }
}

// ─── Environment ────────────────────────────────────────────────────────────

/// What an `ask` finds for its answer.
pub enum Answer {
    NoInput,
    Text(String),
    Missing,
}

/// A scoped environment: the last frame is the innermost scope.
pub struct Env<N> {
    frames: Vec<Vec<(String, Value<N>)>>,
    /// Function definitions: name, parameters, body.
    pub functions: Vec<(String, (Vec<String>, Vec<Stmt<N>>))>,
    /// Class definitions: name, field names, methods.
    pub classes: Vec<(String, (Vec<String>, Vec<(String, Vec<String>, Vec<Stmt<N>>)>))>,
    /// Where `say` writes its lines; without a buffer they are dropped.
    pub output_buffer: Option<Vec<String>>,
    /// The answers for `ask`, first to last; without them `ask` stores the empty text.
    input: Option<Vec<String>>,
    /// The prompt of an `ask` that found no answer left.
    waiting: Option<String>,
}

pub type SFrame<N> = Seq<(Seq<char>, SValue<N>)>;

pub type SFunc<N> = (Seq<Seq<char>>, Seq<SStmt<N>>);

pub type SClass<N> = (Seq<Seq<char>>, Seq<SMethod<N>>);

/// The mathematical view of an [`Env`].
pub struct SEnv<N> {
    pub frames: Seq<SFrame<N>>,
    pub functions: Seq<(Seq<char>, SFunc<N>)>,
    pub classes: Seq<(Seq<char>, SClass<N>)>,
    pub output: Option<Seq<Seq<char>>>,
    pub input: Option<Seq<Seq<char>>>,
    pub waiting: Option<Seq<char>>,
}

pub open spec fn frames_view<N>(fs: Seq<Vec<(String, Value<N>)>>) -> Seq<SFrame<N>> {
    fs.map_values(|f: Vec<(String, Value<N>)>| sv_fields(f@))
}

pub open spec fn funcs_view<N>(fs: Seq<(String, (Vec<String>, Vec<Stmt<N>>))>) -> Seq<
    (Seq<char>, SFunc<N>),
> {
    fs.map_values(
        |p: (String, (Vec<String>, Vec<Stmt<N>>))| (p.0@, (views(p.1.0@), ss_list(p.1.1@))),
    )
}

pub open spec fn classes_view<N>(
    cs: Seq<(String, (Vec<String>, Vec<(String, Vec<String>, Vec<Stmt<N>>)>))>,
) -> Seq<(Seq<char>, SClass<N>)> {
    cs.map_values(
        |p: (String, (Vec<String>, Vec<(String, Vec<String>, Vec<Stmt<N>>)>))|
            (p.0@, (views(p.1.0@), ss_methods(p.1.1@))),
    )
}

pub open spec fn out_view(o: Option<Vec<String>>) -> Option<Seq<Seq<char>>> {
    match o {
        Some(v) => Some(views(v@)),
        None => None,
    }
}

impl<N> View for Env<N> {
    type V = SEnv<N>;

    closed spec fn view(&self) -> SEnv<N> {
        SEnv {
            frames: frames_view(self.frames@),
            functions: funcs_view(self.functions@),
            classes: classes_view(self.classes@),
            output: out_view(self.output_buffer),
            input: out_view(self.input),
            waiting: opt_view(self.waiting),
        }
    }
}

// ─── Environment operations on views ────────────────────────────────────────

/// The innermost frame that binds `k`.
pub open spec fn frame_holding<N>(fs: Seq<SFrame<N>>, k: Seq<char>) -> Option<int>
    decreases fs.len(),
{
    if fs.len() == 0 {
        None
    } else if lookup(fs.last(), k) is Some {
        Some(fs.len() - 1)
    } else {
        frame_holding(fs.drop_last(), k)
    }
}

pub open spec fn s_get<N>(env: SEnv<N>, k: Seq<char>) -> Option<SValue<N>> {
    match frame_holding(env.frames, k) {
        Some(i) => lookup(env.frames[i], k),
        None => None,
    }
}

pub open spec fn s_set<N>(env: SEnv<N>, k: Seq<char>, v: SValue<N>) -> SEnv<N> {
    let fs = env.frames;
    SEnv {
        frames: match frame_holding(fs, k) {
            Some(i) => fs.update(i, insert(fs[i], k, v)),
            None => if fs.len() == 0 {
                seq![seq![(k, v)]]
            } else {
                fs.update(fs.len() - 1, insert(fs.last(), k, v))
            },
        },
        ..env
    }
}

pub open spec fn s_set_local<N>(env: SEnv<N>, k: Seq<char>, v: SValue<N>) -> SEnv<N> {
    let fs = env.frames;
    SEnv {
        frames: if fs.len() == 0 {
            seq![seq![(k, v)]]
        } else {
            fs.update(fs.len() - 1, insert(fs.last(), k, v))
        },
        ..env
    }
}

pub open spec fn s_push<N>(env: SEnv<N>) -> SEnv<N> {
    SEnv { frames: env.frames.push(Seq::empty()), ..env }
}

pub open spec fn s_pop<N>(env: SEnv<N>) -> SEnv<N> {
    if env.frames.len() > 1 {
        SEnv { frames: env.frames.drop_last(), ..env }
    } else {
        env
    }
}

/// A fresh environment: one empty scope, nothing defined, no output buffer,
/// no answers, nothing awaited.
pub open spec fn s_new<N>() -> SEnv<N> {
    SEnv {
        frames: seq![Seq::empty()],
        functions: Seq::empty(),
        classes: Seq::empty(),
        output: None,
        input: None,
        waiting: None,
    }
}

// ─── Lemmas on views ────────────────────────────────────────────────────────

pub proof fn lemma_sv_fields<N>(f: Seq<(String, Value<N>)>)
    ensures
        sv_fields(f).len() == f.len(),
        forall|i: int| 0 <= i < f.len() ==> #[trigger] sv_fields(f)[i] == (f[i].0@, sv(f[i].1)),
        keys_of(sv_fields(f)) == exec_keys(f),
    decreases f.len(),
{
    if f.len() > 0 {
        lemma_sv_fields(f.drop_last());
        assert forall|i: int| 0 <= i < f.len() implies #[trigger] sv_fields(f)[i] == (
            f[i].0@,
            sv(f[i].1),
        ) by {
            if i < f.len() - 1 {
                assert(f.drop_last()[i] == f[i]);
            }
        }
    }
    assert(keys_of(sv_fields(f)) =~= exec_keys(f));
}

pub proof fn lemma_frames_view<N>(fs: Seq<Vec<(String, Value<N>)>>)
    ensures
        frames_view(fs).len() == fs.len(),
        forall|i: int| 0 <= i < fs.len() ==> #[trigger] frames_view(fs)[i] == sv_fields(fs[i]@),
{
}

// ─── Environment methods ────────────────────────────────────────────────────

impl<N: Copy> Env<N> {
    pub fn new() -> (r: Self)
        ensures
            r@ == s_new::<N>(),
    {
        let mut frames: Vec<Vec<(String, Value<N>)>> = Vec::new();
        frames.push(Vec::new());
        let r = Env {
            frames,
            functions: Vec::new(),
            classes: Vec::new(),
            output_buffer: None,
            input: None,
            waiting: None,
        };
        proof {
            assert(r@.frames =~= seq![Seq::<(Seq<char>, SValue<N>)>::empty()]);
            assert(r@.functions =~= Seq::<(Seq<char>, SFunc<N>)>::empty());
            assert(r@.classes =~= Seq::<(Seq<char>, SClass<N>)>::empty());
        }
        r
    }

    /// The number of scopes.
    pub fn depth(&self) -> (r: usize)
        ensures
            r == self@.frames.len(),
    {
        self.frames.len()
    }

    pub fn push_frame(&mut self)
        ensures
            final(self)@ == s_push(old(self)@),
    {
        self.frames.push(Vec::new());
        proof {
            assert(final(self)@.frames =~= old(self)@.frames.push(Seq::empty()));
        }
    }

    pub fn pop_frame(&mut self)
        ensures
            final(self)@ == s_pop(old(self)@),
    {
        if self.frames.len() > 1 {
            self.frames.pop();
            proof {
                assert(final(self)@.frames =~= old(self)@.frames.drop_last());
            }
        }
    }

    /// The innermost frame (at or below `upto`) that binds `name`.
    fn holding(&self, name: &String) -> (r: Option<(usize, usize)>)
        ensures
            match r {
                Some((i, j)) => frame_holding(self@.frames, name@) == Some(i as int) && i
                    < self.frames@.len() && first_in(exec_keys(self.frames@[i as int]@), name@)
                    == Some(j as int),
                None => frame_holding(self@.frames, name@) is None,
            },
    {
        let ghost fs = self@.frames;
        let mut i: usize = self.frames.len();
        proof {
            lemma_frames_view(self.frames@);
            assert(fs.take(i as int) == fs);
        }
        while i > 0
            invariant
                i <= self.frames@.len(),
                fs == self@.frames,
                fs.len() == self.frames@.len(),
                forall|k: int| 0 <= k < fs.len() ==> #[trigger] fs[k] == sv_fields(self.frames@[k]@),
                frame_holding(fs, name@) == frame_holding(fs.take(i as int), name@),
            decreases i,
        {
            let found = find_key(&self.frames[i - 1], name);
            proof {
                lemma_sv_fields(self.frames@[i - 1]@);
                assert(fs.take(i as int).last() == fs[i - 1]);
                assert(fs.take(i as int).drop_last() == fs.take(i - 1));
            }
            match found {
                Some(j) => {
                    return Some((i - 1, j));
                },
                None => {},
            }
            i -= 1;
        }
        None
    }

    /// Look a variable up, from the innermost scope outwards.
    pub fn get(&self, name: &str) -> (r: Option<&Value<N>>)
        ensures
            match r {
                Some(v) => s_get(self@, name@) == Some(v@),
                None => s_get(self@, name@) is None,
            },
    {
        let key = String::from_str(name);
        match self.holding(&key) {
            Some((i, j)) => {
                proof {
                    lemma_frames_view(self.frames@);
                    lemma_sv_fields(self.frames@[i as int]@);
                    lemma_first_in(exec_keys(self.frames@[i as int]@), name@);
                }
                Some(&self.frames[i][j].1)
            },
            None => None,
        }
    }

    /// Update the variable in the innermost scope that has it, or create it in
    /// the innermost scope.
    pub fn set(&mut self, name: &str, value: Value<N>)
        ensures
            final(self)@ == s_set(old(self)@, name@, value@),
    {
        let key = String::from_str(name);
        match self.holding(&key) {
            Some((i, _)) => {
                self.set_in(i, key, value);
            },
            None => {
                if self.frames.len() == 0 {
                    self.frames.push(Vec::new());
                    proof {
                        lemma_frames_view(self.frames@);
                        assert(old(self)@.frames.len() == 0);
                    }
                    self.set_in(0, key, value);
                    proof {
                        assert(final(self)@.frames =~= seq![seq![(name@, value@)]]);
                    }
                } else {
                    let last = self.frames.len() - 1;
                    self.set_in(last, key, value);
                }
            },
        }
    }

    /// Create or update the variable in the innermost scope.
    pub fn set_local(&mut self, name: &str, value: Value<N>)
        ensures
            final(self)@ == s_set_local(old(self)@, name@, value@),
    {
        let key = String::from_str(name);
        if self.frames.len() == 0 {
            self.frames.push(Vec::new());
            self.set_in(0, key, value);
            proof {
                assert(final(self)@.frames =~= seq![seq![(name@, value@)]]);
            }
        } else {
            let last = self.frames.len() - 1;
            self.set_in(last, key, value);
        }
    }

    /// Insert into frame `i`.
    fn set_in(&mut self, i: usize, key: String, value: Value<N>)
        requires
            i < old(self).frames@.len(),
        ensures
            final(self)@ == (SEnv {
                frames: old(self)@.frames.update(
                    i as int,
                    insert(old(self)@.frames[i as int], key@, value@),
                ),
                ..old(self)@
            }),
    {
        proof {
            lemma_frames_view(old(self).frames@);
        }
        let mut frame: Vec<(String, Value<N>)> = Vec::new();
        self.frames.set_and_swap(i, &mut frame);
        let ghost kv = key@;
        let ghost vv = value@;
        fields_insert(&mut frame, key, value);
        self.frames.set(i, frame);
        proof {
            lemma_frames_view(self.frames@);
            assert(self@.frames =~= old(self)@.frames.update(
                i as int,
                insert(old(self)@.frames[i as int], kv, vv),
            ));
        }
    }

    /// Write a line into the buffer when there is one.
    pub fn emit_line(&mut self, line: String)
        ensures
            final(self)@ == s_emit(old(self)@, line@),
    {
        let ghost lv = line@;
        match &mut self.output_buffer {
            Some(buf) => {
                let ghost b0 = buf@;
                buf.push(line);
                proof {
                    lemma_views_push(b0, buf@.last());
                    assert(buf@ == b0.push(buf@.last()));
                }
            },
            None => {},
        }
    }

    /// A copy of the environment with the same view.
    pub fn duplicate(&self) -> (r: Self)
        ensures
            r@ == self@,
    {
        let mut frames: Vec<Vec<(String, Value<N>)>> = Vec::new();
        let mut i: usize = 0;
        while i < self.frames.len()
            invariant
                i <= self.frames@.len(),
                frames_view(frames@) == frames_view(self.frames@.take(i as int)),
            decreases self.frames@.len() - i,
        {
            let f = clone_fields(&self.frames[i]);
            proof {
                assert(self.frames@.take(i + 1) =~= self.frames@.take(i as int).push(self.frames@[i as int]));
                assert(frames_view(frames@.push(f)) =~= frames_view(frames@).push(frames_view(seq![f])[0]));
                assert(frames_view(self.frames@.take(i as int).push(self.frames@[i as int])) =~= frames_view(
                    self.frames@.take(i as int),
                ).push(frames_view(seq![self.frames@[i as int]])[0]));
            }
            frames.push(f);
            i += 1;
        }
        let mut functions: Vec<(String, (Vec<String>, Vec<Stmt<N>>))> = Vec::new();
        let mut j: usize = 0;
        while j < self.functions.len()
            invariant
                j <= self.functions@.len(),
                funcs_view(functions@) == funcs_view(self.functions@.take(j as int)),
            decreases self.functions@.len() - j,
        {
            let d = &self.functions[j];
            let e = (d.0.clone(), (clone_strings(&d.1.0), clone_stmts(&d.1.1)));
            proof {
                assert(self.functions@.take(j + 1) =~= self.functions@.take(j as int).push(self.functions@[j as int]));
                assert(funcs_view(functions@.push(e)) =~= funcs_view(functions@).push(funcs_view(seq![e])[0]));
                assert(funcs_view(self.functions@.take(j as int).push(self.functions@[j as int])) =~= funcs_view(
                    self.functions@.take(j as int),
                ).push(funcs_view(seq![self.functions@[j as int]])[0]));
            }
            functions.push(e);
            j += 1;
        }
        let mut classes: Vec<(String, (Vec<String>, Vec<(String, Vec<String>, Vec<Stmt<N>>)>))> =
            Vec::new();
        let mut k: usize = 0;
        while k < self.classes.len()
            invariant
                k <= self.classes@.len(),
                classes_view(classes@) == classes_view(self.classes@.take(k as int)),
            decreases self.classes@.len() - k,
        {
            let d = &self.classes[k];
            let e = (d.0.clone(), (clone_strings(&d.1.0), clone_methods(&d.1.1)));
            proof {
                assert(self.classes@.take(k + 1) =~= self.classes@.take(k as int).push(self.classes@[k as int]));
                assert(classes_view(classes@.push(e)) =~= classes_view(classes@).push(classes_view(seq![e])[0]));
                assert(classes_view(self.classes@.take(k as int).push(self.classes@[k as int])) =~= classes_view(
                    self.classes@.take(k as int),
                ).push(classes_view(seq![self.classes@[k as int]])[0]));
            }
            classes.push(e);
            k += 1;
        }
        let output_buffer = match &self.output_buffer {
            Some(b) => Some(clone_strings(b)),
            None => None,
        };
        let input = match &self.input {
            Some(b) => Some(clone_strings(b)),
            None => None,
        };
        let waiting = match &self.waiting {
            Some(p) => Some(p.clone()),
            None => None,
        };
        proof {
            assert(self.frames@.take(self.frames@.len() as int) =~= self.frames@);
            assert(self.functions@.take(self.functions@.len() as int) =~= self.functions@);
            assert(self.classes@.take(self.classes@.len() as int) =~= self.classes@);
        }
        Env { frames, functions, classes, output_buffer, input, waiting }
    }

    /// Give `ask` its answers, first to last (`None`: no answers, `ask` stores
    /// the empty text), and clear any awaited prompt.
    pub fn set_input(&mut self, answers: Option<Vec<String>>)
        ensures
            final(self)@ == (SEnv { input: out_view(answers), waiting: None, ..old(self)@ }),
    {
        self.input = answers;
        self.waiting = None;
    }

    /// The prompt of an `ask` that found no answer left.
    pub fn waiting(&self) -> (r: Option<String>)
        ensures
            opt_view(r) == self@.waiting,
    {
        match &self.waiting {
            Some(p) => Some(p.clone()),
            None => None,
        }
    }

    fn set_waiting(&mut self, prompt: String)
        ensures
            final(self)@ == (SEnv { waiting: Some(prompt@), ..old(self)@ }),
    {
        self.waiting = Some(prompt);
    }

    /// Take the next answer for `ask`.
    fn next_answer(&mut self) -> (r: Answer)
        ensures
            match old(self)@.input {
                None => r is NoInput && final(self)@ == old(self)@,
                Some(a) => if a.len() > 0 {
                    r == Answer::Text(r->Text_0) && r->Text_0@ == a[0] && final(self)@ == (SEnv {
                        input: Some(a.drop_first()),
                        ..old(self)@
                    })
                } else {
                    r is Missing && final(self)@ == old(self)@
                },
            },
    {
        match &mut self.input {
            None => Answer::NoInput,
            Some(v) => {
                if v.len() > 0 {
                    let ghost v0 = v@;
                    let a = v.remove(0);
                    proof {
                        assert(views(v@) =~= views(v0).drop_first());
                    }
                    Answer::Text(a)
                } else {
                    Answer::Missing
                }
            },
        }
    }

    /// Add a line to the buffer when there is one; without a buffer the line is dropped.
    pub fn record_line(&mut self, line: String)
        ensures
            final(self)@ == s_emit(old(self)@, line@),
    {
        match &mut self.output_buffer {
            Some(buf) => {
                let ghost b0 = buf@;
                buf.push(line);
                proof {
                    lemma_views_push(b0, buf@.last());
                    assert(buf@ == b0.push(buf@.last()));
                }
            },
            None => {},
        }
    }

    /// Replace the output buffer.
    pub fn set_output(&mut self, buf: Option<Vec<String>>)
        ensures
            final(self)@ == (SEnv { output: out_view(buf), ..old(self)@ }),
    {
        self.output_buffer = buf;
    }

    /// Take the output buffer out, leaving none.
    pub fn take_output(&mut self) -> (r: Option<Vec<String>>)
        ensures
            out_view(r) == old(self)@.output,
            final(self)@ == (SEnv { output: None, ..old(self)@ }),
    {
        self.output_buffer.take()
    }

    fn define_function(&mut self, name: String, params: Vec<String>, body: Vec<Stmt<N>>)
        ensures
            final(self)@ == (SEnv {
                functions: insert(old(self)@.functions, name@, (views(params@), ss_list(body@))),
                ..old(self)@
            }),
    {
        let ghost f0 = self.functions@;
        let ghost nv = name@;
        let ghost d = (views(params@), ss_list(body@));
        proof {
            assert(keys_of(funcs_view(f0)) =~= exec_keys(f0));
            lemma_first_in(exec_keys(f0), nv);
        }
        match find_key(&self.functions, &name) {
            Some(j) => {
                self.functions.set(j, (name, (params, body)));
                proof {
                    assert(funcs_view(self.functions@) =~= funcs_view(f0).update(j as int, (nv, d)));
                }
            },
            None => {
                self.functions.push((name, (params, body)));
                proof {
                    assert(funcs_view(self.functions@) =~= funcs_view(f0).push((nv, d)));
                }
            },
        }
    }

    fn define_class(
        &mut self,
        name: String,
        fields: Vec<String>,
        methods: Vec<(String, Vec<String>, Vec<Stmt<N>>)>,
    )
        ensures
            final(self)@ == (SEnv {
                classes: insert(old(self)@.classes, name@, (views(fields@), ss_methods(methods@))),
                ..old(self)@
            }),
    {
        let ghost c0 = self.classes@;
        let ghost nv = name@;
        let ghost d = (views(fields@), ss_methods(methods@));
        proof {
            assert(keys_of(classes_view(c0)) =~= exec_keys(c0));
            lemma_first_in(exec_keys(c0), nv);
        }
        match find_key(&self.classes, &name) {
            Some(j) => {
                self.classes.set(j, (name, (fields, methods)));
                proof {
                    assert(classes_view(self.classes@) =~= classes_view(c0).update(j as int, (nv, d)));
                }
            },
            None => {
                self.classes.push((name, (fields, methods)));
                proof {
                    assert(classes_view(self.classes@) =~= classes_view(c0).push((nv, d)));
                }
            },
        }
    }

    /// A copy of the definition of function `name`.
    fn function(&self, name: &String) -> (r: Option<(Vec<String>, Vec<Stmt<N>>)>)
        ensures
            match r {
                Some(d) => lookup(self@.functions, name@) == Some((views(d.0@), ss_list(d.1@))),
                None => lookup(self@.functions, name@) is None,
            },
    {
        proof {
            assert(keys_of(funcs_view(self.functions@)) =~= exec_keys(self.functions@));
        }
        match find_key(&self.functions, name) {
            Some(j) => {
                proof {
                    lemma_first_in(exec_keys(self.functions@), name@);
                }
                Some((clone_strings(&self.functions[j].1.0), clone_stmts(&self.functions[j].1.1)))
            },
            None => None,
        }
    }

    /// A copy of the definition of class `name`.
    fn class(&self, name: &String) -> (r: Option<(Vec<String>, Vec<(String, Vec<String>, Vec<Stmt<N>>)>)>)
        ensures
            match r {
                Some(d) => lookup(self@.classes, name@) == Some((views(d.0@), ss_methods(d.1@))),
                None => lookup(self@.classes, name@) is None,
            },
    {
        proof {
            assert(keys_of(classes_view(self.classes@)) =~= exec_keys(self.classes@));
        }
        match find_key(&self.classes, name) {
            Some(j) => {
                proof {
                    lemma_first_in(exec_keys(self.classes@), name@);
                }
                Some((clone_strings(&self.classes[j].1.0), clone_methods(&self.classes[j].1.1)))
            },
            None => None,
        }
    }
}

/// Insert a field (or any named value) into an association list.
pub fn fields_insert<N>(fs: &mut Vec<(String, Value<N>)>, key: String, value: Value<N>)
    ensures
        sv_fields(final(fs)@) == insert(sv_fields(old(fs)@), key@, value@),
{
    let ghost f0 = fs@;
    let ghost kv = key@;
    let ghost vv = value@;
    proof {
        lemma_sv_fields(f0);
        lemma_first_in(exec_keys(f0), kv);
    }
    match find_key(fs, &key) {
        Some(j) => {
            fs.set(j, (key, value));
            proof {
                lemma_sv_fields(fs@);
                assert(sv_fields(fs@) =~= sv_fields(f0).update(j as int, (kv, vv)));
            }
        },
        None => {
            fs.push((key, value));
            proof {
                lemma_sv_fields_push(f0, fs@.last());
                assert(fs@ == f0.push(fs@.last()));
            }
        },
    }
}

// ─── Results on views ───────────────────────────────────────────────────────

pub open spec fn rv_val<N>(r: Result<Value<N>, String>) -> SRes<SValue<N>> {
    match r {
        Ok(v) => Ok(v@),
        Err(e) => Err(e@),
    }
}

pub open spec fn rv_num<N>(r: Result<N, String>) -> SRes<N> {
    match r {
        Ok(n) => Ok(n),
        Err(e) => Err(e@),
    }
}

pub open spec fn rv_bool(r: Result<bool, String>) -> SRes<bool> {
    match r {
        Ok(b) => Ok(b),
        Err(e) => Err(e@),
    }
}

// ─── Values ─────────────────────────────────────────────────────────────────

/// The text of a value, as `say` shows it.
pub fn value_to_string<N: Copy, H: Fn(Query<N>) -> Reply<N>>(v: &Value<N>, h: &H) -> (r: String)
    requires
        host_ok(*h),
    ensures
        r@ == s_str(oracle(*h), v@),
    decreases v,
{
    let ghost o = oracle(*h);
    match v {
        Value::Str(s) => s.clone(),
        Value::Num(n) => host_format(h, *n),
        Value::Bool(b) => if *b {
            lit("true")
        } else {
            lit("false")
        },
        Value::List(items) => {
            let mut parts: Vec<String> = Vec::new();
            let mut i: usize = 0;
            while i < items.len()
                invariant
                    host_ok(*h),
                    o == oracle(*h),
                    i <= items@.len(),
                    *v == Value::List(*items),
                    views(parts@) == s_strs(o, sv_list(items@.take(i as int))),
                decreases items@.len() - i,
            {
                proof {
                    assert(decreases_to!(*items => items[i as int]));
                    assert(decreases_to!(*v => v->List_0));
                }
                let t = value_to_string(&items[i], h);
                proof {
                    lemma_views_push(parts@, t);
                    lemma_sv_list_push(items@.take(i as int), items@[i as int]);
                    lemma_s_strs_push(o, sv_list(items@.take(i as int)), sv(items@[i as int]));
                    assert(items@.take(i as int + 1) == items@.take(i as int).push(items@[i as int]));
                }
                parts.push(t);
                i += 1;
            }
            proof {
                assert(items@.take(items@.len() as int) == items@);
            }
            let j = join_strings(&parts, ", ");
            concat3("[", &j, "]")
        },
        Value::Nil => lit("nothing"),
        Value::Object(c, fields) => {
            let mut pairs: Vec<String> = Vec::new();
            let mut i: usize = 0;
            while i < fields.len()
                invariant
                    host_ok(*h),
                    o == oracle(*h),
                    i <= fields@.len(),
                    *v == Value::Object(*c, *fields),
                    views(pairs@) == s_pairs(o, sv_fields(fields@.take(i as int))),
                decreases fields@.len() - i,
            {
                proof {
                    assert(decreases_to!(*fields => fields[i as int]));
                    assert(decreases_to!(fields[i as int] => fields[i as int].1));
                    assert(decreases_to!(*v => v->Object_1));
                }
                let t = value_to_string(&fields[i].1, h);
                let mut p = fields[i].0.clone();
                p.append(": ");
                p.append(t.as_str());
                proof {
                    lemma_views_push(pairs@, p);
                    lemma_sv_fields_push(fields@.take(i as int), fields@[i as int]);
                    lemma_s_pairs_push(
                        o,
                        sv_fields(fields@.take(i as int)),
                        (fields@[i as int].0@, sv(fields@[i as int].1)),
                    );
                    assert(fields@.take(i as int + 1) == fields@.take(i as int).push(
                        fields@[i as int],
                    ));
                }
                pairs.push(p);
                i += 1;
            }
            proof {
                assert(fields@.take(fields@.len() as int) == fields@);
            }
            let sorted = sort_strings(&pairs);
            let j = join_strings(&sorted, ", ");
            let mut r = c.clone();
            r.append("(");
            r.append(j.as_str());
            r.append(")");
            r
        },
    }
}

/// Structural equality of values, with numbers compared by the host.
fn deq<N: Copy, H: Fn(Query<N>) -> Reply<N>>(a: &Value<N>, b: &Value<N>, h: &H) -> (r: bool)
    requires
        host_ok(*h),
    ensures
        r == s_deq(oracle(*h), a@, b@),
    decreases a,
{
    let ghost o = oracle(*h);
    match (a, b) {
        (Value::Str(x), Value::Str(y)) => *x == *y,
        (Value::Num(x), Value::Num(y)) => host_relation(h, NumRel::Eq, *x, *y),
        (Value::Bool(x), Value::Bool(y)) => *x == *y,
        (Value::List(x), Value::List(y)) => {
            proof {
                lemma_sv_list(x@);
                lemma_sv_list(y@);
            }
            if x.len() != y.len() {
                return false;
            }
            proof {
                lemma_list_deq(o, sv_list(x@), sv_list(y@));
            }
            let mut i: usize = 0;
            while i < x.len()
                invariant
                    host_ok(*h),
                    o == oracle(*h),
                    i <= x@.len(),
                    x@.len() == y@.len(),
                    *a == Value::List(*x),
                    *b == Value::List(*y),
                    sv_list(x@).len() == x@.len(),
                    sv_list(y@).len() == y@.len(),
                    forall|k: int| 0 <= k < x@.len() ==> #[trigger] sv_list(x@)[k] == sv(x@[k]),
                    forall|k: int| 0 <= k < y@.len() ==> #[trigger] sv_list(y@)[k] == sv(y@[k]),
                    s_list_deq(o, sv_list(x@), sv_list(y@)) <==> forall|k: int|
                        0 <= k < x@.len() ==> s_deq(o, sv_list(x@)[k], #[trigger] sv_list(y@)[k]),
                    forall|k: int| 0 <= k < i ==> s_deq(o, sv_list(x@)[k], #[trigger] sv_list(y@)[k]),
                decreases x@.len() - i,
            {
                proof {
                    assert(decreases_to!(*x => x[i as int]));
                    assert(decreases_to!(*a => a->List_0));
                }
                if !deq(&x[i], &y[i], h) {
                    proof {
                        assert(sv_list(x@)[i as int] == sv(x@[i as int]));
                        assert(sv_list(y@)[i as int] == sv(y@[i as int]));
                    }
                    return false;
                }
                proof {
                    assert(sv_list(x@)[i as int] == sv(x@[i as int]));
                    assert(sv_list(y@)[i as int] == sv(y@[i as int]));
                }
                i += 1;
            }
            true
        },
        (Value::Object(ca, fa), Value::Object(cb, fb)) => {
            if *ca != *cb {
                return false;
            }
            proof {
                assert(decreases_to!(*a => a->Object_1));
            }
            fields_eq(fa, fb, h)
        },
        (Value::Nil, Value::Nil) => true,
        _ => false,
    }
}

/// Map equality of two field lists.
fn fields_eq<N: Copy, H: Fn(Query<N>) -> Reply<N>>(
    fa: &Vec<(String, Value<N>)>,
    fb: &Vec<(String, Value<N>)>,
    h: &H,
) -> (r: bool)
    requires
        host_ok(*h),
    ensures
        r == s_fields_eq(oracle(*h), sv_fields(fa@), sv_fields(fb@)),
    decreases fa,
{
    let ghost o = oracle(*h);
    proof {
        lemma_sv_fields(fa@);
        lemma_sv_fields(fb@);
    }
    if fa.len() != fb.len() {
        return false;
    }
    proof {
        lemma_fields_all(o, sv_fields(fa@), sv_fields(fb@));
    }
    let mut i: usize = 0;
    while i < fa.len()
        invariant
            host_ok(*h),
            o == oracle(*h),
            i <= fa@.len(),
            fa@.len() == fb@.len(),
            sv_fields(fa@).len() == fa@.len(),
            sv_fields(fb@).len() == fb@.len(),
            forall|k: int| 0 <= k < fa@.len() ==> #[trigger] sv_fields(fa@)[k] == (fa@[k].0@, sv(fa@[k].1)),
            forall|k: int| 0 <= k < fb@.len() ==> #[trigger] sv_fields(fb@)[k] == (fb@[k].0@, sv(fb@[k].1)),
            keys_of(sv_fields(fb@)) == exec_keys(fb@),
            s_fields_all(o, sv_fields(fa@), sv_fields(fb@)) <==> forall|k: int|
                0 <= k < fa@.len() ==> field_ok(o, #[trigger] sv_fields(fa@)[k], sv_fields(fb@)),
            forall|k: int| 0 <= k < i ==> field_ok(o, #[trigger] sv_fields(fa@)[k], sv_fields(fb@)),
        decreases fa@.len() - i,
    {
        let j = find_key(fb, &fa[i].0);
        proof {
            assert(sv_fields(fa@)[i as int] == (fa@[i as int].0@, sv(fa@[i as int].1)));
            lemma_first_in(exec_keys(fb@), fa@[i as int].0@);
        }
        match j {
            None => {
                return false;
            },
            Some(j) => {
                proof {
                    assert(decreases_to!(*fa => fa[i as int]));
                    assert(decreases_to!(fa[i as int] => fa[i as int].1));
                }
                if !deq(&fa[i].1, &fb[j].1, h) {
                    return false;
                }
            },
        }
        i += 1;
    }
    true
}

/// The language's `is`.
fn values_equal<N: Copy, H: Fn(Query<N>) -> Reply<N>>(a: &Value<N>, b: &Value<N>, h: &H) -> (r: bool)
    requires
        host_ok(*h),
    ensures
        r == s_values_equal(oracle(*h), a@, b@),
{
    match (a, b) {
        (Value::Num(x), Value::Num(y)) => host_relation(h, NumRel::Eq, *x, *y),
        (Value::Bool(x), Value::Bool(y)) => *x == *y,
        (Value::Nil, Value::Nil) => true,
        (Value::Str(x), Value::Str(y)) => to_lower(x.as_str()) == to_lower(y.as_str()),
        (Value::Object(ca, fa), Value::Object(cb, fb)) => *ca == *cb && fields_eq(fa, fb, h),
        _ => {
            let sa = value_to_string(a, h);
            let sb = value_to_string(b, h);
            to_lower(sa.as_str()) == to_lower(sb.as_str())
        },
    }
}

fn is_truthy<N: Copy, H: Fn(Query<N>) -> Reply<N>>(v: &Value<N>, h: &H) -> (r: bool)
    requires
        host_ok(*h),
    ensures
        r == s_truthy(oracle(*h), v@),
{
    match v {
        Value::Bool(b) => *b,
        Value::Nil => false,
        Value::Num(n) => !host_is_zero(h, *n),
        Value::Str(s) => s.as_str().unicode_len() > 0,
        Value::List(l) => {
            proof {
                lemma_sv_list(l@);
            }
            l.len() > 0
        },
        Value::Object(_, _) => true,
    }
}

fn to_num<N: Copy, H: Fn(Query<N>) -> Reply<N>>(v: &Value<N>, ctx: &str, h: &H) -> (r: Result<N, String>)
    requires
        host_ok(*h),
    ensures
        rv_num(r) == s_to_num(oracle(*h), v@, ctx@),
{
    match v {
        Value::Num(n) => Ok(*n),
        Value::Str(s) => match host_parse(h, s) {
            Some(n) => Ok(n),
            None => {
                let mut m = String::from_str("OrimaLang Error: expected number in ");
                m.append(ctx);
                m.append(", got '");
                m.append(s.as_str());
                m.append("'");
                Err(m)
            },
        },
        Value::Bool(b) => host_count(h, if *b { 1 } else { 0 }),
        _ => {
            let mut m = String::from_str("OrimaLang Error: expected number in ");
            m.append(ctx);
            Err(m)
        },
    }
}

fn eval_comparison<N: Copy, H: Fn(Query<N>) -> Reply<N>>(
    left: &Value<N>,
    comparison: Comparison,
    right: &Value<N>,
    h: &H,
) -> (r: Result<bool, String>)
    requires
        host_ok(*h),
    ensures
        rv_bool(r) == s_compare(oracle(*h), left@, comparison, right@),
{
    match comparison {
        Comparison::Is => Ok(values_equal(left, right, h)),
        Comparison::IsNot => Ok(!values_equal(left, right, h)),
        Comparison::Contains => {
            let a = to_lower(value_to_string(left, h).as_str());
            let b = to_lower(value_to_string(right, h).as_str());
            Ok(text_contains(&a, &b))
        },
        Comparison::StartsWith => {
            let a = to_lower(value_to_string(left, h).as_str());
            let b = to_lower(value_to_string(right, h).as_str());
            Ok(text_starts_with(&a, &b))
        },
        Comparison::EndsWith => {
            let a = to_lower(value_to_string(left, h).as_str());
            let b = to_lower(value_to_string(right, h).as_str());
            Ok(text_ends_with(&a, &b))
        },
        _ => {
            let a = to_num(left, "comparison", h)?;
            let b = to_num(right, "comparison", h)?;
            let c = match comparison {
                Comparison::GreaterThan => NumRel::Gt,
                Comparison::LessThan => NumRel::Lt,
                Comparison::AtLeast => NumRel::Ge,
                _ => NumRel::Le,
            };
            Ok(host_relation(h, c, a, b))
        },
    }
}


// ─── Expressions ────────────────────────────────────────────────────────────

fn quote(pre: &str, name: &String, post: &str) -> (r: String)
    ensures
        r@ == quoted(pre@, name@, post@),
{
    concat3(pre, name, post)
}

fn out_of_range_text(idx: usize, name: &String) -> (r: String)
    ensures
        r@ == out_of_range(idx, name@),
{
    let mut m = String::from_str("OrimaLang Error: index ");
    let d = usize_to_string(idx);
    m.append(d.as_str());
    m.append(" out of range for list '");
    m.append(name.as_str());
    m.append("'");
    m
}

fn item_from<N: Copy>(env: &Env<N>, idx: usize, list: &String) -> (r: Result<Value<N>, String>)
    ensures
        rv_val(r) == s_item(env@, idx, list@),
{
    match env.get(list.as_str()) {
        None => Err(quote("OrimaLang Error: undefined list '", list, "'")),
        Some(Value::List(items)) => {
            proof {
                lemma_sv_list(items@);
            }
            if idx < 1 || idx > items.len() {
                Err(out_of_range_text(idx, list))
            } else {
                Ok(clone_value(&items[idx - 1]))
            }
        },
        Some(_) => Err(quote("OrimaLang Error: '", list, "' is not a list")),
    }
}

fn num_val_exec<N>(r: Result<N, String>) -> (v: Result<Value<N>, String>)
    ensures
        rv_val(v) == num_val(rv_num(r)),
{
    match r {
        Ok(n) => Ok(Value::Num(n)),
        Err(e) => Err(e),
    }
}

fn num_op<N: Copy, H: Fn(Query<N>) -> Reply<N>>(
    a: &Value<N>,
    b: &Value<N>,
    op: Op,
    ctx: &str,
    h: &H,
) -> (r: Result<Value<N>, String>)
    requires
        host_ok(*h),
    ensures
        rv_val(r) == s_num_op(oracle(*h), a@, b@, op, ctx@),
{
    let x = match to_num(a, ctx, h) {
        Ok(x) => x,
        Err(e) => return Err(e),
    };
    let y = match to_num(b, ctx, h) {
        Ok(y) => y,
        Err(e) => return Err(e),
    };
    num_val_exec(host_arith(h, op, x, y))
}

fn binary<N: Copy, H: Fn(Query<N>) -> Reply<N>>(l: &Value<N>, op: Op, r: &Value<N>, h: &H) -> (res: Result<
    Value<N>,
    String,
>)
    requires
        host_ok(*h),
    ensures
        rv_val(res) == s_binary(oracle(*h), l@, op, r@),
{
    match op {
        Op::Plus => match (l, r) {
            (Value::Num(a), Value::Num(b)) => num_val_exec(host_arith(h, Op::Plus, *a, *b)),
            _ => {
                let a = value_to_string(l, h);
                let b = value_to_string(r, h);
                Ok(Value::Str(concat(&a, &b)))
            },
        },
        Op::Minus => num_op(l, r, Op::Minus, "subtraction", h),
        Op::Times => num_op(l, r, Op::Times, "multiplication", h),
        Op::DividedBy => {
            let a = match to_num(l, "division", h) {
                Ok(a) => a,
                Err(e) => return Err(e),
            };
            let b = match to_num(r, "division", h) {
                Ok(b) => b,
                Err(e) => return Err(e),
            };
            if host_is_zero(h, b) {
                return Err(lit("OrimaLang Error: division by zero"));
            }
            num_val_exec(host_arith(h, Op::DividedBy, a, b))
        },
        Op::Remainder => {
            let a = match to_num(l, "remainder", h) {
                Ok(a) => a,
                Err(e) => return Err(e),
            };
            let b = match to_num(r, "remainder", h) {
                Ok(b) => b,
                Err(e) => return Err(e),
            };
            if host_is_zero(h, b) {
                return Err(lit("OrimaLang Error: division by zero in remainder"));
            }
            num_val_exec(host_arith(h, Op::Remainder, a, b))
        },
    }
}

/// The value of an expression in `env`, which it leaves as it is.
pub fn eval_expr<N: Copy, H: Fn(Query<N>) -> Reply<N>>(expr: &Expr<N>, env: &mut Env<N>, h: &H) -> (r: Result<
    Value<N>,
    String,
>)
    requires
        host_ok(*h),
    ensures
        rv_val(r) == s_expr(oracle(*h), expr@, old(env)@),
        final(env)@ == old(env)@,
{
    eval_in(expr, env, h)
}

fn eval_in<N: Copy, H: Fn(Query<N>) -> Reply<N>>(e: &Expr<N>, env: &Env<N>, h: &H) -> (r: Result<
    Value<N>,
    String,
>)
    requires
        host_ok(*h),
    ensures
        rv_val(r) == s_expr(oracle(*h), e@, env@),
    decreases e,
{
    let ghost o = oracle(*h);
    match e {
        Expr::Literal(v) => Ok(clone_value(v)),
        Expr::Variable(name) => match env.get(name.as_str()) {
            Some(v) => Ok(clone_value(v)),
            None => {
                let mut m = String::from_str("OrimaLang Error: undefined variable '");
                m.append(name.as_str());
                m.append("' - did you mean to quote it as \"");
                m.append(name.as_str());
                m.append("\"?");
                Err(m)
            },
        },
        Expr::BinaryOp(l, op, r) => {
            let lv = match eval_in(l, env, h) {
                Ok(v) => v,
                Err(e) => return Err(e),
            };
            let rv = match eval_in(r, env, h) {
                Ok(v) => v,
                Err(e) => return Err(e),
            };
            binary(&lv, *op, &rv, h)
        },
        Expr::Condition(l, c, r) => {
            let lv = match eval_in(l, env, h) {
                Ok(v) => v,
                Err(e) => return Err(e),
            };
            let rv = match eval_in(r, env, h) {
                Ok(v) => v,
                Err(e) => return Err(e),
            };
            match eval_comparison(&lv, *c, &rv, h) {
                Ok(b) => Ok(Value::Bool(b)),
                Err(e) => Err(e),
            }
        },
        Expr::LogicalOp(l, op, r) => {
            let lv = match eval_in(l, env, h) {
                Ok(v) => v,
                Err(e) => return Err(e),
            };
            match op {
                LogicOp::And => {
                    if !is_truthy(&lv, h) {
                        return Ok(Value::Bool(false));
                    }
                    let rv = match eval_in(r, env, h) {
                        Ok(v) => v,
                        Err(e) => return Err(e),
                    };
                    Ok(Value::Bool(is_truthy(&rv, h)))
                },
                LogicOp::Or => {
                    if is_truthy(&lv, h) {
                        return Ok(Value::Bool(true));
                    }
                    let rv = match eval_in(r, env, h) {
                        Ok(v) => v,
                        Err(e) => return Err(e),
                    };
                    Ok(Value::Bool(is_truthy(&rv, h)))
                },
            }
        },
        Expr::Not(x) => {
            let v = match eval_in(x, env, h) {
                Ok(v) => v,
                Err(e) => return Err(e),
            };
            Ok(Value::Bool(!is_truthy(&v, h)))
        },
        Expr::ItemFrom(x, list) => {
            let iv = match eval_in(x, env, h) {
                Ok(v) => v,
                Err(e) => return Err(e),
            };
            let n = match to_num(&iv, "list index", h) {
                Ok(n) => n,
                Err(e) => return Err(e),
            };
            let idx = host_to_index(h, n);
            item_from(env, idx, list)
        },
        Expr::SizeOf(name) => match env.get(name.as_str()) {
            None => Err(quote("OrimaLang Error: undefined variable '", name, "'")),
            Some(Value::List(items)) => {
                proof {
                    lemma_sv_list(items@);
                }
                num_val_exec(host_count(h, items.len()))
            },
            Some(_) => Err(quote("OrimaLang Error: '", name, "' is not a list")),
        },
        Expr::LengthOf(name) => match env.get(name.as_str()) {
            None => Err(quote("OrimaLang Error: undefined variable '", name, "'")),
            Some(v) => {
                let s = value_to_string(v, h);
                num_val_exec(host_count(h, s.as_str().unicode_len()))
            },
        },
        Expr::JoinedWith(l, r) => {
            let lv = match eval_in(l, env, h) {
                Ok(v) => v,
                Err(e) => return Err(e),
            };
            let rv = match eval_in(r, env, h) {
                Ok(v) => v,
                Err(e) => return Err(e),
            };
            let a = value_to_string(&lv, h);
            let b = value_to_string(&rv, h);
            Ok(Value::Str(concat(&a, &b)))
        },
        Expr::InUppercase(x) => {
            let v = match eval_in(x, env, h) {
                Ok(v) => v,
                Err(e) => return Err(e),
            };
            Ok(Value::Str(to_upper(value_to_string(&v, h).as_str())))
        },
        Expr::InLowercase(x) => {
            let v = match eval_in(x, env, h) {
                Ok(v) => v,
                Err(e) => return Err(e),
            };
            Ok(Value::Str(to_lower(value_to_string(&v, h).as_str())))
        },
        Expr::Concat(parts) => {
            let ghost ps = se_list(parts@);
            proof {
                lemma_se_list(parts@);
            }
            let mut out = String::new();
            let mut i: usize = 0;
            while i < parts.len()
                invariant
                    host_ok(*h),
                    o == oracle(*h),
                    i <= parts@.len(),
                    *e == Expr::Concat(*parts),
                    ps == se_list(parts@),
                    ps.len() == parts@.len(),
                    forall|k: int| 0 <= k < parts@.len() ==> #[trigger] ps[k] == se(parts@[k]),
                    s_concat(o, ps, 0, Seq::empty(), env@) == s_concat(o, ps, i as int, out@, env@),
                decreases parts@.len() - i,
            {
                proof {
                    assert(decreases_to!(*parts => parts[i as int]));
                    assert(decreases_to!(*e => e->Concat_0));
                }
                let v = match eval_in(&parts[i], env, h) {
                    Ok(v) => v,
                    Err(e) => return Err(e),
                };
                let t = value_to_string(&v, h);
                out.append(t.as_str());
                i += 1;
            }
            Ok(Value::Str(out))
        },
        Expr::GetField(obj, field) => match env.get(obj.as_str()) {
            None => Err(quote("OrimaLang Error: undefined variable '", obj, "'")),
            Some(Value::Object(_, fields)) => {
                let k = field.clone();
                proof {
                    lemma_sv_fields(fields@);
                    lemma_first_in(exec_keys(fields@), k@);
                }
                match find_key(fields, &k) {
                    Some(j) => Ok(clone_value(&fields[j].1)),
                    None => Ok(Value::Nil),
                }
            },
            Some(_) => Err(quote("OrimaLang Error: '", obj, "' is not an object")),
        },
    }
}


// ─── Statements ─────────────────────────────────────────────────────────────

pub open spec fn rv_sig<N>(r: Result<Signal<N>, String>) -> SRes<SSignal<N>> {
    match r {
        Ok(s) => Ok(s@),
        Err(e) => Err(e@),
    }
}

pub open spec fn rv_texts(r: Result<Vec<String>, String>) -> SRes<Seq<Seq<char>>> {
    match r {
        Ok(v) => Ok(views(v@)),
        Err(e) => Err(e@),
    }
}

pub open spec fn rv_vals<N>(r: Result<Vec<Value<N>>, String>) -> SRes<Seq<SValue<N>>> {
    match r {
        Ok(v) => Ok(sv_list(v@)),
        Err(e) => Err(e@),
    }
}

/// The texts of the parts of a `say`.
fn say_parts<N: Copy, H: Fn(Query<N>) -> Reply<N>>(parts: &Vec<Expr<N>>, env: &Env<N>, h: &H) -> (r: Result<
    Vec<String>,
    String,
>)
    requires
        host_ok(*h),
    ensures
        rv_texts(r) == s_say_parts(oracle(*h), se_list(parts@), 0, Seq::empty(), env@),
{
    let ghost o = oracle(*h);
    let ghost ps = se_list(parts@);
    proof {
        lemma_se_list(parts@);
    }
    let mut out: Vec<String> = Vec::new();
    proof {
        assert(views(out@) =~= Seq::<Seq<char>>::empty());
    }
    let mut i: usize = 0;
    while i < parts.len()
        invariant
            host_ok(*h),
            o == oracle(*h),
            i <= parts@.len(),
            ps == se_list(parts@),
            ps.len() == parts@.len(),
            forall|k: int| 0 <= k < parts@.len() ==> #[trigger] ps[k] == se(parts@[k]),
            s_say_parts(o, ps, 0, Seq::empty(), env@) == s_say_parts(o, ps, i as int, views(out@), env@),
        decreases parts@.len() - i,
    {
        let v = match eval_in(&parts[i], env, h) {
            Ok(v) => v,
            Err(e) => return Err(e),
        };
        let t = value_to_string(&v, h);
        proof {
            lemma_views_push(out@, t);
        }
        out.push(t);
        i += 1;
    }
    Ok(out)
}

/// The values of a call's arguments.
fn eval_args<N: Copy, H: Fn(Query<N>) -> Reply<N>>(args: &Vec<Expr<N>>, env: &Env<N>, h: &H) -> (r: Result<
    Vec<Value<N>>,
    String,
>)
    requires
        host_ok(*h),
    ensures
        rv_vals(r) == s_args(oracle(*h), se_list(args@), 0, Seq::empty(), env@),
{
    let ghost o = oracle(*h);
    let ghost ps = se_list(args@);
    proof {
        lemma_se_list(args@);
    }
    let mut out: Vec<Value<N>> = Vec::new();
    proof {
        assert(sv_list(out@) =~= Seq::<SValue<N>>::empty());
    }
    let mut i: usize = 0;
    while i < args.len()
        invariant
            host_ok(*h),
            o == oracle(*h),
            i <= args@.len(),
            ps == se_list(args@),
            ps.len() == args@.len(),
            forall|k: int| 0 <= k < args@.len() ==> #[trigger] ps[k] == se(args@[k]),
            s_args(o, ps, 0, Seq::empty(), env@) == s_args(o, ps, i as int, sv_list(out@), env@),
        decreases args@.len() - i,
    {
        let v = match eval_in(&args[i], env, h) {
            Ok(v) => v,
            Err(e) => return Err(e),
        };
        proof {
            lemma_sv_list_push(out@, v);
        }
        out.push(v);
        i += 1;
    }
    Ok(out)
}

fn limit_text() -> (r: String)
    ensures
        r@ == limit_msg(),
{
    lit("OrimaLang Error: evaluation limit reached")
}

/// `increase`, `decrease`, `multiply`, `divide`.
fn arith_stmt<N: Copy, H: Fn(Query<N>) -> Reply<N>>(
    name: &String,
    e: &Expr<N>,
    op: Op,
    ctx: &str,
    env: &mut Env<N>,
    h: &H,
) -> (r: Result<Signal<N>, String>)
    requires
        host_ok(*h),
    ensures
        (rv_sig(r), final(env)@) == s_arith_stmt(oracle(*h), name@, e@, op, ctx@, old(env)@),
{
    let delta = match eval_in(e, env, h) {
        Ok(v) => v,
        Err(err) => return Err(err),
    };
    let current = match env.get(name.as_str()) {
        Some(v) => clone_value(v),
        None => match host_count(h, 0) {
            Ok(z) => Value::Num(z),
            Err(err) => return Err(err),
        },
    };
    let v = match num_op(&current, &delta, op, ctx, h) {
        Ok(v) => v,
        Err(err) => return Err(err),
    };
    env.set(name.as_str(), v);
    Ok(Signal::Normal)
}

proof fn lemma_s_retain_push<N>(o: Oracle<N>, t: Seq<SValue<N>>, x: SValue<N>, target: Seq<char>)
    ensures
        s_retain(o, t.push(x), target) == if s_str(o, x) != target {
            s_retain(o, t, target).push(x)
        } else {
            s_retain(o, t, target)
        },
{
    assert(t.push(x).drop_last() == t);
}

proof fn lemma_sv_list_remove<N>(s: Seq<Value<N>>, k: int)
    requires
        0 <= k < s.len(),
    ensures
        sv_list(s.remove(k)) == sv_list(s).remove(k),
{
    lemma_sv_list(s);
    lemma_sv_list(s.remove(k));
    assert(sv_list(s.remove(k)) =~= sv_list(s).remove(k));
}

fn exec_say<N: Copy, H: Fn(Query<N>) -> Reply<N>>(parts: &Vec<Expr<N>>, env: &mut Env<N>, h: &H) -> (r: Result<Signal<N>, String>)
    requires
        host_ok(*h),
    ensures
        (rv_sig(r), final(env)@) == s_say(oracle(*h), se_list(parts@), old(env)@),
{
    let pieces = match say_parts(parts, env, h) {
        Ok(p) => p,
        Err(e) => return Err(e),
    };
    let line = join_strings(&pieces, " ");
    env.emit_line(line);
    Ok(Signal::Normal)
}

fn exec_assign<N: Copy, H: Fn(Query<N>) -> Reply<N>>(name: &String, e: &Expr<N>, env: &mut Env<N>, h: &H) -> (r: Result<Signal<N>, String>)
    requires
        host_ok(*h),
    ensures
        (rv_sig(r), final(env)@) == s_assign(oracle(*h), name@, e@, old(env)@),
{
    let v = match eval_in(e, env, h) {
        Ok(v) => v,
        Err(e) => return Err(e),
    };
    env.set(name.as_str(), v);
    Ok(Signal::Normal)
}

fn add_to_list<N: Copy, H: Fn(Query<N>) -> Reply<N>>(e: &Expr<N>, list: &String, env: &mut Env<N>, h: &H) -> (r: Result<Signal<N>, String>)
    requires
        host_ok(*h),
    ensures
        (rv_sig(r), final(env)@) == s_add(oracle(*h), e@, list@, old(env)@),
{
    let v = match eval_in(e, env, h) {
        Ok(v) => v,
        Err(e) => return Err(e),
    };
    let lv = match env.get(list.as_str()) {
        Some(x) => clone_value(x),
        None => return Err(quote("OrimaLang Error: undefined list '", list, "'")),
    };
    match lv {
        Value::List(mut items) => {
            proof {
                lemma_sv_list_push(items@, v);
            }
            items.push(v);
            env.set(list.as_str(), Value::List(items));
            Ok(Signal::Normal)
        },
        _ => Err(quote("OrimaLang Error: '", list, "' is not a list")),
    }
}

fn remove_from_list<N: Copy, H: Fn(Query<N>) -> Reply<N>>(e: &Expr<N>, list: &String, env: &mut Env<N>, h: &H) -> (r: Result<Signal<N>, String>)
    requires
        host_ok(*h),
    ensures
        (rv_sig(r), final(env)@) == s_remove(oracle(*h), e@, list@, old(env)@),
{
    let ghost o = oracle(*h);
    let v = match eval_in(e, env, h) {
        Ok(v) => v,
        Err(e) => return Err(e),
    };
    let lv = match env.get(list.as_str()) {
        Some(x) => clone_value(x),
        None => return Err(quote("OrimaLang Error: undefined list '", list, "'")),
    };
    match lv {
        Value::List(items) => {
            let target = value_to_string(&v, h);
            let mut kept: Vec<Value<N>> = Vec::new();
            let mut i: usize = 0;
            proof {
                assert(items@.take(0) =~= Seq::<Value<N>>::empty());
                assert(sv_list(kept@) =~= Seq::<SValue<N>>::empty());
            }
            while i < items.len()
                invariant
                    host_ok(*h),
                    o == oracle(*h),
                    i <= items@.len(),
                    sv_list(kept@) == s_retain(o, sv_list(items@.take(i as int)), target@),
                decreases items@.len() - i,
            {
                let t = value_to_string(&items[i], h);
                proof {
                    lemma_sv_list_push(items@.take(i as int), items@[i as int]);
                    assert(items@.take(i as int + 1) == items@.take(i as int).push(
                        items@[i as int],
                    ));
                    lemma_s_retain_push(
                        o,
                        sv_list(items@.take(i as int)),
                        sv(items@[i as int]),
                        target@,
                    );
                }
                if t != target {
                    let c = clone_value(&items[i]);
                    proof {
                        lemma_sv_list_push(kept@, c);
                    }
                    kept.push(c);
                }
                i += 1;
            }
            proof {
                assert(items@.take(items@.len() as int) == items@);
            }
            env.set(list.as_str(), Value::List(kept));
            Ok(Signal::Normal)
        },
        _ => Err(quote("OrimaLang Error: '", list, "' is not a list")),
    }
}

fn remove_item<N: Copy, H: Fn(Query<N>) -> Reply<N>>(e: &Expr<N>, list: &String, env: &mut Env<N>, h: &H) -> (r: Result<Signal<N>, String>)
    requires
        host_ok(*h),
    ensures
        (rv_sig(r), final(env)@) == s_remove_item(oracle(*h), e@, list@, old(env)@),
{
    let iv = match eval_in(e, env, h) {
        Ok(v) => v,
        Err(e) => return Err(e),
    };
    let n = match to_num(&iv, "list index", h) {
        Ok(n) => n,
        Err(e) => return Err(e),
    };
    let idx = host_to_index(h, n);
    let lv = match env.get(list.as_str()) {
        Some(x) => clone_value(x),
        None => return Err(quote("OrimaLang Error: undefined list '", list, "'")),
    };
    match lv {
        Value::List(mut items) => {
            proof {
                lemma_sv_list(items@);
            }
            if idx < 1 || idx > items.len() {
                return Err(out_of_range_text(idx, list));
            }
            proof {
                lemma_sv_list_remove(items@, idx - 1);
            }
            items.remove(idx - 1);
            env.set(list.as_str(), Value::List(items));
            Ok(Signal::Normal)
        },
        _ => Err(quote("OrimaLang Error: '", list, "' is not a list")),
    }
}

fn exec_ask<N: Copy, H: Fn(Query<N>) -> Reply<N>>(words: &Vec<String>, var: &String, env: &mut Env<N>, h: &H) -> (r: Result<Signal<N>, String>)
    requires
        host_ok(*h),
    ensures
        (rv_sig(r), final(env)@) == s_ask(oracle(*h), views(words@), var@, old(env)@),
{
    let prompt = join_strings(words, " ");
    match env.next_answer() {
        Answer::NoInput => {
            env.set(var.as_str(), Value::Str(String::new()));
        },
        Answer::Text(a) => {
            env.set(var.as_str(), Value::Str(a));
        },
        Answer::Missing => {
            let msg = quote("OrimaLang Error: no answer for '", &prompt, "'");
            env.set_waiting(prompt);
            return Err(msg);
        },
    }
    Ok(Signal::Normal)
}

fn create_object<N: Copy, H: Fn(Query<N>) -> Reply<N>>(class: &String, args: &Vec<Expr<N>>, store: &String, env: &mut Env<N>, h: &H) -> (r: Result<Signal<N>, String>)
    requires
        host_ok(*h),
    ensures
        (rv_sig(r), final(env)@) == s_create(oracle(*h), class@, se_list(args@), store@, old(env)@),
{
    let argv = match eval_args(args, env, h) {
        Ok(a) => a,
        Err(e) => return Err(e),
    };
    let def = match env.class(class) {
        Some(d) => d,
        None => return Err(quote("OrimaLang Error: undefined class '", class, "'")),
    };
    let fields = build_fields(&def.0, &argv);
    env.set(store.as_str(), Value::Object(class.clone(), fields));
    Ok(Signal::Normal)
}

fn set_field<N: Copy, H: Fn(Query<N>) -> Reply<N>>(obj: &String, field: &String, e: &Expr<N>, env: &mut Env<N>, h: &H) -> (r: Result<Signal<N>, String>)
    requires
        host_ok(*h),
    ensures
        (rv_sig(r), final(env)@) == s_set_field(oracle(*h), obj@, field@, e@, old(env)@),
{
    let v = match eval_in(e, env, h) {
        Ok(v) => v,
        Err(e) => return Err(e),
    };
    let ov = match env.get(obj.as_str()) {
        Some(x) => clone_value(x),
        None => return Err(quote("OrimaLang Error: undefined variable '", obj, "'")),
    };
    match ov {
        Value::Object(c, mut fs) => {
            fields_insert(&mut fs, field.clone(), v);
            env.set(obj.as_str(), Value::Object(c, fs));
            Ok(Signal::Normal)
        },
        _ => Err(quote("OrimaLang Error: '", obj, "' is not an object")),
    }
}

fn run_repeat<N: Copy, H: Fn(Query<N>) -> Reply<N>>(body: &Vec<Stmt<N>>, count: u64, env: &mut Env<N>, h: &H, fuel: u64) -> (r: Result<Signal<N>, String>)
    requires
        host_ok(*h),
    ensures
        (rv_sig(r), final(env)@) == s_repeat(oracle(*h), fuel as nat, ss_list(body@), count as nat, old(env)@),
    decreases fuel, 0nat, 0int,
{
    let ghost o = oracle(*h);
    let mut remaining: u64 = count;
    let mut g: u64 = fuel;
    let ghost target = s_repeat(o, fuel as nat, ss_list(body@), count as nat, old(env)@);
    loop
        invariant
            host_ok(*h),
            o == oracle(*h),
            g <= fuel,
            target == s_repeat(o, fuel as nat, ss_list(body@), count as nat, old(env)@),
            s_repeat(o, g as nat, ss_list(body@), remaining as nat, env@) == target,
        decreases g,
    {
        if remaining == 0 {
            return Ok(Signal::Normal);
        }
        if g == 0 {
            return Err(limit_text());
        }
        match run_block(body, env, h, g - 1) {
            Err(e) => return Err(e),
            Ok(Signal::Break) => return Ok(Signal::Normal),
            Ok(Signal::Return(v)) => return Ok(Signal::Return(v)),
            Ok(_) => {},
        }
        g -= 1;
        remaining -= 1;
    }
}

fn run_while<N: Copy, H: Fn(Query<N>) -> Reply<N>>(c: &Expr<N>, body: &Vec<Stmt<N>>, env: &mut Env<N>, h: &H, fuel: u64) -> (r: Result<Signal<N>, String>)
    requires
        host_ok(*h),
    ensures
        (rv_sig(r), final(env)@) == s_while(oracle(*h), fuel as nat, c@, ss_list(body@), old(env)@),
    decreases fuel, 0nat, 0int,
{
    let ghost o = oracle(*h);
    let mut g: u64 = fuel;
    let ghost target = s_while(o, fuel as nat, c@, ss_list(body@), old(env)@);
    loop
        invariant
            host_ok(*h),
            o == oracle(*h),
            g <= fuel,
            target == s_while(o, fuel as nat, c@, ss_list(body@), old(env)@),
            s_while(o, g as nat, c@, ss_list(body@), env@) == target,
        decreases g,
    {
        if g == 0 {
            return Err(limit_text());
        }
        let cv = match eval_in(c, env, h) {
            Ok(v) => v,
            Err(e) => return Err(e),
        };
        if !is_truthy(&cv, h) {
            return Ok(Signal::Normal);
        }
        match run_block(body, env, h, g - 1) {
            Err(e) => return Err(e),
            Ok(Signal::Break) => return Ok(Signal::Normal),
            Ok(Signal::Return(v)) => return Ok(Signal::Return(v)),
            Ok(_) => {},
        }
        g -= 1;
    }
}

fn run_foreach<N: Copy, H: Fn(Query<N>) -> Reply<N>>(item: &String, items: &Vec<Value<N>>, body: &Vec<Stmt<N>>, env: &mut Env<N>, h: &H, fuel: u64) -> (r: Result<Signal<N>, String>)
    requires
        host_ok(*h),
    ensures
        (rv_sig(r), final(env)@) == s_foreach(oracle(*h), fuel as nat, item@, sv_list(items@), 0, ss_list(body@), old(env)@),
    decreases fuel, 0nat, 0int,
{
    let ghost o = oracle(*h);
    let ghost its = sv_list(items@);
    proof {
        lemma_sv_list(items@);
    }
    let mut g: u64 = fuel;
    let mut i: usize = 0;
    let ghost target = s_foreach(o, fuel as nat, item@, its, 0, ss_list(body@), old(env)@);
    loop
        invariant
            host_ok(*h),
            o == oracle(*h),
            g <= fuel,
            i <= items@.len(),
            its == sv_list(items@),
            its.len() == items@.len(),
            forall|k: int| 0 <= k < items@.len() ==> #[trigger] its[k] == sv(items@[k]),
            target == s_foreach(o, fuel as nat, item@, sv_list(items@), 0, ss_list(body@), old(env)@),
            s_foreach(o, g as nat, item@, its, i as int, ss_list(body@), env@) == target,
        decreases g,
    {
        if i >= items.len() {
            return Ok(Signal::Normal);
        }
        if g == 0 {
            return Err(limit_text());
        }
        env.set(item.as_str(), clone_value(&items[i]));
        match run_block(body, env, h, g - 1) {
            Err(e) => return Err(e),
            Ok(Signal::Break) => return Ok(Signal::Normal),
            Ok(Signal::Return(v)) => return Ok(Signal::Return(v)),
            Ok(_) => {},
        }
        g -= 1;
        i += 1;
    }
}

/// Run one statement with the given fuel.
fn run_stmt<N: Copy, H: Fn(Query<N>) -> Reply<N>>(st: &Stmt<N>, env: &mut Env<N>, h: &H, fuel: u64) -> (r: Result<
    Signal<N>,
    String,
>)
    requires
        host_ok(*h),
    ensures
        (rv_sig(r), final(env)@) == s_stmt(oracle(*h), fuel as nat, st@, old(env)@),
    decreases fuel, 0nat, 0int,
{
    if fuel == 0 {
        return Err(limit_text());
    }
    let f = fuel - 1;
    match st {
        Stmt::Say(parts) => exec_say(parts, env, h),
        Stmt::SetVar(name, e) => exec_assign(name, e, env, h),
        Stmt::Increase(name, e) => arith_stmt(name, e, Op::Plus, "increase", env, h),
        Stmt::Decrease(name, e) => arith_stmt(name, e, Op::Minus, "decrease", env, h),
        Stmt::Multiply(name, e) => arith_stmt(name, e, Op::Times, "multiply", env, h),
        Stmt::Divide(name, e) => arith_stmt(name, e, Op::DividedBy, "divide", env, h),
        Stmt::If(c, t, el) => {
            let cv = match eval_in(c, env, h) {
                Ok(v) => v,
                Err(e) => return Err(e),
            };
            if is_truthy(&cv, h) {
                run_block(t, env, h, f)
            } else {
                run_block(el, env, h, f)
            }
        },
        Stmt::Repeat(c, body) => {
            let cv = match eval_in(c, env, h) {
                Ok(v) => v,
                Err(e) => return Err(e),
            };
            let n = match to_num(&cv, "repeat count", h) {
                Ok(n) => n,
                Err(e) => return Err(e),
            };
            let k = host_to_count(h, n);
            let count: u64 = if k > 0 {
                k as u64
            } else {
                0
            };
            run_repeat(body, count, env, h, f)
        },
        Stmt::While(c, body) => run_while(c, body, env, h, f),
        Stmt::ForEach(item, list, body) => {
            let lv = match env.get(list.as_str()) {
                Some(v) => clone_value(v),
                None => return Err(quote("OrimaLang Error: undefined variable '", list, "'")),
            };
            let ghost lvv = lv@;
            let items: Vec<Value<N>> = match lv {
                Value::List(items) => items,
                other => {
                    let mut one: Vec<Value<N>> = Vec::new();
                    one.push(other);
                    one
                },
            };
            proof {
                lemma_sv_list(items@);
                assert(sv_list(items@) =~= items_of(lvv));
            }
            run_foreach(item, &items, body, env, h, f)
        },
        Stmt::StopLoop => Ok(Signal::Break),
        Stmt::SkipToNext => Ok(Signal::Continue),
        Stmt::CreateList(name) => {
            let empty: Vec<Value<N>> = Vec::new();
            proof {
                assert(sv_list(empty@) =~= Seq::<SValue<N>>::empty());
            }
            env.set(name.as_str(), Value::List(empty));
            Ok(Signal::Normal)
        },
        Stmt::AddToList(e, list) => add_to_list(e, list, env, h),
        Stmt::RemoveFromList(e, list) => remove_from_list(e, list, env, h),
        Stmt::RemoveItemFromList(e, list) => remove_item(e, list, env, h),
        Stmt::Define(name, params, body) => {
            env.define_function(name.clone(), clone_strings(params), clone_stmts(body));
            Ok(Signal::Normal)
        },
        Stmt::Run(name, args, store) => {
            let argv = match eval_args(args, env, h) {
                Ok(a) => a,
                Err(e) => return Err(e),
            };
            let result = match call_function(name, argv, env, h, f) {
                Ok(v) => v,
                Err(e) => return Err(e),
            };
            match store {
                Some(var) => env.set(var.as_str(), result),
                None => {},
            }
            Ok(Signal::Normal)
        },
        Stmt::GiveBack(e) => {
            let v = match eval_in(e, env, h) {
                Ok(v) => v,
                Err(e) => return Err(e),
            };
            Ok(Signal::Return(v))
        },
        Stmt::Ask(words, var) => exec_ask(words, var, env, h),
        Stmt::DefineClass(name, fields, methods) => {
            env.define_class(name.clone(), clone_strings(fields), clone_methods(methods));
            Ok(Signal::Normal)
        },
        Stmt::CreateObject(class, args, store) => create_object(class, args, store, env, h),
        Stmt::SetField(obj, field, e) => set_field(obj, field, e, env, h),
        Stmt::RunMethod(m, args, obj, store) => {
            let argv = match eval_args(args, env, h) {
                Ok(a) => a,
                Err(e) => return Err(e),
            };
            run_method(m, argv, obj, store, env, h, f)
        },
    }
}

/// The fields of a new object from the class's field names and the arguments.
fn build_fields<N: Copy>(names: &Vec<String>, argv: &Vec<Value<N>>) -> (r: Vec<(String, Value<N>)>)
    ensures
        sv_fields(r@) == s_build(views(names@), sv_list(argv@), 0, Seq::empty()),
{
    let mut out: Vec<(String, Value<N>)> = Vec::new();
    let mut i: usize = 0;
    proof {
        lemma_sv_list(argv@);
        assert(sv_fields(out@) =~= Seq::<(Seq<char>, SValue<N>)>::empty());
    }
    while i < names.len()
        invariant
            i <= names@.len(),
            sv_list(argv@).len() == argv@.len(),
            forall|k: int| 0 <= k < argv@.len() ==> #[trigger] sv_list(argv@)[k] == sv(argv@[k]),
            s_build(views(names@), sv_list(argv@), 0, Seq::empty()) == s_build(
                views(names@),
                sv_list(argv@),
                i as int,
                sv_fields(out@),
            ),
        decreases names@.len() - i,
    {
        let v = if i < argv.len() {
            clone_value(&argv[i])
        } else {
            Value::Nil
        };
        fields_insert(&mut out, names[i].clone(), v);
        i += 1;
    }
    out
}

/// Bind the parameters to the arguments in the innermost scope.
fn bind_params<N: Copy>(env: &mut Env<N>, params: &Vec<String>, argv: &Vec<Value<N>>)
    ensures
        final(env)@ == s_bind(old(env)@, views(params@), sv_list(argv@), 0),
{
    let mut i: usize = 0;
    proof {
        lemma_sv_list(argv@);
    }
    while i < params.len()
        invariant
            i <= params@.len(),
            sv_list(argv@).len() == argv@.len(),
            forall|k: int| 0 <= k < argv@.len() ==> #[trigger] sv_list(argv@)[k] == sv(argv@[k]),
            s_bind(old(env)@, views(params@), sv_list(argv@), 0) == s_bind(
                env@,
                views(params@),
                sv_list(argv@),
                i as int,
            ),
        decreases params@.len() - i,
    {
        let v = if i < argv.len() {
            clone_value(&argv[i])
        } else {
            Value::Nil
        };
        env.set_local(params[i].as_str(), v);
        i += 1;
    }
}

/// Run `stmts` in order until an error or a signal other than `Normal`.
fn run_block<N: Copy, H: Fn(Query<N>) -> Reply<N>>(
    stmts: &Vec<Stmt<N>>,
    env: &mut Env<N>,
    h: &H,
    fuel: u64,
) -> (r: Result<Signal<N>, String>)
    requires
        host_ok(*h),
    ensures
        (rv_sig(r), final(env)@) == s_block(oracle(*h), fuel as nat, ss_list(stmts@), 0, old(env)@),
    decreases fuel, 1nat, 0int,
{
    let ghost o = oracle(*h);
    let ghost sts = ss_list(stmts@);
    proof {
        lemma_ss_list(stmts@);
    }
    let mut i: usize = 0;
    while i < stmts.len()
        invariant
            host_ok(*h),
            o == oracle(*h),
            i <= stmts@.len(),
            sts == ss_list(stmts@),
            sts.len() == stmts@.len(),
            forall|k: int| 0 <= k < stmts@.len() ==> #[trigger] sts[k] == ss(stmts@[k]),
            s_block(o, fuel as nat, sts, 0, old(env)@) == s_block(o, fuel as nat, sts, i as int, env@),
        decreases stmts@.len() - i,
    {
        match run_stmt(&stmts[i], env, h, fuel) {
            Err(e) => return Err(e),
            Ok(Signal::Normal) => {},
            Ok(sig) => return Ok(sig),
        }
        i += 1;
    }
    Ok(Signal::Normal)
}

fn result_value<N>(sig: Signal<N>) -> (v: Value<N>)
    ensures
        v@ == result_of(sig@),
{
    match sig {
        Signal::Return(v) => v,
        _ => Value::Nil,
    }
}

/// Call the function `name` with the argument values.
fn call_function<N: Copy, H: Fn(Query<N>) -> Reply<N>>(
    name: &String,
    argv: Vec<Value<N>>,
    env: &mut Env<N>,
    h: &H,
    fuel: u64,
) -> (r: Result<Value<N>, String>)
    requires
        host_ok(*h),
    ensures
        (rv_val(r), final(env)@) == s_call(oracle(*h), fuel as nat, name@, sv_list(argv@), old(env)@),
    decreases fuel, 2nat, 0int,
{
    let (params, body) = match env.function(name) {
        Some(d) => d,
        None => return Err(quote("OrimaLang Error: undefined function '", name, "'")),
    };
    env.push_frame();
    bind_params(env, &params, &argv);
    let sig = match run_block(&body, env, h, fuel) {
        Ok(s) => s,
        Err(e) => {
            env.pop_frame();
            return Err(e);
        },
    };
    env.pop_frame();
    Ok(result_value(sig))
}

/// Run method `m` on the object in variable `obj`.
fn run_method<N: Copy, H: Fn(Query<N>) -> Reply<N>>(
    m: &String,
    argv: Vec<Value<N>>,
    obj: &String,
    store: &Option<String>,
    env: &mut Env<N>,
    h: &H,
    fuel: u64,
) -> (r: Result<Signal<N>, String>)
    requires
        host_ok(*h),
    ensures
        (rv_sig(r), final(env)@) == s_run_method(
            oracle(*h),
            fuel as nat,
            m@,
            sv_list(argv@),
            obj@,
            opt_view(*store),
            old(env)@,
        ),
    decreases fuel, 2nat, 0int,
{
    let ov = match env.get(obj.as_str()) {
        Some(x) => clone_value(x),
        None => return Err(quote("OrimaLang Error: undefined variable '", obj, "'")),
    };
    let (class_name, obj_fields) = match ov {
        Value::Object(c, fs) => (c, fs),
        _ => return Err(quote("OrimaLang Error: '", obj, "' is not an object")),
    };
    let def = match env.class(&class_name) {
        Some(d) => d,
        None => return Err(quote("OrimaLang Error: undefined class '", &class_name, "'")),
    };
    let methods = def.1;
    proof {
        lemma_ss_methods(methods@);
        assert(method_names(ss_methods(methods@)) =~= exec_keys3(methods@));
        lemma_first_in(exec_keys3(methods@), m@);
    }
    let k = match find_method(&methods, m) {
        Some(k) => k,
        None => {
            let mut msg = String::from_str("OrimaLang Error: undefined method '");
            msg.append(m.as_str());
            msg.append("' on class '");
            msg.append(class_name.as_str());
            msg.append("'");
            return Err(msg);
        },
    };
    let params = clone_strings(&methods[k].1);
    let body = clone_stmts(&methods[k].2);
    env.push_frame();
    env.set_local("self", Value::Object(class_name.clone(), clone_fields(&obj_fields)));
    let mut i: usize = 0;
    let ghost ofs = sv_fields(obj_fields@);
    let ghost env1 = env@;
    proof {
        lemma_sv_fields(obj_fields@);
    }
    while i < obj_fields.len()
        invariant
            i <= obj_fields@.len(),
            ofs == sv_fields(obj_fields@),
            ofs.len() == obj_fields@.len(),
            forall|j: int| 0 <= j < obj_fields@.len() ==> #[trigger] ofs[j] == (obj_fields@[j].0@, sv(obj_fields@[j].1)),
            s_bind_fields(env1, ofs, 0) == s_bind_fields(env@, ofs, i as int),
        decreases obj_fields@.len() - i,
    {
        env.set_local(obj_fields[i].0.as_str(), clone_value(&obj_fields[i].1));
        i += 1;
    }
    bind_params(env, &params, &argv);
    let sig = match run_block(&body, env, h, fuel) {
        Ok(s) => s,
        Err(e) => {
            env.pop_frame();
            return Err(e);
        },
    };
    let self_val = match env.get("self") {
        Some(x) => clone_value(x),
        None => Value::Nil,
    };
    match self_val {
        Value::Object(_, updated) => {
            env.pop_frame();
            env.set(obj.as_str(), Value::Object(class_name, updated));
        },
        _ => {
            env.pop_frame();
        },
    }
    let result = result_value(sig);
    match store {
        Some(var) => env.set(var.as_str(), result),
        None => {},
    }
    Ok(Signal::Normal)
}

pub open spec fn exec_keys3<N>(ms: Seq<(String, Vec<String>, Vec<Stmt<N>>)>) -> Seq<Seq<char>> {
    ms.map_values(|m: (String, Vec<String>, Vec<Stmt<N>>)| m.0@)
}

fn find_method<N>(ms: &Vec<(String, Vec<String>, Vec<Stmt<N>>)>, m: &String) -> (r: Option<usize>)
    ensures
        match r {
            Some(i) => first_in(exec_keys3(ms@), m@) == Some(i as int),
            None => first_in(exec_keys3(ms@), m@) is None,
        },
{
    let mut i: usize = 0;
    while i < ms.len()
        invariant
            i <= ms@.len(),
            forall|j: int| 0 <= j < i ==> exec_keys3(ms@)[j] != m@,
        decreases ms@.len() - i,
    {
        if ms[i].0 == *m {
            proof {
                lemma_first_in_is(exec_keys3(ms@), m@, Some(i as int));
            }
            return Some(i);
        }
        i += 1;
    }
    proof {
        lemma_first_in_is(exec_keys3(ms@), m@, None);
    }
    None
}

fn clone_fields<N: Copy>(fs: &Vec<(String, Value<N>)>) -> (r: Vec<(String, Value<N>)>)
    ensures
        sv_fields(r@) == sv_fields(fs@),
{
    let mut out: Vec<(String, Value<N>)> = Vec::new();
    let mut i: usize = 0;
    while i < fs.len()
        invariant
            i <= fs@.len(),
            sv_fields(out@) == sv_fields(fs@.take(i as int)),
        decreases fs@.len() - i,
    {
        let p = (fs[i].0.clone(), clone_value(&fs[i].1));
        proof {
            lemma_sv_fields_push(out@, p);
            lemma_sv_fields_push(fs@.take(i as int), fs@[i as int]);
            assert(fs@.take(i as int + 1) == fs@.take(i as int).push(fs@[i as int]));
        }
        out.push(p);
        i += 1;
    }
    proof {
        assert(fs@.take(fs@.len() as int) == fs@);
    }
    out
}


// ─── Entry points ───────────────────────────────────────────────────────────

pub open spec fn rv_unit(r: Result<(), String>) -> SRes<()> {
    match r {
        Ok(()) => Ok(()),
        Err(e) => Err(e@),
    }
}

/// Run one statement.
pub fn eval_stmt<N: Copy, H: Fn(Query<N>) -> Reply<N>>(stmt: &Stmt<N>, env: &mut Env<N>, h: &H) -> (r: Result<
    Signal<N>,
    String,
>)
    requires
        host_ok(*h),
    ensures
        (rv_sig(r), final(env)@) == s_stmt(oracle(*h), FUEL as nat, stmt@, old(env)@),
{
    run_stmt(stmt, env, h, FUEL)
}

/// Run the statements in order; the first error stops the program.
pub fn eval_program<N: Copy, H: Fn(Query<N>) -> Reply<N>>(stmts: &[Stmt<N>], env: &mut Env<N>, h: &H) -> (r: Result<
    (),
    String,
>)
    requires
        host_ok(*h),
    ensures
        (rv_unit(r), final(env)@) == s_program(oracle(*h), ss_list(stmts@), 0, old(env)@),
{
    let ghost o = oracle(*h);
    let ghost sts = ss_list(stmts@);
    proof {
        lemma_ss_list(stmts@);
    }
    let mut i: usize = 0;
    while i < stmts.len()
        invariant
            host_ok(*h),
            o == oracle(*h),
            i <= stmts@.len(),
            sts == ss_list(stmts@),
            sts.len() == stmts@.len(),
            forall|k: int| 0 <= k < stmts@.len() ==> #[trigger] sts[k] == ss(stmts@[k]),
            s_program(o, sts, 0, old(env)@) == s_program(o, sts, i as int, env@),
        decreases stmts@.len() - i,
    {
        match eval_stmt(&stmts[i], env, h) {
            Err(e) => return Err(e),
            Ok(_) => {},
        }
        i += 1;
    }
    Ok(())
}

/// Run the statements in order, each with its line; the first error stops the
/// program and is given with the line of the statement that raised it.
pub fn eval_program_lines<N: Copy, H: Fn(Query<N>) -> Reply<N>>(
    stmts: &[Stmt<N>],
    lines: &[usize],
    env: &mut Env<N>,
    h: &H,
) -> (r: Result<(), String>)
    requires
        host_ok(*h),
        lines@.len() == stmts@.len(),
    ensures
        (rv_unit(r), final(env)@) == s_program_lined(
            oracle(*h),
            ss_list(stmts@),
            lines@,
            0,
            old(env)@,
        ),
{
    let ghost o = oracle(*h);
    let ghost sts = ss_list(stmts@);
    proof {
        lemma_ss_list(stmts@);
    }
    let mut i: usize = 0;
    while i < stmts.len()
        invariant
            host_ok(*h),
            o == oracle(*h),
            i <= stmts@.len(),
            lines@.len() == stmts@.len(),
            sts == ss_list(stmts@),
            sts.len() == stmts@.len(),
            forall|k: int| 0 <= k < stmts@.len() ==> #[trigger] sts[k] == ss(stmts@[k]),
            s_program_lined(o, sts, lines@, 0, old(env)@) == s_program_lined(
                o,
                sts,
                lines@,
                i as int,
                env@,
            ),
        decreases stmts@.len() - i,
    {
        match eval_stmt(&stmts[i], env, h) {
            Err(e) => {
                let tail = on_line_text(lines[i]);
                return Err(concat(&e, &tail));
            },
            Ok(_) => {},
        }
        i += 1;
    }
    Ok(())
}

} // verus!
