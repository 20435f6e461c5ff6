//! The evaluator of declarations and statements as a step function. Each step
//! takes the caller's reply to the previous request and gives the next
//! request: evaluate an expression (or test a condition), print a value,
//! record a function or a class, or report the end of a call or of the run.
//! The caller evaluates expressions, which compute on floating-point numbers,
//! and starts the calls they make with `begin_call`.
use crate::diagnostic::Span;
use crate::interpreter::environment::{Environment, SpecVars, bind, find_var, value_of};
use crate::interpreter::evaluator::{
    CallFrame, Locals, LoopStep, RuntimeError, after_body, call_result, construct_result,
    extended, spec_after_body, spec_call_result, spec_construct_result,
};
use crate::parser::builder::{view_branches, view_decls, view_stmts, lemma_block_view, lemma_if_view};
use crate::parser::copy::{copy_declaration, copy_statement};
use crate::parser::parser::{
    AST, ClassDefinition, Declaration, ExprID, FunctionDefinition, SpecClassDefinition,
    SpecDeclaration, SpecFunctionDefinition, SpecStatement, Statement, StatementID,
    view_strings,
};
use vstd::prelude::*;

verus! {

/// What the evaluator waits for from its caller.
#[derive(Clone, Copy, Debug, PartialEq, Eq, Structural)]
pub enum Wait {
    /// `Reply::Go`.
    Nothing,
    /// `Reply::Value` or `Reply::Failed`.
    Value,
    /// `Reply::Bool` or `Reply::Failed`.
    Bool,
}

/// The caller's answer to a request.
pub enum Reply<V> {
    Go,
    /// The value of the expression asked for, and where it stands.
    Value(V, Span),
    /// A condition asked for: whether it holds.
    Bool(bool),
    /// The expression asked for failed.
    Failed(RuntimeError<V>),
}

/// What the evaluator asks of its caller.
pub enum Request<V> {
    /// Evaluate the expression; reply `Value` or `Failed`.
    Eval(ExprID),
    /// Evaluate the expression as a condition (it must be a boolean); reply
    /// `Bool` or `Failed`.
    Test(ExprID),
    /// Print the value; reply `Go`.
    Print(V),
    /// Record the function, declared where `usize` resolver scopes are open;
    /// reply `Go`.
    Define(FunctionDefinition, usize),
    /// Record the class; reply `Go`.
    DefineClass(ClassDefinition),
    /// Nothing: reply `Go`.
    Go,
    /// The call started with `begin_call` ended with this result.
    Returned(Result<V, RuntimeError<V>>),
    /// The run started with `begin_run` ended with this result.
    Done(Result<V, RuntimeError<V>>),
}

pub enum SpecRequest<V> {
    Eval(ExprID),
    Test(ExprID),
    Print(V),
    Define(SpecFunctionDefinition, usize),
    DefineClass(SpecDeclaration),
    Go,
    Returned(Result<V, RuntimeError<V>>),
    Done(Result<V, RuntimeError<V>>),
}

impl<V> View for Request<V> {
    type V = SpecRequest<V>;

    open spec fn view(&self) -> SpecRequest<V> {
        match self {
            Request::Eval(e) => SpecRequest::Eval(*e),
            Request::Test(e) => SpecRequest::Test(*e),
            Request::Print(v) => SpecRequest::Print(*v),
            Request::Define(f, d) => SpecRequest::Define(f@, *d),
            Request::DefineClass(c) => SpecRequest::DefineClass(Declaration::ClassDefinition(*c)@),
            Request::Go => SpecRequest::Go,
            Request::Returned(r) => SpecRequest::Returned(*r),
            Request::Done(r) => SpecRequest::Done(*r),
        }
    }
}

/// Work left to do, the innermost last.
pub enum Task<V> {
    /// Run a declaration.
    Decl(Declaration),
    /// Run a statement.
    Stmt(Statement),
    /// The declarations of a block still to run, and the value of the last one run.
    Decls(Vec<Declaration>, V),
    /// The end of a block: the scope it opened with the base to give back (none
    /// for a function's body), and the number of locals before it.
    Close(Option<(usize, usize)>, usize),
    /// The branches of an `if` from the one whose condition is asked, and its `else`.
    Branches(Vec<(ExprID, Statement)>, Option<StatementID>),
    /// A `while` whose condition is asked.
    While(ExprID, StatementID),
    /// A `while` whose body runs.
    Body(ExprID, StatementID),
    /// The items of a `print` after the one asked for.
    Print(Vec<ExprID>),
    /// A variable whose value is asked for.
    Bind(String),
    /// An expression statement whose value is asked for.
    Keep,
    /// A `return` whose value is asked for.
    Ret,
    /// The end of a call: what gives back the locals, the saved method flag and
    /// scope depth, the instance a constructor makes, and what the caller was
    /// waiting for when the call began.
    Call(CallFrame, bool, usize, Option<V>, Wait),
    /// The run of the top-level declarations, with the value of the last one.
    Roots(V),
}

pub enum SpecTask<V> {
    Decl(SpecDeclaration),
    Stmt(SpecStatement),
    Decls(Seq<SpecDeclaration>, V),
    Close(Option<(usize, usize)>, usize),
    Branches(Seq<(ExprID, SpecStatement)>, Option<StatementID>),
    While(ExprID, StatementID),
    Body(ExprID, StatementID),
    Print(Seq<ExprID>),
    Bind(Seq<char>),
    Keep,
    Ret,
    Call(CallFrame, bool, usize, Option<V>, Wait),
    Roots(V),
}

impl<V> View for Task<V> {
    type V = SpecTask<V>;

    open spec fn view(&self) -> SpecTask<V> {
        match self {
            Task::Decl(d) => SpecTask::Decl(d@),
            Task::Stmt(s) => SpecTask::Stmt(s@),
            Task::Decls(ds, v) => SpecTask::Decls(view_decls(ds@), *v),
            Task::Close(o, n) => SpecTask::Close(*o, *n),
            Task::Branches(bs, o) => SpecTask::Branches(view_branches(bs@), *o),
            Task::While(c, b) => SpecTask::While(*c, *b),
            Task::Body(c, b) => SpecTask::Body(*c, *b),
            Task::Print(items) => SpecTask::Print(items@),
            Task::Bind(n) => SpecTask::Bind(n@),
            Task::Keep => SpecTask::Keep,
            Task::Ret => SpecTask::Ret,
            Task::Call(f, m, d, i, w) => SpecTask::Call(*f, *m, *d, *i, *w),
            Task::Roots(v) => SpecTask::Roots(*v),
        }
    }
}

pub open spec fn view_tasks<V>(v: Seq<Task<V>>) -> Seq<SpecTask<V>> {
    v.map_values(|t: Task<V>| t@)
}

/// The evaluator's state as the step semantics sees it.
pub struct EvalView<V> {
    pub tasks: Seq<SpecTask<V>>,
    /// How the innermost finished task ended, not yet taken by the task below.
    pub outcome: Option<Result<V, RuntimeError<V>>>,
    pub wait: Wait,
    /// The variables of the environment.
    pub scopes: Seq<SpecVars<V>>,
    /// The locals and the bases of their scopes.
    pub values: Seq<V>,
    pub bases: Seq<usize>,
    /// How many blocks are open.
    pub depth: usize,
    /// How many resolver scopes are open.
    pub local_depth: usize,
    /// The next block is a function's body.
    pub body: bool,
    /// Inside a method or a constructor, variables are named.
    pub in_method: bool,
    /// The next top-level declaration to run.
    pub head: usize,
    pub nil: V,
}

pub open spec fn incr(n: usize) -> usize {
    if n < usize::MAX {
        (n + 1) as usize
    } else {
        n
    }
}

pub open spec fn decr(n: usize) -> usize {
    if n > 0 {
        (n - 1) as usize
    } else {
        n
    }
}

/// The scopes after closing the innermost one.
pub open spec fn pop_scope<V>(scopes: Seq<SpecVars<V>>) -> Seq<SpecVars<V>> {
    if scopes.len() > 0 {
        scopes.drop_last()
    } else {
        scopes
    }
}

/// The scopes after binding `name` in the innermost one.
pub open spec fn bind_last<V>(scopes: Seq<SpecVars<V>>, name: Seq<char>, v: V) -> Seq<SpecVars<V>> {
    if scopes.len() > 0 {
        scopes.update(scopes.len() - 1, bind(scopes.last(), name, v))
    } else {
        scopes
    }
}

/// The locals after dropping all but the first `len`.
pub open spec fn cut<V>(values: Seq<V>, len: usize) -> Seq<V> {
    if len <= values.len() {
        values.take(len as int)
    } else {
        values
    }
}

/// The bases after giving scope `scope` the base `base` back.
pub open spec fn restore<V>(bases: Seq<usize>, scope: usize, base: usize) -> Seq<usize> {
    if scope < bases.len() {
        bases.update(scope as int, base)
    } else {
        bases
    }
}

pub open spec fn go<V>(s: EvalView<V>) -> (EvalView<V>, SpecRequest<V>) {
    (EvalView { wait: Wait::Nothing, ..s }, SpecRequest::Go)
}

pub open spec fn ended<V>(s: EvalView<V>, r: Result<V, RuntimeError<V>>) -> (
    EvalView<V>,
    SpecRequest<V>,
) {
    (EvalView { wait: Wait::Nothing, outcome: Some(r), ..s }, SpecRequest::Go)
}

/// The statement at `id` in the arena, if there is one.
pub open spec fn arena_stmt(ast: AST, id: StatementID) -> Option<SpecStatement> {
    if id < ast.statement_arena@.len() {
        Some(ast.statement_arena@[id as int]@)
    } else {
        None
    }
}

/// The reply to a request for a value, taken by the innermost task.
pub open spec fn spec_take_value<V>(s: EvalView<V>, reply: Reply<V>) -> (EvalView<V>, SpecRequest<V>) {
    if s.tasks.len() == 0 {
        go(s)
    } else {
        let rest = s.tasks.drop_last();
        let s1 = EvalView { tasks: rest, wait: Wait::Nothing, ..s };
        match reply {
            Reply::Failed(e) => ended(s1, Err(e)),
            Reply::Value(v, span) => match s.tasks.last() {
                SpecTask::Bind(name) => if s.depth == 0 || s.in_method {
                    ended(EvalView { scopes: bind_last(s.scopes, name, v), ..s1 }, Ok(v))
                } else {
                    ended(EvalView { values: s.values.push(v), ..s1 }, Ok(v))
                },
                SpecTask::Keep => ended(s1, Ok(v)),
                SpecTask::Ret => ended(s1, Err(RuntimeError::Return(v, span))),
                SpecTask::Print(items) => (
                    EvalView { tasks: rest.push(SpecTask::Print(items)), ..s1 },
                    SpecRequest::Print(v),
                ),
                _ => go(s1),
            },
            _ => go(s1),
        }
    }
}

/// The reply to a condition, taken by the innermost task.
pub open spec fn spec_take_bool<V>(ast: AST, s: EvalView<V>, reply: Reply<V>) -> (
    EvalView<V>,
    SpecRequest<V>,
) {
    if s.tasks.len() == 0 {
        go(s)
    } else {
        let rest = s.tasks.drop_last();
        let s1 = EvalView { tasks: rest, wait: Wait::Nothing, ..s };
        match reply {
            Reply::Failed(e) => ended(s1, Err(e)),
            Reply::Bool(holds) => match s.tasks.last() {
                SpecTask::Branches(bs, other) => if holds && bs.len() > 0 {
                    go(EvalView { tasks: rest.push(SpecTask::Stmt(bs[0].1)), ..s1 })
                } else if bs.len() > 1 {
                    (
                        EvalView {
                            tasks: rest.push(SpecTask::Branches(bs.drop_first(), other)),
                            wait: Wait::Bool,
                            ..s1
                        },
                        SpecRequest::Test(bs[1].0),
                    )
                } else {
                    match other {
                        Some(id) => match arena_stmt(ast, id) {
                            Some(st) => go(EvalView { tasks: rest.push(SpecTask::Stmt(st)), ..s1 }),
                            None => ended(s1, Ok(s.nil)),
                        },
                        None => ended(s1, Ok(s.nil)),
                    }
                },
                SpecTask::While(c, b) => if holds {
                    match arena_stmt(ast, b) {
                        Some(st) => go(
                            EvalView {
                                tasks: rest.push(SpecTask::Body(c, b)).push(SpecTask::Stmt(st)),
                                ..s1
                            },
                        ),
                        None => ended(s1, Ok(s.nil)),
                    }
                } else {
                    ended(s1, Ok(s.nil))
                },
                _ => go(s1),
            },
            _ => go(s1),
        }
    }
}

/// How the innermost finished task ended, taken by the task below it.
pub open spec fn spec_deliver<V>(s: EvalView<V>, r: Result<V, RuntimeError<V>>) -> (
    EvalView<V>,
    SpecRequest<V>,
) {
    if s.tasks.len() == 0 {
        (EvalView { outcome: None, wait: Wait::Nothing, ..s }, SpecRequest::Done(r))
    } else {
        let rest = s.tasks.drop_last();
        let s1 = EvalView { tasks: rest, outcome: None, wait: Wait::Nothing, ..s };
        match s.tasks.last() {
            SpecTask::Decls(ds, last) => match r {
                Err(e) => ended(s1, Err(e)),
                Ok(v) => go(EvalView { tasks: rest.push(SpecTask::Decls(ds, v)), ..s1 }),
            },
            SpecTask::Close(opened, len) => {
                let s2 = EvalView {
                    scopes: pop_scope(s.scopes),
                    values: cut(s.values, len),
                    depth: decr(s.depth),
                    ..s1
                };
                match opened {
                    Some((scope, base)) => ended(
                        EvalView {
                            bases: restore::<V>(s.bases, scope, base),
                            local_depth: decr(s.local_depth),
                            ..s2
                        },
                        r,
                    ),
                    None => ended(s2, r),
                }
            },
            SpecTask::Body(c, b) => match spec_after_body(r) {
                LoopStep::Retest => (
                    EvalView { tasks: rest.push(SpecTask::While(c, b)), wait: Wait::Bool, ..s1 },
                    SpecRequest::Test(c),
                ),
                LoopStep::Finish => ended(s1, Ok(s.nil)),
                LoopStep::Fail(e) => ended(s1, Err(e)),
            },
            SpecTask::Call(frame, m, d, inst, w) => (
                EvalView {
                    wait: w,
                    scopes: pop_scope(s.scopes),
                    values: cut(s.values, frame.len),
                    bases: restore::<V>(s.bases, frame.scope, frame.base),
                    in_method: m,
                    local_depth: d,
                    body: false,
                    ..s1
                },
                SpecRequest::Returned(
                    match inst {
                        None => spec_call_result(r),
                        Some(i) => spec_construct_result(r, i),
                    },
                ),
            ),
            SpecTask::Roots(last) => match r {
                Err(e) => (s1, SpecRequest::Done(Err(e))),
                Ok(v) => go(EvalView { tasks: rest.push(SpecTask::Roots(v)), ..s1 }),
            },
            _ => ended(s1, r),
        }
    }
}

/// The innermost task, started.
pub open spec fn spec_start<V>(ast: AST, s: EvalView<V>) -> (EvalView<V>, SpecRequest<V>) {
    if s.tasks.len() == 0 {
        (EvalView { wait: Wait::Nothing, ..s }, SpecRequest::Done(Ok(s.nil)))
    } else {
        let rest = s.tasks.drop_last();
        let s1 = EvalView { tasks: rest, wait: Wait::Nothing, ..s };
        let ask = |t: SpecTask<V>, e: ExprID|
            (EvalView { tasks: rest.push(t), wait: Wait::Value, ..s1 }, SpecRequest::Eval(e));
        let test = |t: SpecTask<V>, e: ExprID|
            (EvalView { tasks: rest.push(t), wait: Wait::Bool, ..s1 }, SpecRequest::Test(e));
        match s.tasks.last() {
            SpecTask::Decl(d) => match d {
                SpecDeclaration::Statement(st) => go(
                    EvalView { tasks: rest.push(SpecTask::Stmt(st)), ..s1 },
                ),
                SpecDeclaration::VarDecl(n, e) => ask(SpecTask::Bind(n), e),
                SpecDeclaration::FunctionDefinition(f) => (
                    EvalView { outcome: Some(Ok(s.nil)), ..s1 },
                    SpecRequest::Define(f, s.local_depth),
                ),
                SpecDeclaration::ClassDefinition(c) => (
                    EvalView { outcome: Some(Ok(s.nil)), ..s1 },
                    SpecRequest::DefineClass(d),
                ),
                _ => ended(s1, Ok(s.nil)),
            },
            SpecTask::Stmt(st) => match st {
                SpecStatement::ExprStatement(e) => ask(SpecTask::Keep, e),
                SpecStatement::PrintStatement(items) => go(
                    EvalView { tasks: rest.push(SpecTask::Print(items)), ..s1 },
                ),
                SpecStatement::Block(ds) => {
                    let len = s.values.len() as usize;
                    let s2 = EvalView {
                        scopes: s.scopes.push(Seq::empty()),
                        depth: incr(s.depth),
                        body: false,
                        ..s1
                    };
                    if s.body {
                        go(
                            EvalView {
                                tasks: rest.push(SpecTask::Close(None, len)).push(
                                    SpecTask::Decls(ds, s.nil),
                                ),
                                ..s2
                            },
                        )
                    } else {
                        let scope = s.local_depth;
                        let grown = extended(s.bases, scope + 1);
                        go(
                            EvalView {
                                tasks: rest.push(SpecTask::Close(Some((scope, grown[scope as int])), len)).push(
                                    SpecTask::Decls(ds, s.nil),
                                ),
                                bases: grown.update(scope as int, len),
                                local_depth: incr(s.local_depth),
                                ..s2
                            },
                        )
                    }
                },
                SpecStatement::IfStatement(bs, other) => if bs.len() > 0 {
                    test(SpecTask::Branches(bs, other), bs[0].0)
                } else {
                    match other {
                        Some(id) => match arena_stmt(ast, id) {
                            Some(x) => go(EvalView { tasks: rest.push(SpecTask::Stmt(x)), ..s1 }),
                            None => ended(s1, Ok(s.nil)),
                        },
                        None => ended(s1, Ok(s.nil)),
                    }
                },
                SpecStatement::Whileloop(c, b) => test(SpecTask::While(c, b), c),
                SpecStatement::Break(t) => ended(s1, Err(RuntimeError::Break(t.span))),
                SpecStatement::Continue(t) => ended(s1, Err(RuntimeError::Continue(t.span))),
                SpecStatement::Return(e) => match e {
                    Some(x) => ask(SpecTask::Ret, x),
                    None => ended(s1, Err(RuntimeError::Return(s.nil, Span { start: 0, end: 0 }))),
                },
            },
            SpecTask::Decls(ds, last) => if ds.len() == 0 {
                ended(s1, Ok(last))
            } else if ds[0] is Comment {
                go(EvalView { tasks: rest.push(SpecTask::Decls(ds.drop_first(), last)), ..s1 })
            } else {
                go(
                    EvalView {
                        tasks: rest.push(SpecTask::Decls(ds.drop_first(), last)).push(
                            SpecTask::Decl(ds[0]),
                        ),
                        ..s1
                    },
                )
            },
            SpecTask::Print(items) => if items.len() == 0 {
                ended(s1, Ok(s.nil))
            } else {
                ask(SpecTask::Print(items.drop_first()), items[0])
            },
            SpecTask::Roots(last) => if s.head < ast.roots@.len() {
                go(
                    EvalView {
                        tasks: rest.push(SpecTask::Roots(last)).push(
                            SpecTask::Decl(ast.roots@[s.head as int]@),
                        ),
                        head: (s.head + 1) as usize,
                        ..s1
                    },
                )
            } else {
                (s1, SpecRequest::Done(Ok(last)))
            },
            _ => go(s1),
        }
    }
}

/// One step of the evaluator on the reply `reply`: the state after it and the
/// next request.
pub open spec fn spec_step<V>(ast: AST, s: EvalView<V>, reply: Reply<V>) -> (
    EvalView<V>,
    SpecRequest<V>,
) {
    match s.wait {
        Wait::Value => spec_take_value(s, reply),
        Wait::Bool => spec_take_bool(ast, s, reply),
        Wait::Nothing => match s.outcome {
            Some(r) => spec_deliver(s, r),
            None => spec_start(ast, s),
        },
    }
}

/// The scopes after binding the first `n` parameters to their arguments.
pub open spec fn bind_params<V>(
    scopes: Seq<SpecVars<V>>,
    names: Seq<Seq<char>>,
    args: Seq<V>,
    n: nat,
) -> Seq<SpecVars<V>>
    decreases n,
{
    if n == 0 {
        scopes
    } else {
        let m = (n - 1) as nat;
        bind_last(bind_params(scopes, names, args, m), names[m as int], args[m as int])
    }
}

pub open spec fn min(a: nat, b: nat) -> nat {
    if a <= b {
        a
    } else {
        b
    }
}

/// Where the local `(slot, scope)` stands among the locals, if a value stands
/// there.
pub open spec fn local_index<V>(s: EvalView<V>, slot: int, scope: int) -> Option<int> {
    if 0 <= scope < s.bases.len() && 0 <= slot && slot + s.bases[scope] < s.values.len() {
        Some(slot + s.bases[scope])
    } else {
        None
    }
}

/// The evaluator: the work left, how the last task ended, what it waits for,
/// the variables (named, and resolved locals), and the run's position.
pub struct Evaluator<V> {
    tasks: Vec<Task<V>>,
    outcome: Option<Result<V, RuntimeError<V>>>,
    wait: Wait,
    env: Environment<V>,
    locals: Locals<V>,
    depth: usize,
    local_depth: usize,
    body: bool,
    in_method: bool,
    head: usize,
    nil: V,
}

impl<V> View for Evaluator<V> {
    type V = EvalView<V>;

    closed spec fn view(&self) -> EvalView<V> {
        EvalView {
            tasks: view_tasks(self.tasks@),
            outcome: self.outcome,
            wait: self.wait,
            scopes: self.env.scopes(),
            values: self.locals.values(),
            bases: self.locals.bases(),
            depth: self.depth,
            local_depth: self.local_depth,
            body: self.body,
            in_method: self.in_method,
            head: self.head,
            nil: self.nil,
        }
    }
}

impl<V: Copy> Evaluator<V> {
    /// An evaluator with nothing to do, one empty global scope, and `nil` as
    /// the value of what has none.
    pub fn new(nil: V) -> (r: Self)
        ensures
            r@ == (EvalView {
                tasks: Seq::empty(),
                outcome: None,
                wait: Wait::Nothing,
                scopes: seq![Seq::<(Seq<char>, V)>::empty()],
                values: Seq::empty(),
                bases: Seq::empty(),
                depth: 0,
                local_depth: 0,
                body: false,
                in_method: false,
                head: 0,
                nil,
            }),
    {
        let r = Evaluator {
            tasks: Vec::new(),
            outcome: None,
            wait: Wait::Nothing,
            env: Environment::new(),
            locals: Locals::new(),
            depth: 0,
            local_depth: 0,
            body: false,
            in_method: false,
            head: 0,
            nil,
        };
        proof {
            assert(view_tasks(r.tasks@) =~= Seq::<SpecTask<V>>::empty());
        }
        r
    }

    /// What the next step expects as its reply.
    pub fn expects(&self) -> (w: Wait)
        ensures
            w == self@.wait,
    {
        self.wait
    }

    /// The value of the variable `name`, in the innermost scope that holds it.
    pub fn get_var(&self, name: &str) -> (r: Option<&V>)
        ensures
            match value_of(self@.scopes, name@) {
                Some(v) => r == Some(&v),
                None => r is None,
            },
    {
        self.env.get(name)
    }

    /// Gives the variable `name` the value `v` in the innermost scope that
    /// holds it; `false` (and nothing changes) where none does.
    pub fn assign_var(&mut self, name: &str, v: V) -> (found: bool)
        ensures
            found == (find_var(old(self)@.scopes, name@) is Some),
            match find_var(old(self)@.scopes, name@) {
                Some((s, i)) => final(self)@ == (EvalView {
                    scopes: old(self)@.scopes.update(s, old(self)@.scopes[s].update(i, (name@, v))),
                    ..old(self)@
                }),
                None => final(self)@ == old(self)@,
            },
    {
        self.env.assign(name, v)
    }

    /// The value of the local `(slot, scope)`.
    pub fn get_local(&self, slot: usize, scope: usize) -> (r: Option<&V>)
        ensures
            match local_index(self@, slot as int, scope as int) {
                Some(i) => r == Some(&self@.values[i]),
                None => r is None,
            },
    {
        self.locals.get(slot, scope)
    }

    /// Gives the local `(slot, scope)` the value `v`; `false` (and nothing
    /// changes) where no value stands there.
    pub fn set_local(&mut self, slot: usize, scope: usize, v: V) -> (found: bool)
        ensures
            found == local_index(old(self)@, slot as int, scope as int) is Some,
            match local_index(old(self)@, slot as int, scope as int) {
                Some(i) => final(self)@ == (EvalView {
                    values: old(self)@.values.update(i, v),
                    ..old(self)@
                }),
                None => final(self)@ == old(self)@,
            },
    {
        self.locals.set(slot, scope, v)
    }

    /// The named variables, for showing them.
    pub fn environment(&self) -> (e: &Environment<V>)
        ensures
            e.scopes() == self@.scopes,
    {
        &self.env
    }

    /// Starts running the top-level declarations from the next one not run.
    pub fn begin_run(&mut self)
        ensures
            final(self)@ == (EvalView {
                tasks: old(self)@.tasks.push(SpecTask::Roots(old(self)@.nil)),
                outcome: None,
                wait: Wait::Nothing,
                ..old(self)@
            }),
    {
        let nil = self.nil;
        self.push_task(Task::Roots(nil));
        self.outcome = None;
        self.wait = Wait::Nothing;
    }

    /// Starts a call of `def`, whose parameters live in resolver scope `scope`,
    /// with `args`: a new scope holds `self` (where given) and the parameters,
    /// the arguments are pushed as locals, and the body runs. `construct` is
    /// the instance a constructor makes. The call ends with `Request::Returned`,
    /// and the evaluator then waits for what it waited for before the call.
    pub fn begin_call(
        &mut self,
        def: FunctionDefinition,
        scope: usize,
        args: Vec<V>,
        self_value: Option<V>,
        in_method: bool,
        construct: Option<V>,
    )
        ensures
            ({
                let s = old(self)@;
                let opened = s.scopes.push(Seq::empty());
                let with_self = match self_value {
                    Some(v) => bind_last(opened, "self"@, v),
                    None => opened,
                };
                let names = view_strings(def.arguments@);
                final(self)@ == (EvalView {
                    tasks: s.tasks.push(
                        SpecTask::Call(
                            CallFrame {
                                scope,
                                base: extended(s.bases, scope + 1)[scope as int],
                                len: s.values.len() as usize,
                            },
                            s.in_method,
                            s.local_depth,
                            construct,
                            s.wait,
                        ),
                    ).push(SpecTask::Stmt(def.statement@)),
                    outcome: None,
                    wait: Wait::Nothing,
                    scopes: bind_params(with_self, names, args@, min(names.len(), args@.len())),
                    values: s.values + args@,
                    bases: extended(s.bases, scope + 1).update(scope as int, s.values.len() as usize),
                    local_depth: incr(scope),
                    body: true,
                    in_method,
                    ..s
                })
            }),
    {
        let ghost s = self@;
        self.env.push();
        match self_value {
            Some(v) => {
                let mut name = String::new();
                crate::text::push_str(&mut name, "self");
                proof {
                    reveal_strlit("");
                    assert(name@ =~= "self"@);
                }
                self.env.add(name, v);
            },
            None => {},
        }
        let ghost start = self.env.scopes();
        let ghost names = view_strings(def.arguments@);
        let n = if def.arguments.len() <= args.len() {
            def.arguments.len()
        } else {
            args.len()
        };
        let mut i: usize = 0;
        while i < n
            invariant
                i <= n,
                n == min(names.len(), args@.len()),
                names == view_strings(def.arguments@),
                self.env.scopes() == bind_params(start, names, args@, i as nat),
                self.env.scopes().len() > 0,
                self.tasks == old(self).tasks,
                self.locals.values() == s.values,
                self.locals.bases() == s.bases,
                self.in_method == s.in_method,
                self.local_depth == s.local_depth,
                self.depth == s.depth,
                self.head == s.head,
                self.nil == s.nil,
                self.wait == s.wait,
            decreases n - i,
        {
            let mut name = String::new();
            crate::text::push_str(&mut name, def.arguments[i].as_str());
            proof {
                reveal_strlit("");
                assert(name@ =~= def.arguments@[i as int]@);
            }
            self.env.add(name, args[i]);
            i = i + 1;
        }
        proof {
            let opened = s.scopes.push(Seq::empty());
            let with_self = match self_value {
                Some(v) => bind_last(opened, "self"@, v),
                None => opened,
            };
            assert(start == with_self);
            assert(self.env.scopes() == bind_params(with_self, names, args@, min(names.len(), args@.len())));
        }
        let frame = self.locals.enter_call(scope, args);
        let saved_method = self.in_method;
        let saved_depth = self.local_depth;
        let saved_wait = self.wait;
        self.local_depth = if scope < usize::MAX {
            scope + 1
        } else {
            scope
        };
        self.in_method = in_method;
        self.body = true;
        self.push_task(Task::Call(frame, saved_method, saved_depth, construct, saved_wait));
        self.push_task(Task::Stmt(def.statement));
        self.outcome = None;
        self.wait = Wait::Nothing;
    }

    fn push_task(&mut self, t: Task<V>)
        ensures
            final(self)@ == (EvalView { tasks: old(self)@.tasks.push(t@), ..old(self)@ }),
    {
        self.tasks.push(t);
        proof {
            assert(view_tasks(self.tasks@) =~= view_tasks(old(self).tasks@).push(t@));
        }
    }

    fn pop_task(&mut self) -> (t: Task<V>)
        requires
            old(self).tasks@.len() > 0,
        ensures
            t@ == old(self)@.tasks.last(),
            final(self)@ == (EvalView { tasks: old(self)@.tasks.drop_last(), ..old(self)@ }),
    {
        let t = self.tasks.pop().unwrap();
        proof {
            assert(view_tasks(self.tasks@) =~= view_tasks(old(self).tasks@).drop_last());
        }
        t
    }
}

impl<V: Copy> Evaluator<V> {
    fn finish(&mut self, r: Result<V, RuntimeError<V>>) -> (q: Request<V>)
        ensures
            (final(self)@, q@) == ended(old(self)@, r),
    {
        self.outcome = Some(r);
        self.wait = Wait::Nothing;
        Request::Go
    }

    fn proceed(&mut self) -> (q: Request<V>)
        ensures
            (final(self)@, q@) == go(old(self)@),
    {
        self.wait = Wait::Nothing;
        Request::Go
    }

    fn take_value(&mut self, reply: Reply<V>) -> (q: Request<V>)
        requires
            old(self)@.wait == Wait::Value,
        ensures
            (final(self)@, q@) == spec_take_value(old(self)@, reply),
    {
        if self.tasks.len() == 0 {
            return self.proceed();
        }
        let t = self.pop_task();
        self.wait = Wait::Nothing;
        match reply {
            Reply::Failed(e) => self.finish(Err(e)),
            Reply::Value(v, span) => match t {
                Task::Bind(name) => {
                    if self.depth == 0 || self.in_method {
                        if self.env.scope_count() > 0 {
                            self.env.add(name, v);
                        }
                    } else {
                        self.locals.push(v);
                    }
                    self.finish(Ok(v))
                },
                Task::Keep => self.finish(Ok(v)),
                Task::Ret => self.finish(Err(RuntimeError::Return(v, span))),
                Task::Print(items) => {
                    self.push_task(Task::Print(items));
                    Request::Print(v)
                },
                _ => self.proceed(),
            },
            _ => self.proceed(),
        }
    }

    fn take_bool(&mut self, ast: &AST, reply: Reply<V>) -> (q: Request<V>)
        requires
            old(self)@.wait == Wait::Bool,
        ensures
            (final(self)@, q@) == spec_take_bool(*ast, old(self)@, reply),
    {
        if self.tasks.len() == 0 {
            return self.proceed();
        }
        let t = self.pop_task();
        self.wait = Wait::Nothing;
        match reply {
            Reply::Failed(e) => self.finish(Err(e)),
            Reply::Bool(holds) => match t {
                Task::Branches(bs, other) => {
                    let mut bs = bs;
                    let ghost vb = view_branches(bs@);
                    if holds && bs.len() > 0 {
                        let (_, st) = bs.remove(0);
                        self.push_task(Task::Stmt(st));
                        self.proceed()
                    } else if bs.len() > 1 {
                        let _ = bs.remove(0);
                        proof {
                            assert(view_branches(bs@) =~= vb.drop_first());
                        }
                        let next = bs[0].0;
                        self.push_task(Task::Branches(bs, other));
                        self.wait = Wait::Bool;
                        Request::Test(next)
                    } else {
                        match other {
                            Some(id) => if id < ast.statement_arena.len() {
                                let st = copy_statement(&ast.statement_arena[id]);
                                self.push_task(Task::Stmt(st));
                                self.proceed()
                            } else {
                                let nil = self.nil;
                                self.finish(Ok(nil))
                            },
                            None => {
                                let nil = self.nil;
                                self.finish(Ok(nil))
                            },
                        }
                    }
                },
                Task::While(c, b) => if holds {
                    if b < ast.statement_arena.len() {
                        let st = copy_statement(&ast.statement_arena[b]);
                        self.push_task(Task::Body(c, b));
                        self.push_task(Task::Stmt(st));
                        self.proceed()
                    } else {
                        let nil = self.nil;
                        self.finish(Ok(nil))
                    }
                } else {
                    let nil = self.nil;
                    self.finish(Ok(nil))
                },
                _ => self.proceed(),
            },
            _ => self.proceed(),
        }
    }

    fn deliver(&mut self, r: Result<V, RuntimeError<V>>) -> (q: Request<V>)
        requires
            old(self)@.wait == Wait::Nothing,
        ensures
            (final(self)@, q@) == spec_deliver(old(self)@, r),
    {
        self.outcome = None;
        self.wait = Wait::Nothing;
        if self.tasks.len() == 0 {
            return Request::Done(r);
        }
        let t = self.pop_task();
        match t {
            Task::Decls(ds, last) => match r {
                Err(e) => self.finish(Err(e)),
                Ok(v) => {
                    self.push_task(Task::Decls(ds, v));
                    self.proceed()
                },
            },
            Task::Close(opened, len) => {
                self.env.pop();
                self.depth = if self.depth > 0 {
                    self.depth - 1
                } else {
                    0
                };
                match opened {
                    Some((scope, base)) => {
                        self.locals.leave_call(CallFrame { scope, base, len });
                        self.local_depth = if self.local_depth > 0 {
                            self.local_depth - 1
                        } else {
                            0
                        };
                    },
                    None => self.locals.truncate(len),
                }
                self.finish(r)
            },
            Task::Body(c, b) => match after_body(r) {
                LoopStep::Retest => {
                    self.push_task(Task::While(c, b));
                    self.wait = Wait::Bool;
                    Request::Test(c)
                },
                LoopStep::Finish => {
                    let nil = self.nil;
                    self.finish(Ok(nil))
                },
                LoopStep::Fail(e) => self.finish(Err(e)),
            },
            Task::Call(frame, m, d, inst, w) => {
                self.wait = w;
                self.env.pop();
                self.locals.leave_call(frame);
                self.in_method = m;
                self.local_depth = d;
                self.body = false;
                Request::Returned(
                    match inst {
                        None => call_result(r),
                        Some(i) => construct_result(r, i),
                    },
                )
            },
            Task::Roots(last) => match r {
                Err(e) => Request::Done(Err(e)),
                Ok(v) => {
                    self.push_task(Task::Roots(v));
                    self.proceed()
                },
            },
            _ => self.finish(r),
        }
    }

    fn ask(&mut self, t: Task<V>, e: ExprID) -> (q: Request<V>)
        ensures
            final(self)@ == (EvalView {
                tasks: old(self)@.tasks.push(t@),
                wait: Wait::Value,
                ..old(self)@
            }),
            q@ == SpecRequest::<V>::Eval(e),
    {
        self.push_task(t);
        self.wait = Wait::Value;
        Request::Eval(e)
    }

    fn test(&mut self, t: Task<V>, e: ExprID) -> (q: Request<V>)
        ensures
            final(self)@ == (EvalView {
                tasks: old(self)@.tasks.push(t@),
                wait: Wait::Bool,
                ..old(self)@
            }),
            q@ == SpecRequest::<V>::Test(e),
    {
        self.push_task(t);
        self.wait = Wait::Bool;
        Request::Test(e)
    }

    fn start_statement(&mut self, ast: &AST, st: Statement) -> (q: Request<V>)
        requires
            old(self)@.wait == Wait::Nothing,
        ensures
            ({
                let s = old(self)@;
                let s0 = EvalView { tasks: s.tasks.push(SpecTask::Stmt(st@)), ..s };
                (final(self)@, q@) == spec_start(*ast, s0)
            }),
    {
        let ghost s = self@;
        let ghost s0 = EvalView { tasks: s.tasks.push(SpecTask::Stmt(st@)), ..s };
        proof {
            assert(s0.tasks.drop_last() =~= s.tasks);
        }
        match st {
            Statement::ExprStatement(e) => self.ask(Task::Keep, e),
            Statement::PrintStatement(items) => {
                self.push_task(Task::Print(items));
                self.proceed()
            },
            Statement::Block(ds) => {
                proof {
                    lemma_block_view(ds);
                }
                let len = self.locals.len();
                let is_body = self.body;
                self.env.push();
                self.depth = if self.depth < usize::MAX {
                    self.depth + 1
                } else {
                    self.depth
                };
                self.body = false;
                if is_body {
                    self.push_task(Task::Close(None, len));
                } else {
                    let scope = self.local_depth;
                    let base = self.locals.open_scope(scope);
                    self.local_depth = if self.local_depth < usize::MAX {
                        self.local_depth + 1
                    } else {
                        self.local_depth
                    };
                    self.push_task(Task::Close(Some((scope, base)), len));
                }
                let nil = self.nil;
                self.push_task(Task::Decls(ds, nil));
                self.proceed()
            },
            Statement::IfStatement(bs, other) => {
                proof {
                    lemma_if_view(bs, other);
                }
                if bs.len() > 0 {
                    let first = bs[0].0;
                    self.test(Task::Branches(bs, other), first)
                } else {
                    match other {
                        Some(id) => if id < ast.statement_arena.len() {
                            let x = copy_statement(&ast.statement_arena[id]);
                            self.push_task(Task::Stmt(x));
                            self.proceed()
                        } else {
                            let nil = self.nil;
                            self.finish(Ok(nil))
                        },
                        None => {
                            let nil = self.nil;
                            self.finish(Ok(nil))
                        },
                    }
                }
            },
            Statement::Whileloop(c, b) => self.test(Task::While(c, b), c),
            Statement::Break(t) => self.finish(Err(RuntimeError::Break(t.span))),
            Statement::Continue(t) => self.finish(Err(RuntimeError::Continue(t.span))),
            Statement::Return(e) => match e {
                Some(x) => self.ask(Task::Ret, x),
                None => {
                    let nil = self.nil;
                    self.finish(Err(RuntimeError::Return(nil, Span::new(0, 0))))
                },
            },
        }
    }

    fn start(&mut self, ast: &AST) -> (q: Request<V>)
        requires
            old(self)@.wait == Wait::Nothing,
            old(self)@.outcome is None,
        ensures
            (final(self)@, q@) == spec_start(*ast, old(self)@),
    {
        if self.tasks.len() == 0 {
            let nil = self.nil;
            return Request::Done(Ok(nil));
        }
        let ghost s = self@;
        let t = self.pop_task();
        match t {
            Task::Decl(d) => match d {
                Declaration::Statement(st) => {
                    self.push_task(Task::Stmt(st));
                    self.proceed()
                },
                Declaration::VarDecl(n, e) => self.ask(Task::Bind(n), e),
                Declaration::FunctionDefinition(f) => {
                    let nil = self.nil;
                    self.outcome = Some(Ok(nil));
                    Request::Define(f, self.local_depth)
                },
                Declaration::ClassDefinition(c) => {
                    let nil = self.nil;
                    self.outcome = Some(Ok(nil));
                    Request::DefineClass(c)
                },
                _ => {
                    let nil = self.nil;
                    self.finish(Ok(nil))
                },
            },
            Task::Stmt(st) => {
                proof {
                    assert(s.tasks =~= self@.tasks.push(SpecTask::Stmt(st@)));
                }
                self.start_statement(ast, st)
            },
            Task::Decls(ds, last) => {
                let mut ds = ds;
                let ghost vd = view_decls(ds@);
                if ds.len() == 0 {
                    self.finish(Ok(last))
                } else {
                    let first = ds.remove(0);
                    proof {
                        assert(view_decls(ds@) =~= vd.drop_first());
                        assert(first@ == vd[0]);
                    }
                    let comment = match &first {
                        Declaration::Comment(_) => true,
                        _ => false,
                    };
                    self.push_task(Task::Decls(ds, last));
                    if !comment {
                        self.push_task(Task::Decl(first));
                    }
                    self.proceed()
                }
            },
            Task::Print(items) => {
                let mut items = items;
                if items.len() == 0 {
                    let nil = self.nil;
                    self.finish(Ok(nil))
                } else {
                    let first = items.remove(0);
                    self.ask(Task::Print(items), first)
                }
            },
            Task::Roots(last) => if self.head < ast.roots.len() {
                let d = copy_declaration(&ast.roots[self.head]);
                self.head = self.head + 1;
                self.push_task(Task::Roots(last));
                self.push_task(Task::Decl(d));
                self.proceed()
            } else {
                Request::Done(Ok(last))
            },
            _ => self.proceed(),
        }
    }

    /// One step on the reply `reply`: gives the next request.
    pub fn step(&mut self, ast: &AST, reply: Reply<V>) -> (q: Request<V>)
        ensures
            (final(self)@, q@) == spec_step(*ast, old(self)@, reply),
    {
        match self.wait {
            Wait::Value => self.take_value(reply),
            Wait::Bool => self.take_bool(ast, reply),
            Wait::Nothing => match self.outcome.take() {
                Some(r) => self.deliver(r),
                None => self.start(ast),
            },
        }
    }
}

} // verus!

verus! {

/// A call ends the same way however its body ended: the scope it opened is
/// closed, the locals and the base of its scope are given back, and the method
/// flag, scope depth and what the evaluator waits for are those from before
/// the call.
pub proof fn lemma_call_end_restores<V>(
    ast: AST,
    s: EvalView<V>,
    r: Result<V, RuntimeError<V>>,
    reply: Reply<V>,
)
    requires
        s.wait == Wait::Nothing,
        s.outcome == Some(r),
        s.tasks.len() > 0,
        s.tasks.last() is Call,
    ensures
        ({
            let (t, q) = spec_step(ast, s, reply);
            let (frame, m, d, inst, w) = match s.tasks.last() {
                SpecTask::Call(f, m, d, i, w) => (f, m, d, i, w),
                _ => arbitrary(),
            };
            &&& t.tasks == s.tasks.drop_last()
            &&& t.scopes == pop_scope(s.scopes)
            &&& t.values == cut(s.values, frame.len)
            &&& t.bases == restore::<V>(s.bases, frame.scope, frame.base)
            &&& t.in_method == m
            &&& t.local_depth == d
            &&& t.wait == w
            &&& t.outcome is None
            &&& q == SpecRequest::Returned(
                match inst {
                    None => spec_call_result(r),
                    Some(i) => spec_construct_result(r, i),
                },
            )
        }),
{
}

/// A `break` ends the innermost loop only: that loop's task ends normally,
/// and the task below it takes a normal end.
pub proof fn lemma_break_ends_the_innermost_loop<V>(
    ast: AST,
    s: EvalView<V>,
    span: Span,
    reply: Reply<V>,
)
    requires
        s.wait == Wait::Nothing,
        s.outcome == Some(Err::<V, RuntimeError<V>>(RuntimeError::Break(span))),
        s.tasks.len() > 0,
        s.tasks.last() is Body,
    ensures
        ({
            let (t, q) = spec_step(ast, s, reply);
            &&& t.tasks == s.tasks.drop_last()
            &&& t.outcome == Some(Ok::<V, RuntimeError<V>>(s.nil))
            &&& q == SpecRequest::<V>::Go
        }),
{
}

/// A `return` leaves a loop at once: the loop's task ends with it.
pub proof fn lemma_return_leaves_the_loop<V>(
    ast: AST,
    s: EvalView<V>,
    v: V,
    span: Span,
    reply: Reply<V>,
)
    requires
        s.wait == Wait::Nothing,
        s.outcome == Some(Err::<V, RuntimeError<V>>(RuntimeError::Return(v, span))),
        s.tasks.len() > 0,
        s.tasks.last() is Body,
    ensures
        ({
            let (t, q) = spec_step(ast, s, reply);
            &&& t.tasks == s.tasks.drop_last()
            &&& t.outcome == Some(Err::<V, RuntimeError<V>>(RuntimeError::Return(v, span)))
        }),
{
}

/// The top-level run takes the declarations from `head` on, one at a time and
/// in order: a step moves `head` only by starting the run's task, and then by
/// one, running the declaration at the old `head` next.
pub proof fn lemma_roots_run_in_order<V>(ast: AST, s: EvalView<V>, reply: Reply<V>)
    ensures
        ({
            let (t, q) = spec_step(ast, s, reply);
            ||| t.head == s.head
            ||| {
                &&& t.head == (s.head + 1) as usize
                &&& s.head < ast.roots@.len()
                &&& s.tasks.len() > 0
                &&& s.tasks.last() is Roots
                &&& t.tasks == s.tasks.drop_last().push(s.tasks.last()).push(
                    SpecTask::Decl(ast.roots@[s.head as int]@),
                )
            }
        }),
{
    if s.wait == Wait::Nothing && s.outcome is None && s.tasks.len() > 0 {
        match s.tasks.last() {
            SpecTask::Roots(last) => {
                if s.head < ast.roots@.len() {
                    let (t, q) = spec_step(ast, s, reply);
                    assert(t.tasks == s.tasks.drop_last().push(SpecTask::Roots(last)).push(
                        SpecTask::Decl(ast.roots@[s.head as int]@),
                    ));
                }
            },
            _ => {},
        }
    }
}

} // verus!

verus! {

/// The requests a `print` of `items` makes when its items have the values
/// `vals`: each item's value is asked for, then printed, in order.
pub open spec fn print_trace<V>(items: Seq<ExprID>, vals: Seq<V>) -> Seq<SpecRequest<V>>
    decreases items.len(),
{
    if items.len() == 0 || vals.len() == 0 {
        Seq::empty()
    } else {
        seq![SpecRequest::Eval(items[0]), SpecRequest::Print(vals[0])] + print_trace(
            items.drop_first(),
            vals.drop_first(),
        )
    }
}

/// The evaluator run on a `print`'s items: a `Go`, then the value of the item
/// asked for, once per value in `vals`; the state it ends in and its requests.
pub open spec fn run_print<V>(ast: AST, s: EvalView<V>, vals: Seq<V>, span: Span) -> (
    EvalView<V>,
    Seq<SpecRequest<V>>,
)
    decreases vals.len(),
{
    if vals.len() == 0 {
        (s, Seq::empty())
    } else {
        let (s1, q1) = spec_step(ast, s, Reply::Go);
        let (s2, q2) = spec_step(ast, s1, Reply::Value(vals[0], span));
        let (s3, qs) = run_print(ast, s2, vals.drop_first(), span);
        (s3, seq![q1, q2] + qs)
    }
}

/// A `print` statement prints every one of its items, in order: starting it
/// leaves a task for its items; answering each request for an item's value
/// gives a request to print that value, then the next item is asked for; once
/// all are printed, the statement ends normally and nothing else changed.
pub proof fn lemma_print_prints_every_item<V>(
    ast: AST,
    s: EvalView<V>,
    items: Seq<ExprID>,
    vals: Seq<V>,
    span: Span,
)
    requires
        s.wait == Wait::Nothing,
        s.outcome is None,
        s.tasks.len() > 0,
        s.tasks.last() == SpecTask::<V>::Print(items),
        vals.len() == items.len(),
    ensures
        ({
            let (t, qs) = run_print(ast, s, vals, span);
            let (u, q) = spec_step(ast, t, Reply::Go);
            &&& qs == print_trace(items, vals)
            &&& qs.len() == 2 * items.len()
            &&& t == EvalView { tasks: s.tasks.drop_last().push(SpecTask::Print(Seq::empty())), ..s }
            &&& u == EvalView { tasks: s.tasks.drop_last(), outcome: Some(Ok(s.nil)), ..s }
            &&& q == SpecRequest::<V>::Go
        }),
    decreases vals.len(),
{
    if vals.len() == 0 {
        assert(items =~= Seq::<ExprID>::empty());
        assert(s.tasks.drop_last().push(SpecTask::Print(Seq::empty())) =~= s.tasks);
    } else {
        let rest = s.tasks.drop_last();
        let (s1, q1) = spec_step(ast, s, Reply::Go);
        assert(s1 == EvalView {
            tasks: rest.push(SpecTask::Print(items.drop_first())),
            wait: Wait::Value,
            ..s
        });
        assert(q1 == SpecRequest::<V>::Eval(items[0]));
        let (s2, q2) = spec_step(ast, s1, Reply::Value(vals[0], span));
        assert(s1.tasks.drop_last() =~= rest);
        assert(s2 == EvalView { tasks: rest.push(SpecTask::Print(items.drop_first())), ..s });
        assert(q2 == SpecRequest::Print(vals[0]));
        lemma_print_prints_every_item(ast, s2, items.drop_first(), vals.drop_first(), span);
        assert(s2.tasks.drop_last() =~= rest);
        let (s3, qs) = run_print(ast, s2, vals.drop_first(), span);
        assert(run_print(ast, s, vals, span).1 == seq![q1, q2] + qs);
        assert(seq![q1, q2] + qs =~= print_trace(items, vals));
    }
}

/// Starting a `print` statement leaves a task for all of its items, in order.
pub proof fn lemma_print_starts_with_all_items<V>(ast: AST, s: EvalView<V>, items: Seq<ExprID>)
    requires
        s.wait == Wait::Nothing,
        s.outcome is None,
        s.tasks.len() > 0,
        s.tasks.last() == SpecTask::<V>::Stmt(SpecStatement::PrintStatement(items)),
    ensures
        spec_step(ast, s, Reply::Go) == (
            EvalView { tasks: s.tasks.drop_last().push(SpecTask::Print(items)), ..s },
            SpecRequest::<V>::Go,
        ),
{
}

} // verus!

verus! {

/// The evaluator answered `n` times that the condition asked does not hold.
pub open spec fn answer_false<V>(ast: AST, s: EvalView<V>, n: nat) -> (
    EvalView<V>,
    Seq<SpecRequest<V>>,
)
    decreases n,
{
    if n == 0 {
        (s, Seq::empty())
    } else {
        let (s1, q1) = spec_step(ast, s, Reply::Bool(false));
        let (s2, qs) = answer_false(ast, s1, (n - 1) as nat);
        (s2, seq![q1] + qs)
    }
}

/// An `if` runs the branch of its first condition that holds: after the
/// first `k` conditions fail, the next one is asked for, the conditions are
/// asked for in order, and when it holds its branch, and only it, runs next.
pub proof fn lemma_if_runs_the_first_branch_that_holds<V>(
    ast: AST,
    s: EvalView<V>,
    bs: Seq<(ExprID, SpecStatement)>,
    other: Option<StatementID>,
    k: nat,
)
    requires
        s.wait == Wait::Bool,
        s.tasks.len() > 0,
        s.tasks.last() == SpecTask::<V>::Branches(bs, other),
        k < bs.len(),
    ensures
        ({
            let rest = s.tasks.drop_last();
            let (t, qs) = answer_false(ast, s, k);
            &&& t == EvalView {
                tasks: rest.push(SpecTask::Branches(bs.subrange(k as int, bs.len() as int), other)),
                ..s
            }
            &&& qs.len() == k
            &&& forall|i: int| 0 <= i < k ==> qs[i] == SpecRequest::<V>::Test(bs[i + 1].0)
            &&& spec_step(ast, t, Reply::Bool(true)) == (
                EvalView {
                    tasks: rest.push(SpecTask::Stmt(bs[k as int].1)),
                    wait: Wait::Nothing,
                    ..s
                },
                SpecRequest::<V>::Go,
            )
        }),
    decreases k,
{
    let rest = s.tasks.drop_last();
    if k == 0 {
        assert(bs.subrange(0, bs.len() as int) =~= bs);
        assert(rest.push(SpecTask::Branches(bs, other)) =~= s.tasks);
    } else {
        let (s1, q1) = spec_step(ast, s, Reply::Bool(false));
        assert(s1 == EvalView {
            tasks: rest.push(SpecTask::Branches(bs.drop_first(), other)),
            ..s
        });
        assert(q1 == SpecRequest::<V>::Test(bs[1].0));
        lemma_if_runs_the_first_branch_that_holds(ast, s1, bs.drop_first(), other, (k - 1) as nat);
        assert(s1.tasks.drop_last() =~= rest);
        assert(bs.drop_first().subrange((k - 1) as int, bs.drop_first().len() as int) =~= bs.subrange(
            k as int,
            bs.len() as int,
        ));
        let (t, qs1) = answer_false(ast, s1, (k - 1) as nat);
        assert(answer_false(ast, s, k).1 == seq![q1] + qs1);
        assert forall|i: int| 0 <= i < k implies (seq![q1] + qs1)[i] == SpecRequest::<V>::Test(bs[i + 1].0) by {
            if i > 0 {
                assert((seq![q1] + qs1)[i] == qs1[i - 1]);
                assert(bs.drop_first()[i] == bs[i + 1]);
            }
        }
    }
}

/// A `while` whose condition fails ends normally; one whose condition holds
/// runs its body; a body that ends normally or with `continue` has the same
/// condition asked again, with the loop as it was; a body ending in `break`
/// ends the loop normally; and any other error leaves the loop with it.
pub proof fn lemma_while_loops<V>(
    ast: AST,
    s: EvalView<V>,
    c: ExprID,
    b: StatementID,
    r: Result<V, RuntimeError<V>>,
)
    requires
        s.tasks.len() > 0,
        s.tasks.last() == SpecTask::<V>::While(c, b),
        s.wait == Wait::Bool,
        b < ast.statement_arena@.len(),
    ensures
        ({
            let rest = s.tasks.drop_last();
            let (t0, q0) = spec_step(ast, s, Reply::Bool(false));
            let (t1, q1) = spec_step(ast, s, Reply::Bool(true));
            let after = EvalView {
                tasks: rest.push(SpecTask::Body(c, b)),
                outcome: Some(r),
                wait: Wait::Nothing,
                ..s
            };
            let (t2, q2) = spec_step(ast, after, Reply::Go);
            &&& t0 == EvalView { tasks: rest, outcome: Some(Ok(s.nil)), wait: Wait::Nothing, ..s }
            &&& q0 == SpecRequest::<V>::Go
            &&& t1 == EvalView {
                tasks: rest.push(SpecTask::Body(c, b)).push(
                    SpecTask::Stmt(ast.statement_arena@[b as int]@),
                ),
                wait: Wait::Nothing,
                ..s
            }
            &&& (r is Ok || r matches Err(RuntimeError::Continue(_))) ==> (t2 == EvalView {
                tasks: rest.push(SpecTask::While(c, b)),
                outcome: None,
                wait: Wait::Bool,
                ..s
            } && q2 == SpecRequest::<V>::Test(c))
            &&& r matches Err(RuntimeError::Break(_)) ==> t2 == EvalView {
                tasks: rest,
                outcome: Some(Ok(s.nil)),
                wait: Wait::Nothing,
                ..s
            }
            &&& (r matches Err(e) && !(e is Break) && !(e is Continue)) ==> t2 == EvalView {
                tasks: rest,
                outcome: Some(r),
                wait: Wait::Nothing,
                ..s
            }
        }),
{
    let rest = s.tasks.drop_last();
    let after = EvalView {
        tasks: rest.push(SpecTask::Body(c, b)),
        outcome: Some(r),
        wait: Wait::Nothing,
        ..s
    };
    assert(after.tasks.drop_last() =~= rest);
}

/// A block gives back what it opened, however it ends: whatever its
/// declarations did to the scope it opened and to the locals pushed in it,
/// closing it leaves the named variables, the locals, the block depth and the
/// scope depth as they were before it began (bases that were there included),
/// and passes on how it ended.
pub proof fn lemma_block_gives_back_its_scopes<V>(
    ast: AST,
    s: EvalView<V>,
    ds: Seq<SpecDeclaration>,
    inner: SpecVars<V>,
    pushed: Seq<V>,
    r: Result<V, RuntimeError<V>>,
)
    requires
        s.wait == Wait::Nothing,
        s.outcome is None,
        s.tasks.len() > 0,
        s.tasks.last() == SpecTask::<V>::Stmt(SpecStatement::Block(ds)),
        s.depth < usize::MAX,
        s.local_depth < usize::MAX,
        s.values.len() < usize::MAX,
    ensures
        ({
            let (t, q) = spec_step(ast, s, Reply::Go);
            let closing = EvalView {
                tasks: t.tasks.drop_last(),
                outcome: Some(r),
                scopes: s.scopes.push(inner),
                values: s.values + pushed,
                ..t
            };
            let (u, q2) = spec_step(ast, closing, Reply::Go);
            &&& t.tasks.last() == SpecTask::<V>::Decls(ds, s.nil)
            &&& t.scopes == s.scopes.push(Seq::empty())
            &&& u.tasks == s.tasks.drop_last()
            &&& u.scopes == s.scopes
            &&& u.values == s.values
            &&& u.depth == s.depth
            &&& u.local_depth == s.local_depth
            &&& u.bases.len() >= s.bases.len()
            &&& forall|i: int| 0 <= i < s.bases.len() ==> #[trigger] u.bases[i] == s.bases[i]
            &&& u.outcome == Some(r)
        }),
{
    let (t, q) = spec_step(ast, s, Reply::Go);
    let closing = EvalView {
        tasks: t.tasks.drop_last(),
        outcome: Some(r),
        scopes: s.scopes.push(inner),
        values: s.values + pushed,
        ..t
    };
    assert(closing.tasks.drop_last() =~= s.tasks.drop_last());
    assert((s.values + pushed).take(s.values.len() as int) =~= s.values);
    assert(s.scopes.push(inner).drop_last() =~= s.scopes);
}

/// A declared variable has the declared value: at the top level or in a method
/// it is found by its name; elsewhere it is the newest local.
pub proof fn lemma_declared_variable_has_its_value<V>(
    s: EvalView<V>,
    name: Seq<char>,
    v: V,
    span: Span,
)
    requires
        s.wait == Wait::Value,
        s.tasks.len() > 0,
        s.tasks.last() == SpecTask::<V>::Bind(name),
        s.scopes.len() > 0,
    ensures
        ({
            let (t, q) = spec_take_value(s, Reply::Value(v, span));
            &&& t.outcome == Some(Ok::<V, RuntimeError<V>>(v))
            &&& (s.depth == 0 || s.in_method) ==> value_of(t.scopes, name) == Some(v)
                && t.values == s.values
            &&& !(s.depth == 0 || s.in_method) ==> t.values == s.values.push(v) && t.scopes
                == s.scopes
        }),
{
    crate::interpreter::environment::lemma_get_after_add(s.scopes, name, v);
}

/// An error goes up through the tasks of blocks and loops unchanged (a loop
/// takes only `break` and `continue`), and a call turns a `return` into its
/// result.
pub proof fn lemma_errors_go_up<V>(ast: AST, s: EvalView<V>, e: RuntimeError<V>, v: V, span: Span)
    requires
        s.wait == Wait::Nothing,
        s.outcome == Some(Err::<V, RuntimeError<V>>(e)),
        s.tasks.len() > 0,
        !(e is Break),
        !(e is Continue),
    ensures
        ({
            let (t, q) = spec_step(ast, s, Reply::Go);
            &&& (s.tasks.last() is Decls || s.tasks.last() is Close || s.tasks.last() is Body)
                ==> t.outcome == Some(Err::<V, RuntimeError<V>>(e)) && t.tasks == s.tasks.drop_last()
            &&& (s.tasks.last() matches SpecTask::Call(_, _, _, None, _) && e == RuntimeError::<V>::Return(v, span))
                ==> q == SpecRequest::Returned(Ok::<V, RuntimeError<V>>(v))
        }),
{
}

} // verus!

verus! {

/// The evaluator run on a block's declarations, each ending normally with the
/// next of `vals`: the state it ends in, and the declarations it started.
pub open spec fn run_decls<V>(ast: AST, s: EvalView<V>, vals: Seq<V>) -> (
    EvalView<V>,
    Seq<SpecTask<V>>,
)
    decreases vals.len(),
{
    if vals.len() == 0 {
        (s, Seq::empty())
    } else {
        let (s1, _) = spec_step(ast, s, Reply::Go);
        let done = EvalView { tasks: s1.tasks.drop_last(), outcome: Some(Ok(vals[0])), ..s1 };
        let (s2, _) = spec_step(ast, done, Reply::Go);
        let (s3, started) = run_decls(ast, s2, vals.drop_first());
        (s3, seq![s1.tasks.last()] + started)
    }
}

/// A block runs its declarations once each, in order, and its value is the
/// value of the last one (or `nil` for a block with none).
pub proof fn lemma_block_runs_its_declarations_in_order<V>(
    ast: AST,
    s: EvalView<V>,
    ds: Seq<SpecDeclaration>,
    last: V,
    vals: Seq<V>,
)
    requires
        s.wait == Wait::Nothing,
        s.outcome is None,
        s.tasks.len() > 0,
        s.tasks.last() == SpecTask::<V>::Decls(ds, last),
        vals.len() == ds.len(),
        forall|i: int| 0 <= i < ds.len() ==> !(#[trigger] ds[i] is Comment),
    ensures
        ({
            let (t, started) = run_decls(ast, s, vals);
            let (u, q) = spec_step(ast, t, Reply::Go);
            &&& started.len() == ds.len()
            &&& forall|i: int| 0 <= i < ds.len() ==> #[trigger] started[i] == SpecTask::<V>::Decl(ds[i])
            &&& u.tasks == s.tasks.drop_last()
            &&& u.outcome == Some(Ok::<V, RuntimeError<V>>(if vals.len() == 0 {
                last
            } else {
                vals.last()
            }))
        }),
    decreases vals.len(),
{
    let rest = s.tasks.drop_last();
    if vals.len() == 0 {
        assert(ds =~= Seq::<SpecDeclaration>::empty());
    } else {
        assert(!(ds[0] is Comment));
        let (s1, _) = spec_step(ast, s, Reply::Go);
        assert(s1 == EvalView {
            tasks: rest.push(SpecTask::Decls(ds.drop_first(), last)).push(SpecTask::Decl(ds[0])),
            ..s
        });
        let done = EvalView { tasks: s1.tasks.drop_last(), outcome: Some(Ok(vals[0])), ..s1 };
        assert(done.tasks =~= rest.push(SpecTask::Decls(ds.drop_first(), last)));
        let (s2, _) = spec_step(ast, done, Reply::Go);
        assert(done.tasks.drop_last() =~= rest);
        assert(s2 == EvalView {
            tasks: rest.push(SpecTask::Decls(ds.drop_first(), vals[0])),
            ..s
        });
        assert forall|i: int| 0 <= i < ds.drop_first().len() implies !(#[trigger] ds.drop_first()[i] is Comment) by {
            assert(ds.drop_first()[i] == ds[i + 1]);
        }
        lemma_block_runs_its_declarations_in_order(ast, s2, ds.drop_first(), vals[0], vals.drop_first());
        assert(s2.tasks.drop_last() =~= rest);
        let (s3, started) = run_decls(ast, s2, vals.drop_first());
        assert forall|i: int| 0 <= i < ds.len() implies #[trigger] (seq![s1.tasks.last()] + started)[i]
            == SpecTask::<V>::Decl(ds[i]) by {
            if i > 0 {
                assert((seq![s1.tasks.last()] + started)[i] == started[i - 1]);
                assert(ds.drop_first()[i - 1] == ds[i]);
            }
        }
        if vals.len() > 1 {
            assert(vals.drop_first().last() == vals.last());
        }
    }
}

/// The value of a `return` is the result of the call it is in.
pub proof fn lemma_return_value_is_the_result<V>(
    ast: AST,
    s: EvalView<V>,
    frame: CallFrame,
    m: bool,
    d: usize,
    w: Wait,
    v: V,
    span: Span,
)
    requires
        s.wait == Wait::Value,
        s.tasks.len() > 1,
        s.tasks.last() == SpecTask::<V>::Ret,
        s.tasks[s.tasks.len() - 2] == SpecTask::<V>::Call(frame, m, d, None, w),
    ensures
        ({
            let (t, _) = spec_step(ast, s, Reply::Value(v, span));
            let (u, q) = spec_step(ast, t, Reply::Go);
            q == SpecRequest::Returned(Ok::<V, RuntimeError<V>>(v))
        }),
{
    let (t, _) = spec_step(ast, s, Reply::Value(v, span));
    assert(t.tasks == s.tasks.drop_last());
    assert(t.tasks.last() == s.tasks[s.tasks.len() - 2]);
}

} // verus!
