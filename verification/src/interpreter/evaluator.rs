//! The evaluator's decisions that do not compute on numbers: its errors and
//! their messages, how a loop and a call take what their body ends with, the
//! short-circuit of `&&` and `||`, which operand kinds each binary operator
//! accepts, the arity check of calls, and the stack of local variables with
//! its scopes. Values are a type parameter: the numbers of the language are
//! floating point, which the caller computes on.
use crate::diagnostic::{Diagnostic, Span, Stage};
use crate::interpreter::environment::{Environment, SpecVars, find_var, value_of};
use crate::parser::parser::{Operator, Unary, spec_operator_name};
use crate::text::{push_decimal, push_str, spec_decimal};
use vstd::prelude::*;

verus! {

/// Why evaluation stopped. `Break`, `Continue` and `Return` travel up to the
/// loop or the call that takes them; past it they are errors. Where an error
/// names a value it holds the value as it is shown.
#[derive(Debug)]
pub enum RuntimeError<V> {
    UnexpectedType(String, String, Option<Span>),
    ForbiddenUnaryOperation(Unary, String, Span),
    ForbiddenBinaryOperation(Operator, String, String, Span),
    Break(Span),
    Continue(Span),
    Return(V, Span),
    NotCallable(String, Span),
    UnknownFunction(String, Option<Span>),
    InvalidSignature { name: String, expected: usize, actual: usize, span: Option<Span> },
    Ungetable(String, Span),
    UndeclaredIdentifier(String, Span),
    SelfOutsideConstructor(Option<Span>),
    InvalidAssignmentTarget(Option<Span>),
}

pub open spec fn unary_name(u: Unary) -> Seq<char> {
    match u {
        Unary::Not(_) => "Not"@,
        Unary::Minus(_) => "Minus"@,
    }
}

/// The message of a runtime error.
pub open spec fn runtime_message<V>(e: RuntimeError<V>) -> Seq<char> {
    match e {
        RuntimeError::UnexpectedType(v, expected, _) => "Invalid type: "@ + v@ + ", Expected : "@
            + expected@,
        RuntimeError::ForbiddenUnaryOperation(u, v, _) => "Forbidden operator: "@ + unary_name(u)
            + " on "@ + v@,
        RuntimeError::ForbiddenBinaryOperation(o, l, r, _) => "Forbidden operator: "@
            + spec_operator_name(o) + " on "@ + l@ + " and "@ + r@,
        RuntimeError::Break(_) => "Break should be in while loop"@,
        RuntimeError::Continue(_) => "Continue should be in while loop"@,
        RuntimeError::Return(_, _) => "invalid return: return should be in function"@,
        RuntimeError::NotCallable(v, _) => v@ + " is not callable"@,
        RuntimeError::UnknownFunction(name, _) => "unknown function: "@ + name@,
        RuntimeError::InvalidSignature { name, expected, actual, .. } => name@ + " expects "@
            + spec_decimal(expected as nat) + " argument"@ + (if expected == 1 {
            Seq::empty()
        } else {
            "s"@
        }) + ", got "@ + spec_decimal(actual as nat),
        RuntimeError::Ungetable(v, _) => v@ + " is not getable"@,
        RuntimeError::UndeclaredIdentifier(name, _) => "Undeclared variable: "@ + name@,
        RuntimeError::SelfOutsideConstructor(_) => "self can only be used inside a constructor"@,
        RuntimeError::InvalidAssignmentTarget(_) =>
            "invalid assignment target: expected a variable or a field"@,
    }
}

/// Where a runtime error points.
pub open spec fn runtime_span<V>(e: RuntimeError<V>) -> Option<Span> {
    match e {
        RuntimeError::UnexpectedType(_, _, span) => span,
        RuntimeError::ForbiddenUnaryOperation(_, _, span) => Some(span),
        RuntimeError::ForbiddenBinaryOperation(_, _, _, span) => Some(span),
        RuntimeError::Break(span) => Some(span),
        RuntimeError::Continue(span) => Some(span),
        RuntimeError::Return(_, span) => Some(span),
        RuntimeError::NotCallable(_, span) => Some(span),
        RuntimeError::UnknownFunction(_, span) => span,
        RuntimeError::InvalidSignature { span, .. } => span,
        RuntimeError::Ungetable(_, span) => Some(span),
        RuntimeError::UndeclaredIdentifier(_, span) => Some(span),
        RuntimeError::SelfOutsideConstructor(span) => span,
        RuntimeError::InvalidAssignmentTarget(span) => span,
    }
}

impl<V> Diagnostic for RuntimeError<V> {
    open spec fn spec_stage(&self) -> Stage {
        Stage::Runtime
    }

    open spec fn spec_span(&self) -> Option<Span> {
        runtime_span(*self)
    }

    open spec fn spec_message(&self) -> Seq<char> {
        runtime_message(*self)
    }

    fn stage(&self) -> (s: Stage) {
        Stage::Runtime
    }

    fn span(&self) -> (s: Option<Span>) {
        match self {
            RuntimeError::UnexpectedType(_, _, span) => *span,
            RuntimeError::ForbiddenUnaryOperation(_, _, span) => Some(*span),
            RuntimeError::ForbiddenBinaryOperation(_, _, _, span) => Some(*span),
            RuntimeError::Break(span) => Some(*span),
            RuntimeError::Continue(span) => Some(*span),
            RuntimeError::Return(_, span) => Some(*span),
            RuntimeError::NotCallable(_, span) => Some(*span),
            RuntimeError::UnknownFunction(_, span) => *span,
            RuntimeError::InvalidSignature { span, .. } => *span,
            RuntimeError::Ungetable(_, span) => Some(*span),
            RuntimeError::UndeclaredIdentifier(_, span) => Some(*span),
            RuntimeError::SelfOutsideConstructor(span) => *span,
            RuntimeError::InvalidAssignmentTarget(span) => *span,
        }
    }

    fn message(&self) -> (m: String) {
        let mut s = String::new();
        match self {
            RuntimeError::UnexpectedType(v, expected, _) => {
                push_str(&mut s, "Invalid type: ");
                push_str(&mut s, v.as_str());
                push_str(&mut s, ", Expected : ");
                push_str(&mut s, expected.as_str());
            },
            RuntimeError::ForbiddenUnaryOperation(u, v, _) => {
                push_str(&mut s, "Forbidden operator: ");
                let name = u.to_string();
                push_str(&mut s, name.as_str());
                push_str(&mut s, " on ");
                push_str(&mut s, v.as_str());
            },
            RuntimeError::ForbiddenBinaryOperation(o, l, r, _) => {
                push_str(&mut s, "Forbidden operator: ");
                let name = o.to_string();
                push_str(&mut s, name.as_str());
                push_str(&mut s, " on ");
                push_str(&mut s, l.as_str());
                push_str(&mut s, " and ");
                push_str(&mut s, r.as_str());
            },
            RuntimeError::Break(_) => push_str(&mut s, "Break should be in while loop"),
            RuntimeError::Continue(_) => push_str(&mut s, "Continue should be in while loop"),
            RuntimeError::Return(_, _) => push_str(
                &mut s,
                "invalid return: return should be in function",
            ),
            RuntimeError::NotCallable(v, _) => {
                push_str(&mut s, v.as_str());
                push_str(&mut s, " is not callable");
            },
            RuntimeError::UnknownFunction(name, _) => {
                push_str(&mut s, "unknown function: ");
                push_str(&mut s, name.as_str());
            },
            RuntimeError::InvalidSignature { name, expected, actual, .. } => {
                push_str(&mut s, name.as_str());
                push_str(&mut s, " expects ");
                push_decimal(&mut s, *expected);
                push_str(&mut s, " argument");
                if *expected != 1 {
                    push_str(&mut s, "s");
                }
                push_str(&mut s, ", got ");
                push_decimal(&mut s, *actual);
            },
            RuntimeError::Ungetable(v, _) => {
                push_str(&mut s, v.as_str());
                push_str(&mut s, " is not getable");
            },
            RuntimeError::UndeclaredIdentifier(name, _) => {
                push_str(&mut s, "Undeclared variable: ");
                push_str(&mut s, name.as_str());
            },
            RuntimeError::SelfOutsideConstructor(_) => push_str(
                &mut s,
                "self can only be used inside a constructor",
            ),
            RuntimeError::InvalidAssignmentTarget(_) => push_str(
                &mut s,
                "invalid assignment target: expected a variable or a field",
            ),
        }
        proof {
            reveal_strlit("");
            assert(s@ =~= runtime_message(*self));
        }
        s
    }
}

/// What a loop does once its body has ended with `r`: a `break` ends this
/// loop (and only it: the loop itself then ends normally); a `continue` or a
/// normal end tests the condition again; any other error, a `return` among
/// them, leaves the loop at once, so that a `return` ends its function.
pub enum LoopStep<V> {
    Retest,
    Finish,
    Fail(RuntimeError<V>),
}

pub open spec fn spec_after_body<V>(r: Result<V, RuntimeError<V>>) -> LoopStep<V> {
    match r {
        Ok(_) => LoopStep::Retest,
        Err(RuntimeError::Break(_)) => LoopStep::Finish,
        Err(RuntimeError::Continue(_)) => LoopStep::Retest,
        Err(e) => LoopStep::Fail(e),
    }
}

pub fn after_body<V>(r: Result<V, RuntimeError<V>>) -> (step: LoopStep<V>)
    ensures
        step == spec_after_body(r),
{
    match r {
        Ok(_) => LoopStep::Retest,
        Err(RuntimeError::Break(_)) => LoopStep::Finish,
        Err(RuntimeError::Continue(_)) => LoopStep::Retest,
        Err(e) => LoopStep::Fail(e),
    }
}

/// What a `while` statement ends with, once the step of its last body run was
/// `step` (or its condition was false, `None`): `nil` when it ends normally,
/// the error when the body failed.
pub open spec fn spec_loop_result<V>(step: Option<LoopStep<V>>, nil: V) -> Result<V, RuntimeError<V>> {
    match step {
        Some(LoopStep::Fail(e)) => Err(e),
        _ => Ok(nil),
    }
}

/// A `break` ends only the innermost loop: that loop ends normally, so a loop
/// around it, whose body it is part of, goes on to test its condition again.
/// A `return` inside loops, on the other hand, leaves every one of them.
pub proof fn lemma_break_ends_only_the_innermost_loop<V>(span: Span, v: V, nil: V)
    ensures
        spec_after_body(Err::<V, RuntimeError<V>>(RuntimeError::Break(span))) == LoopStep::<V>::Finish,
        spec_loop_result(Some(LoopStep::<V>::Finish), nil) == Ok::<V, RuntimeError<V>>(nil),
        spec_after_body(spec_loop_result(Some(LoopStep::<V>::Finish), nil)) == LoopStep::<V>::Retest,
        spec_after_body(Err::<V, RuntimeError<V>>(RuntimeError::Return(v, span)))
            == LoopStep::Fail(RuntimeError::Return(v, span)),
        spec_loop_result(Some(LoopStep::Fail(RuntimeError::Return(v, span))), nil) == Err::<
            V,
            RuntimeError<V>,
        >(RuntimeError::Return(v, span)),
{
}

/// What a call gives for what its body ended with: a `return` ends the call
/// with its value; a body that ends normally gives the value of its last
/// declaration; any other error goes on up.
pub open spec fn spec_call_result<V>(r: Result<V, RuntimeError<V>>) -> Result<V, RuntimeError<V>> {
    match r {
        Err(RuntimeError::Return(v, _)) => Ok(v),
        other => other,
    }
}

pub fn call_result<V>(r: Result<V, RuntimeError<V>>) -> (out: Result<V, RuntimeError<V>>)
    ensures
        out == spec_call_result(r),
{
    match r {
        Err(RuntimeError::Return(v, _)) => Ok(v),
        other => other,
    }
}

/// What a constructor call gives: the new instance when the constructor's body
/// ends normally, the value of a `return` in it, or the error it ended with.
pub open spec fn spec_construct_result<V>(r: Result<V, RuntimeError<V>>, instance: V) -> Result<
    V,
    RuntimeError<V>,
> {
    match r {
        Ok(_) => Ok(instance),
        Err(RuntimeError::Return(v, _)) => Ok(v),
        Err(e) => Err(e),
    }
}

pub fn construct_result<V>(r: Result<V, RuntimeError<V>>, instance: V) -> (out: Result<
    V,
    RuntimeError<V>,
>)
    ensures
        out == spec_construct_result(r, instance),
{
    match r {
        Ok(_) => Ok(instance),
        Err(RuntimeError::Return(v, _)) => Ok(v),
        Err(e) => Err(e),
    }
}

/// Whether the left side of `&&` (`is_and`) or `||` decides the result alone,
/// so that the right side is not evaluated: a false left side of `&&`, a true
/// one of `||`. The result is then the left side.
pub fn left_decides(is_and: bool, left: bool) -> (decides: bool)
    ensures
        decides == (if is_and {
            !left
        } else {
            left
        }),
{
    if is_and {
        !left
    } else {
        left
    }
}

/// A call of `name`, which takes `expected` arguments, with `actual` of them:
/// an `InvalidSignature` error unless the two agree.
pub fn check_arity<V>(name: &str, expected: usize, actual: usize, span: Span) -> (r: Result<
    (),
    RuntimeError<V>,
>)
    ensures
        expected == actual <==> r is Ok,
        r matches Err(e) ==> (e matches RuntimeError::InvalidSignature {
            name: n,
            expected: x,
            actual: a,
            span: s,
        } && n@ == name@ && x == expected && a == actual && s == Some(span)),
{
    if expected == actual {
        Ok(())
    } else {
        let mut n = String::new();
        push_str(&mut n, name);
        proof {
            reveal_strlit("");
            assert(n@ =~= name@);
        }
        Err(RuntimeError::InvalidSignature { name: n, expected, actual, span: Some(span) })
    }
}

/// The kind of a value, as binary operators look at it.
#[derive(Clone, Copy, Debug, PartialEq, Eq, Structural)]
pub enum Kind {
    Number,
    Str,
    Bool,
    Nil,
    Instance,
}

/// What a binary operator computes on, once its operands' kinds are accepted.
#[derive(Clone, Copy, Debug, PartialEq, Eq, Structural)]
pub enum BinaryCase {
    Numbers,
    Strings,
    Bools,
    Nils,
    StrNumber,
    NumberStr,
}

pub open spec fn is_equality(op: Operator) -> bool {
    op == Operator::Equal || op == Operator::NotEqual
}

pub open spec fn is_comparison(op: Operator) -> bool {
    is_equality(op) || op == Operator::Lesser || op == Operator::LesserEqual || op
        == Operator::Greater || op == Operator::GreaterEqual
}

/// Which operand kinds each operator accepts: numbers with every operator;
/// strings with `==`, `!=` and `+`; booleans with the comparisons; `nil` with
/// `==` and `!=`; a string and a number, either way round, with `+`.
pub open spec fn spec_binary_case(op: Operator, left: Kind, right: Kind) -> Option<BinaryCase> {
    match (left, right) {
        (Kind::Number, Kind::Number) => Some(BinaryCase::Numbers),
        (Kind::Str, Kind::Str) => if is_equality(op) || op == Operator::Plus {
            Some(BinaryCase::Strings)
        } else {
            None
        },
        (Kind::Bool, Kind::Bool) => if is_comparison(op) {
            Some(BinaryCase::Bools)
        } else {
            None
        },
        (Kind::Nil, Kind::Nil) => if is_equality(op) {
            Some(BinaryCase::Nils)
        } else {
            None
        },
        (Kind::Str, Kind::Number) => if op == Operator::Plus {
            Some(BinaryCase::StrNumber)
        } else {
            None
        },
        (Kind::Number, Kind::Str) => if op == Operator::Plus {
            Some(BinaryCase::NumberStr)
        } else {
            None
        },
        _ => None,
    }
}

/// The operand kinds a case is for.
pub open spec fn case_kinds(c: BinaryCase) -> (Kind, Kind) {
    match c {
        BinaryCase::Numbers => (Kind::Number, Kind::Number),
        BinaryCase::Strings => (Kind::Str, Kind::Str),
        BinaryCase::Bools => (Kind::Bool, Kind::Bool),
        BinaryCase::Nils => (Kind::Nil, Kind::Nil),
        BinaryCase::StrNumber => (Kind::Str, Kind::Number),
        BinaryCase::NumberStr => (Kind::Number, Kind::Str),
    }
}

/// What binary operators accept: `==` and `!=` compare any two values of one
/// kind but instances; the comparisons `<`, `<=`, `>`, `>=` take two numbers
/// or two booleans; `+` takes two numbers, two strings, or a string and a
/// number either way round; `-`, `*` and `/` take two numbers only; and a case
/// given is always the one for the operands' kinds.
pub proof fn lemma_operators_accept(op: Operator, left: Kind, right: Kind)
    ensures
        spec_binary_case(op, left, right) matches Some(c) ==> case_kinds(c) == (left, right),
        is_equality(op) && left == right && left != Kind::Instance ==> spec_binary_case(
            op,
            left,
            right,
        ) is Some,
        is_comparison(op) && !is_equality(op) ==> (spec_binary_case(op, left, right) is Some
            <==> (left == right && (left == Kind::Number || left == Kind::Bool))),
        op == Operator::Plus ==> (spec_binary_case(op, left, right) is Some <==> (
        (left == Kind::Number || left == Kind::Str) && (right == Kind::Number || right == Kind::Str))),
        (op == Operator::Minus || op == Operator::Star || op == Operator::Slash) ==> (
        spec_binary_case(op, left, right) is Some <==> (left == Kind::Number && right
            == Kind::Number)),
        left == Kind::Instance || right == Kind::Instance ==> spec_binary_case(op, left, right)
            is None,
{
}

pub fn binary_case(op: Operator, left: Kind, right: Kind) -> (r: Option<BinaryCase>)
    ensures
        r == spec_binary_case(op, left, right),
{
    let equality = match op {
        Operator::Equal | Operator::NotEqual => true,
        _ => false,
    };
    let comparison = match op {
        Operator::Plus | Operator::Minus | Operator::Slash | Operator::Star => false,
        _ => true,
    };
    let plus = match op {
        Operator::Plus => true,
        _ => false,
    };
    match (left, right) {
        (Kind::Number, Kind::Number) => Some(BinaryCase::Numbers),
        (Kind::Str, Kind::Str) => if equality || plus {
            Some(BinaryCase::Strings)
        } else {
            None
        },
        (Kind::Bool, Kind::Bool) => if comparison {
            Some(BinaryCase::Bools)
        } else {
            None
        },
        (Kind::Nil, Kind::Nil) => if equality {
            Some(BinaryCase::Nils)
        } else {
            None
        },
        (Kind::Str, Kind::Number) => if plus {
            Some(BinaryCase::StrNumber)
        } else {
            None
        },
        (Kind::Number, Kind::Str) => if plus {
            Some(BinaryCase::NumberStr)
        } else {
            None
        },
        _ => None,
    }
}

/// The values of the resolved local variables, and where each scope's slots
/// begin. A local is found by its slot and its scope: at the scope's base plus
/// the slot.
pub struct Locals<V> {
    stack: Vec<V>,
    bases: Vec<usize>,
}

/// `bases` with zeros added so that it has at least `n` entries.
pub open spec fn extended(bases: Seq<usize>, n: int) -> Seq<usize> {
    if bases.len() >= n {
        bases
    } else {
        bases + Seq::new((n - bases.len()) as nat, |i: int| 0usize)
    }
}

impl<V> Locals<V> {
    /// The values, the first pushed first.
    pub closed spec fn values(&self) -> Seq<V> {
        self.stack@
    }

    /// Where each scope's slots begin.
    pub closed spec fn bases(&self) -> Seq<usize> {
        self.bases@
    }

    /// The index in the stack of the local `(slot, scope)`, if it is there.
    pub open spec fn index_of(&self, slot: int, scope: int) -> Option<int> {
        if 0 <= scope < self.bases().len() && 0 <= slot && slot + self.bases()[scope]
            < self.values().len() {
            Some(slot + self.bases()[scope])
        } else {
            None
        }
    }

    pub fn new() -> (r: Self)
        ensures
            r.values() == Seq::<V>::empty(),
            r.bases() == Seq::<usize>::empty(),
    {
        Locals { stack: Vec::new(), bases: Vec::new() }
    }

    /// How many values the stack holds.
    pub fn len(&self) -> (n: usize)
        ensures
            n == self.values().len(),
    {
        self.stack.len()
    }

    /// How many scopes have a base.
    pub fn scope_count(&self) -> (n: usize)
        ensures
            n == self.bases().len(),
    {
        self.bases.len()
    }

    /// Pushes the value of a newly declared local.
    pub fn push(&mut self, v: V)
        ensures
            final(self).values() == old(self).values().push(v),
            final(self).bases() == old(self).bases(),
    {
        self.stack.push(v);
    }

    /// Drops the values pushed after the first `len`.
    pub fn truncate(&mut self, len: usize)
        ensures
            final(self).values() == if len <= old(self).values().len() {
                old(self).values().take(len as int)
            } else {
                old(self).values()
            },
            final(self).bases() == old(self).bases(),
    {
        self.stack.truncate(len);
    }

    /// Opens `scope`: its slots now begin at the top of the stack. Gives back
    /// where they began before, for `close_scope`.
    pub fn open_scope(&mut self, scope: usize) -> (saved: usize)
        ensures
            final(self).values() == old(self).values(),
            final(self).bases() == extended(old(self).bases(), scope + 1).update(
                scope as int,
                old(self).values().len() as usize,
            ),
            saved == extended(old(self).bases(), scope + 1)[scope as int],
    {
        let ghost b0 = self.bases@;
        while self.bases.len() <= scope
            invariant
                self.stack == old(self).stack,
                b0 == old(self).bases@,
                b0.len() <= self.bases@.len(),
                self.bases@.len() <= if b0.len() > scope + 1 {
                    b0.len() as int
                } else {
                    scope + 1
                },
                self.bases@ =~= extended(b0, self.bases@.len() as int),
            decreases scope + 1 - self.bases@.len(),
        {
            let ghost before = self.bases@;
            self.bases.push(0);
            proof {
                assert(self.bases@ =~= extended(b0, self.bases@.len() as int));
            }
        }
        proof {
            assert(self.bases@ =~= extended(b0, scope + 1));
        }
        let saved = self.bases[scope];
        let top = self.stack.len();
        self.bases.set(scope, top);
        saved
    }

    /// Closes `scope`: the stack goes back to `len` values and the scope's
    /// slots begin where they began before it was opened.
    pub fn close_scope(&mut self, scope: usize, saved: usize, len: usize)
        requires
            scope < old(self).bases().len(),
            len <= old(self).values().len(),
        ensures
            final(self).values() == old(self).values().take(len as int),
            final(self).bases() == old(self).bases().update(scope as int, saved),
    {
        self.stack.truncate(len);
        self.bases.set(scope, saved);
    }

    /// The value of the local `(slot, scope)`; `None` where no value stands
    /// there.
    pub fn get(&self, slot: usize, scope: usize) -> (r: Option<&V>)
        ensures
            match self.index_of(slot as int, scope as int) {
                Some(i) => r == Some(&self.values()[i]),
                None => r is None,
            },
    {
        if scope < self.bases.len() && slot < self.stack.len() && self.bases[scope]
            < self.stack.len() - slot {
            Some(&self.stack[slot + self.bases[scope]])
        } else {
            None
        }
    }

    /// Gives the local `(slot, scope)` the value `v`; `false` (and nothing
    /// changes) where no value stands there.
    pub fn set(&mut self, slot: usize, scope: usize, v: V) -> (found: bool)
        ensures
            found == old(self).index_of(slot as int, scope as int) is Some,
            final(self).bases() == old(self).bases(),
            match old(self).index_of(slot as int, scope as int) {
                Some(i) => final(self).values() == old(self).values().update(i, v),
                None => final(self).values() == old(self).values(),
            },
    {
        if scope < self.bases.len() && slot < self.stack.len() && self.bases[scope]
            < self.stack.len() - slot {
            let at = slot + self.bases[scope];
            self.stack.set(at, v);
            true
        } else {
            false
        }
    }
}

/// What a call saves of the locals, to give them back when it ends.
#[derive(Clone, Copy, Debug, PartialEq, Eq, Structural)]
pub struct CallFrame {
    pub scope: usize,
    pub base: usize,
    pub len: usize,
}

impl<V> Locals<V> {
    /// Enters a call whose parameters live in `scope`: the scope's slots begin
    /// at the top of the stack, where the arguments are pushed.
    pub fn enter_call(&mut self, scope: usize, args: Vec<V>) -> (f: CallFrame)
        ensures
            f.scope == scope,
            f.len == old(self).values().len(),
            f.base == extended(old(self).bases(), scope + 1)[scope as int],
            final(self).values() == old(self).values() + args@,
            final(self).bases() == extended(old(self).bases(), scope + 1).update(
                scope as int,
                old(self).values().len() as usize,
            ),
    {
        let len = self.stack.len();
        let base = self.open_scope(scope);
        let mut args = args;
        self.stack.append(&mut args);
        CallFrame { scope, base, len }
    }

    /// Leaves a call: the stack goes back to what it held before the call and
    /// the scope's slots begin where they began before, however the call ended.
    pub fn leave_call(&mut self, f: CallFrame)
        ensures
            final(self).values() == if f.len <= old(self).values().len() {
                old(self).values().take(f.len as int)
            } else {
                old(self).values()
            },
            final(self).bases() == if f.scope < old(self).bases().len() {
                old(self).bases().update(f.scope as int, f.base)
            } else {
                old(self).bases()
            },
    {
        self.stack.truncate(f.len);
        if f.scope < self.bases.len() {
            self.bases.set(f.scope, f.base);
        }
    }
}

/// Closing a scope with what opening it gave back, after values were pushed
/// in it, leaves the stack and every base that was there as they were before
/// the scope was opened.
pub proof fn lemma_close_undoes_open<V>(
    values: Seq<V>,
    bases: Seq<usize>,
    scope: int,
    pushed: Seq<V>,
)
    requires
        0 <= scope,
    ensures
        ({
            let opened = extended(bases, scope + 1).update(scope, values.len() as usize);
            let saved = extended(bases, scope + 1)[scope];
            let closed = opened.update(scope, saved);
            &&& (values + pushed).take(values.len() as int) == values
            &&& closed.len() >= bases.len()
            &&& forall|k: int| 0 <= k < bases.len() ==> #[trigger] closed[k] == bases[k]
        }),
{
    assert((values + pushed).take(values.len() as int) =~= values);
}

/// The instances made by constructors, each with its fields, found by the
/// number that `add_instance` gave it.
pub struct Instances<V> {
    items: Vec<Environment<V>>,
}

impl<V> Instances<V> {
    /// The fields of each instance.
    pub closed spec fn fields(&self) -> Seq<Seq<SpecVars<V>>> {
        self.items@.map_values(|e: Environment<V>| e.scopes())
    }

    pub fn new() -> (r: Self)
        ensures
            r.fields() == Seq::<Seq<SpecVars<V>>>::empty(),
    {
        let r = Instances { items: Vec::new() };
        proof {
            assert(r.fields() =~= Seq::<Seq<SpecVars<V>>>::empty());
        }
        r
    }

    /// Adds an instance with the fields `fields`; its number.
    pub fn add_instance(&mut self, fields: Environment<V>) -> (id: usize)
        ensures
            id == old(self).fields().len(),
            final(self).fields() == old(self).fields().push(fields.scopes()),
    {
        let id = self.items.len();
        self.items.push(fields);
        proof {
            assert(self.fields() =~= old(self).fields().push(fields.scopes()));
        }
        id
    }

    /// The field `name` of instance `id`; `None` where there is no such
    /// instance or field.
    pub fn get(&self, id: usize, name: &str) -> (r: Option<&V>)
        ensures
            id < self.fields().len() ==> match value_of(self.fields()[id as int], name@) {
                Some(v) => r == Some(&v),
                None => r is None,
            },
            id >= self.fields().len() ==> r is None,
    {
        if id < self.items.len() {
            self.items[id].get(name)
        } else {
            None
        }
    }

    /// Gives the field `name` of instance `id` the value `v`; `false` (and
    /// nothing changes) where there is no such instance or field.
    pub fn set(&mut self, id: usize, name: &str, v: V) -> (found: bool)
        ensures
            found == (id < old(self).fields().len() && find_var(old(self).fields()[id as int], name@)
                is Some),
            found ==> ({
                let (s, i) = find_var(old(self).fields()[id as int], name@)->0;
                final(self).fields() == old(self).fields().update(
                    id as int,
                    old(self).fields()[id as int].update(s, old(self).fields()[id as int][s].update(
                        i,
                        (name@, v),
                    )),
                )
            }),
            !found ==> final(self).fields() == old(self).fields(),
    {
        if id >= self.items.len() {
            return false;
        }
        let mut items = Vec::new();
        std::mem::swap(&mut items, &mut self.items);
        let mut env = items.remove(id);
        let found = env.assign(name, v);
        items.insert(id, env);
        self.items = items;
        proof {
            assert(self.fields() =~= old(self).fields().update(id as int, env.scopes()));
        }
        found
    }
}

} // verus!

verus! {

/// Leaving a call with the frame that entering it gave back, whatever values
/// the call pushed above its arguments, leaves the stack as it was before the
/// call and every base that was there as it was.
pub proof fn lemma_leave_undoes_enter<V>(
    values: Seq<V>,
    bases: Seq<usize>,
    scope: usize,
    args: Seq<V>,
    pushed: Seq<V>,
)
    requires
        values.len() <= usize::MAX,
    ensures
        ({
            let f = CallFrame {
                scope,
                base: extended(bases, scope + 1)[scope as int],
                len: values.len() as usize,
            };
            let inside = values + args + pushed;
            let entered = extended(bases, scope + 1).update(scope as int, values.len() as usize);
            &&& f.len <= inside.len()
            &&& inside.take(f.len as int) == values
            &&& (f.scope as int) < entered.len()
            &&& entered.update(f.scope as int, f.base).len() >= bases.len()
            &&& forall|k: int|
                0 <= k < bases.len() ==> #[trigger] entered.update(f.scope as int, f.base)[k]
                    == bases[k]
        }),
{
    assert((values + args + pushed).take(values.len() as int) =~= values);
}

} // verus!
