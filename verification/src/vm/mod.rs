pub mod instructions;

use crate::vm::instructions::{Op, Ops, spec_decode_from, spec_valid_from};

use vstd::prelude::*;

verus! {

/// The virtual machine's errors: an operand of the wrong kind.
#[derive(Debug, Clone, Copy, PartialEq, Eq, Structural)]
pub enum VMError {
    ErrOperand,
}

/// A value on the machine's stack: a number, held as the bits of its 32-bit
/// float, or the other kind of value, which arithmetic refuses.
#[derive(Debug, Clone, Copy, PartialEq, Eq, Structural)]
pub enum VMPrimary {
    Number(u32),
    Caca,
}

/// What a step of the machine asks of its caller: print a value popped off the
/// stack (or nothing, the stack being empty), add two numbers and push the sum
/// with `push_number`, nothing, or stop with the run's result.
#[derive(Debug, Clone, Copy)]
pub enum VMAction {
    Print(Option<VMPrimary>),
    Add(u32, u32),
    Continue,
    Done(Result<(), VMError>),
}

/// The machine: its program, the next instruction, and its stack.
pub struct VM {
    ops: Vec<Op>,
    pc: usize,
    stack: Vec<VMPrimary>,
}

/// The instructions the machine cannot run: `Return` and all arithmetic but
/// addition.
pub open spec fn unsupported(op: Op) -> bool {
    match op {
        Op::Return | Op::Mul | Op::Minus | Op::Divide => true,
        _ => false,
    }
}

/// The next step cannot be taken: an instruction the machine cannot run, or an
/// addition short of operands.
pub open spec fn spec_stuck(ops: Seq<Op>, pc: int, stack: Seq<VMPrimary>) -> bool {
    0 <= pc < ops.len() && (unsupported(ops[pc]) || (ops[pc] == Op::Add && (stack.len() == 0 || (
    stack.last() is Number && stack.len() < 2))))
}

/// One step: the next instruction, the stack after it, and the action.
/// Addition pops the left operand, then the right one; an operand that is not
/// a number stops the run with `ErrOperand`.
pub open spec fn spec_vm_step(ops: Seq<Op>, pc: int, stack: Seq<VMPrimary>) -> (
    int,
    Seq<VMPrimary>,
    VMAction,
) {
    if !(0 <= pc < ops.len()) {
        (pc, stack, VMAction::Done(Ok(())))
    } else {
        match ops[pc] {
            Op::Print => if stack.len() == 0 {
                (pc + 1, stack, VMAction::Print(None))
            } else {
                (pc + 1, stack.drop_last(), VMAction::Print(Some(stack.last())))
            },
            Op::Constant(f) => (pc + 1, stack.push(VMPrimary::Number(f)), VMAction::Continue),
            Op::Add => {
                let left = stack.last();
                let rest = stack.drop_last();
                match left {
                    VMPrimary::Number(l) => match rest.last() {
                        VMPrimary::Number(r) => (pc + 1, rest.drop_last(), VMAction::Add(l, r)),
                        VMPrimary::Caca => (pc + 1, rest.drop_last(), VMAction::Done(
                            Err(VMError::ErrOperand),
                        )),
                    },
                    VMPrimary::Caca => (pc + 1, rest, VMAction::Done(Err(VMError::ErrOperand))),
                }
            },
            _ => (pc + 1, stack, VMAction::Continue),
        }
    }
}

impl VM {
    pub closed spec fn program(&self) -> Seq<Op> {
        self.ops@
    }

    pub closed spec fn position(&self) -> int {
        self.pc as int
    }

    pub closed spec fn values(&self) -> Seq<VMPrimary> {
        self.stack@
    }

    /// A machine with no program.
    pub fn new() -> (r: Self)
        ensures
            r.program() == Seq::<Op>::empty(),
            r.position() == 0,
            r.values() == Seq::<VMPrimary>::empty(),
    {
        VM { ops: Vec::new(), pc: 0, stack: Vec::new() }
    }

    /// A machine that runs the instructions of `ops`, from the first.
    pub fn load(ops: &Ops) -> (r: Self)
        requires
            spec_valid_from(ops.op_list@, 0),
        ensures
            r.program() == spec_decode_from(ops.op_list@, 0),
            r.position() == 0,
            r.values() == Seq::<VMPrimary>::empty(),
    {
        let program = ops.iter().collect_ops();
        VM { ops: program, pc: 0, stack: Vec::new() }
    }

    /// Whether the next step cannot be taken (where running it would fail).
    pub fn is_stuck(&self) -> (b: bool)
        ensures
            b == spec_stuck(self.program(), self.position(), self.values()),
    {
        if self.pc >= self.ops.len() {
            return false;
        }
        match self.ops[self.pc] {
            Op::Return | Op::Mul | Op::Minus | Op::Divide => true,
            Op::Add => {
                let n = self.stack.len();
                if n == 0 {
                    true
                } else {
                    match self.stack[n - 1] {
                        VMPrimary::Number(_) => n < 2,
                        VMPrimary::Caca => false,
                    }
                }
            },
            _ => false,
        }
    }

    /// Takes one step.
    pub fn step(&mut self) -> (a: VMAction)
        requires
            !spec_stuck(old(self).program(), old(self).position(), old(self).values()),
            old(self).position() < usize::MAX,
        ensures
            final(self).program() == old(self).program(),
            (final(self).position(), final(self).values(), a) == spec_vm_step(
                old(self).program(),
                old(self).position(),
                old(self).values(),
            ),
    {
        if self.pc >= self.ops.len() {
            return VMAction::Done(Ok(()));
        }
        let op = self.ops[self.pc];
        self.pc = self.pc + 1;
        match op {
            Op::Print => VMAction::Print(self.stack.pop()),
            Op::Constant(f) => {
                self.stack.push(VMPrimary::Number(f));
                VMAction::Continue
            },
            Op::Add => {
                let left = self.stack.pop().unwrap();
                match left {
                    VMPrimary::Number(l) => {
                        let right = self.stack.pop().unwrap();
                        match right {
                            VMPrimary::Number(r) => VMAction::Add(l, r),
                            VMPrimary::Caca => VMAction::Done(Err(VMError::ErrOperand)),
                        }
                    },
                    VMPrimary::Caca => VMAction::Done(Err(VMError::ErrOperand)),
                }
            },
            _ => VMAction::Continue,
        }
    }

    /// Pushes a number: the sum an `Add` action asked for.
    pub fn push_number(&mut self, bits: u32)
        ensures
            final(self).program() == old(self).program(),
            final(self).position() == old(self).position(),
            final(self).values() == old(self).values().push(VMPrimary::Number(bits)),
    {
        self.stack.push(VMPrimary::Number(bits));
    }
}

} // verus!

verus! {

/// The machine adds the two numbers on top of its stack: after two constants
/// are pushed and an `Add` runs, it asks to add the second constant (the top,
/// popped first) to the first, and its stack is back to what it was.
/// `Print` prints the top of the stack and removes it.
pub proof fn lemma_add_takes_the_two_top_numbers(
    ops: Seq<Op>,
    pc: int,
    stack: Seq<VMPrimary>,
    x: u32,
    y: u32,
)
    requires
        0 <= pc,
        pc + 3 <= ops.len(),
        ops[pc] == Op::Constant(x),
        ops[pc + 1] == Op::Constant(y),
        ops[pc + 2] == Op::Add,
    ensures
        ({
            let (p1, s1, a1) = spec_vm_step(ops, pc, stack);
            let (p2, s2, a2) = spec_vm_step(ops, p1, s1);
            let (p3, s3, a3) = spec_vm_step(ops, p2, s2);
            &&& a1 == VMAction::Continue && a2 == VMAction::Continue
            &&& a3 == VMAction::Add(y, x)
            &&& s3 == stack
            &&& p3 == pc + 3
        }),
{
    let s1 = stack.push(VMPrimary::Number(x));
    let s2 = s1.push(VMPrimary::Number(y));
    assert(s2.drop_last() == s1);
    assert(s1.drop_last() =~= stack);
}

pub proof fn lemma_print_takes_the_top(ops: Seq<Op>, pc: int, stack: Seq<VMPrimary>)
    requires
        0 <= pc < ops.len(),
        ops[pc] == Op::Print,
    ensures
        stack.len() > 0 ==> spec_vm_step(ops, pc, stack) == (
            pc + 1,
            stack.drop_last(),
            VMAction::Print(Some(stack.last())),
        ),
        stack.len() == 0 ==> spec_vm_step(ops, pc, stack) == (pc + 1, stack, VMAction::Print(None)),
{
}

} // verus!
