use brod::vm::instructions::{Op, Ops};
use brod::vm::{VMAction, VMError, VMPrimary, VM};
use brod::diagnostic::Span;

fn make_ops(bytes: Vec<u8>) -> Ops {
    Ops {
        op_list: bytes,
        span_list: vec![],
        op_idx: 0,
    }
}

#[test]
fn simple_ops() {
    let ops = make_ops(vec![0, 1, 3, 4, 5, 6]);
    let collected: Vec<Op> = ops.collect_ops();
    assert!(matches!(collected[0], Op::Print));
    assert!(matches!(collected[1], Op::Return));
    assert!(matches!(collected[2], Op::Add));
    assert!(matches!(collected[3], Op::Mul));
    assert!(matches!(collected[4], Op::Minus));
    assert!(matches!(collected[5], Op::Divide));
}

#[test]
fn constant_op() {
    let v = 1.5f32;
    let mut bytes = vec![2u8];
    bytes.extend_from_slice(&v.to_le_bytes());
    let ops = make_ops(bytes);
    let collected: Vec<Op> = ops.collect_ops();
    assert!(matches!(collected[0], Op::Constant(x) if f32::from_bits(x) == 1.5));
}

#[test]
fn mixed_ops() {
    let v = 3.14f32;
    let mut bytes = vec![2u8];
    bytes.extend_from_slice(&v.to_le_bytes());
    bytes.push(3);
    let ops = make_ops(bytes);
    let collected: Vec<Op> = ops.collect_ops();
    assert!(matches!(collected[0], Op::Constant(x) if f32::from_bits(x) == 3.14f32));
    assert!(matches!(collected[1], Op::Add));
}

#[test]
fn iter_by_ref_does_not_consume() {
    let ops = make_ops(vec![0, 1]);
    let _: Vec<Op> = ops.iter().collect_ops();
    let second: Vec<Op> = ops.iter().collect_ops();
    assert_eq!(second.len(), 2);
}

#[test]
fn pushed_ops_decode_to_the_same_ops() {
    let mut ops = Ops::new();
    ops.push(Op::Constant(20.0f32.to_bits()));
    ops.push(Op::Constant(22.0f32.to_bits()));
    ops.push(Op::Add);
    ops.push(Op::Print);
    assert_eq!(ops.op_list.len(), 12);
    let collected = ops.collect_ops();
    assert_eq!(
        collected,
        vec![
            Op::Constant(20.0f32.to_bits()),
            Op::Constant(22.0f32.to_bits()),
            Op::Add,
            Op::Print
        ]
    );
}

#[test]
fn op_sizes_and_bytes() {
    assert_eq!(Op::Constant(7).size(), 4);
    assert_eq!(Op::Add.size(), 0);
    let mut buf = Vec::new();
    Op::Constant(0x0403_0201).to_bytes(&mut buf);
    assert_eq!(buf, vec![2, 1, 2, 3, 4]);
    assert_eq!(Op::from_bytes(&buf), Op::Constant(0x0403_0201));
    assert_eq!(Op::from_bytes(&[6]), Op::Divide);
}

#[test]
fn next_op_walks_the_program() {
    let mut ops = make_ops(vec![3, 0]);
    assert_eq!(ops.next_op(), Some(Op::Add));
    assert_eq!(ops.next_op(), Some(Op::Print));
    assert_eq!(ops.next_op(), None);
    let _ = Span::new(0, 1);
}

/// Runs the machine to its end, doing the float work it asks for; what it printed.
fn run_machine(vm: &mut VM) -> (Vec<Option<VMPrimary>>, Result<(), VMError>) {
    let mut printed = Vec::new();
    loop {
        assert!(!vm.is_stuck());
        match vm.step() {
            VMAction::Print(v) => printed.push(v),
            VMAction::Add(l, r) => vm.push_number((f32::from_bits(l) + f32::from_bits(r)).to_bits()),
            VMAction::Continue => {}
            VMAction::Done(result) => return (printed, result),
        }
    }
}

#[test]
fn test_simple_run() {
    let mut ops = Ops::new();
    ops.push(Op::Constant(20.0f32.to_bits()));
    ops.push(Op::Constant(22.0f32.to_bits()));
    ops.push(Op::Add);
    ops.push(Op::Print);
    let mut vm = VM::load(&ops);
    let (printed, result) = run_machine(&mut vm);
    assert_eq!(printed, vec![Some(VMPrimary::Number(42.0f32.to_bits()))]);
    assert_eq!(result, Ok(()));
}

#[test]
fn print_on_an_empty_stack_prints_nothing() {
    let mut ops = Ops::new();
    ops.push(Op::Print);
    let mut vm = VM::load(&ops);
    let (printed, result) = run_machine(&mut vm);
    assert_eq!(printed, vec![None]);
    assert_eq!(result, Ok(()));
}

#[test]
fn unsupported_instructions_are_stuck() {
    let mut ops = Ops::new();
    ops.push(Op::Mul);
    let vm = VM::load(&ops);
    assert!(vm.is_stuck());
    let mut ops = Ops::new();
    ops.push(Op::Constant(1.0f32.to_bits()));
    ops.push(Op::Add);
    let mut vm = VM::load(&ops);
    assert!(!vm.is_stuck());
    assert!(matches!(vm.step(), VMAction::Continue));
    assert!(vm.is_stuck());
    assert!(matches!(VM::new().step(), VMAction::Done(Ok(()))));
}
