use brod::diagnostic::{Diagnostic, Span};
use brod::interpreter::environment::Environment;
use brod::interpreter::evaluator::{
    after_body, binary_case, call_result, check_arity, construct_result, left_decides, BinaryCase,
    Instances, Kind, Locals, LoopStep, RuntimeError,
};
use brod::parser::parser::{Operator, Unary};

type Error = RuntimeError<i64>;

fn sp() -> Span {
    Span::new(1, 2)
}

#[test]
fn messages_of_runtime_errors() {
    let cases: Vec<(Error, &str)> = vec![
        (
            RuntimeError::UnexpectedType("Number: 1".to_string(), "Boolean".to_string(), None),
            "Invalid type: Number: 1, Expected : Boolean",
        ),
        (
            RuntimeError::ForbiddenUnaryOperation(Unary::Minus(0), "Bool: true".to_string(), sp()),
            "Forbidden operator: Minus on Bool: true",
        ),
        (
            RuntimeError::ForbiddenBinaryOperation(
                Operator::Star,
                "String: a".to_string(),
                "Nil".to_string(),
                sp(),
            ),
            "Forbidden operator: Star on String: a and Nil",
        ),
        (RuntimeError::Break(sp()), "Break should be in while loop"),
        (RuntimeError::Continue(sp()), "Continue should be in while loop"),
        (RuntimeError::Return(3, sp()), "invalid return: return should be in function"),
        (RuntimeError::NotCallable("Number: 2".to_string(), sp()), "Number: 2 is not callable"),
        (RuntimeError::UnknownFunction("f".to_string(), None), "unknown function: f"),
        (
            RuntimeError::InvalidSignature { name: "f".to_string(), expected: 1, actual: 3, span: None },
            "f expects 1 argument, got 3",
        ),
        (
            RuntimeError::InvalidSignature { name: "g".to_string(), expected: 2, actual: 0, span: None },
            "g expects 2 arguments, got 0",
        ),
        (RuntimeError::UndeclaredIdentifier("x".to_string(), sp()), "Undeclared variable: x"),
        (RuntimeError::SelfOutsideConstructor(None), "self can only be used inside a constructor"),
    ];
    for (e, m) in cases {
        assert_eq!(e.message(), m);
    }
}

#[test]
fn loops_take_break_continue_and_errors() {
    assert!(matches!(after_body::<i64>(Ok(1)), LoopStep::Retest));
    assert!(matches!(after_body::<i64>(Err(RuntimeError::Continue(sp()))), LoopStep::Retest));
    assert!(matches!(after_body::<i64>(Err(RuntimeError::Break(sp()))), LoopStep::Finish));
    assert!(matches!(
        after_body::<i64>(Err(RuntimeError::Return(7, sp()))),
        LoopStep::Fail(RuntimeError::Return(7, _))
    ));
    assert!(matches!(
        after_body::<i64>(Err(RuntimeError::SelfOutsideConstructor(None))),
        LoopStep::Fail(RuntimeError::SelfOutsideConstructor(None))
    ));
}

#[test]
fn calls_take_a_return() {
    assert!(matches!(call_result::<i64>(Err(RuntimeError::Return(5, sp()))), Ok(5)));
    assert!(matches!(call_result::<i64>(Ok(4)), Ok(4)));
    assert!(matches!(call_result::<i64>(Err(RuntimeError::Break(sp()))), Err(RuntimeError::Break(_))));
    assert!(matches!(construct_result::<i64>(Ok(4), 9), Ok(9)));
    assert!(matches!(construct_result::<i64>(Err(RuntimeError::Return(5, sp())), 9), Ok(5)));
    assert!(matches!(
        construct_result::<i64>(Err(RuntimeError::Continue(sp())), 9),
        Err(RuntimeError::Continue(_))
    ));
}

#[test]
fn short_circuit_and_arity() {
    assert!(left_decides(true, false));
    assert!(!left_decides(true, true));
    assert!(left_decides(false, true));
    assert!(!left_decides(false, false));
    assert!(check_arity::<i64>("f", 2, 2, sp()).is_ok());
    match check_arity::<i64>("Point", 1, 0, sp()) {
        Err(RuntimeError::InvalidSignature { name, expected, actual, span }) => {
            assert_eq!(name, "Point");
            assert_eq!((expected, actual, span), (1, 0, Some(sp())));
        }
        _ => panic!("an arity error was expected"),
    }
}

#[test]
fn operand_kinds_of_binary_operators() {
    assert_eq!(binary_case(Operator::Slash, Kind::Number, Kind::Number), Some(BinaryCase::Numbers));
    assert_eq!(binary_case(Operator::Plus, Kind::Str, Kind::Str), Some(BinaryCase::Strings));
    assert_eq!(binary_case(Operator::Minus, Kind::Str, Kind::Str), None);
    assert_eq!(binary_case(Operator::Lesser, Kind::Bool, Kind::Bool), Some(BinaryCase::Bools));
    assert_eq!(binary_case(Operator::Plus, Kind::Bool, Kind::Bool), None);
    assert_eq!(binary_case(Operator::NotEqual, Kind::Nil, Kind::Nil), Some(BinaryCase::Nils));
    assert_eq!(binary_case(Operator::Lesser, Kind::Nil, Kind::Nil), None);
    assert_eq!(binary_case(Operator::Plus, Kind::Str, Kind::Number), Some(BinaryCase::StrNumber));
    assert_eq!(binary_case(Operator::Plus, Kind::Number, Kind::Str), Some(BinaryCase::NumberStr));
    assert_eq!(binary_case(Operator::Equal, Kind::Number, Kind::Str), None);
    assert_eq!(binary_case(Operator::Equal, Kind::Instance, Kind::Instance), None);
}

#[test]
fn closing_a_scope_undoes_opening_it() {
    let mut locals: Locals<i64> = Locals::new();
    locals.push(10);
    assert_eq!(locals.scope_count(), 0);
    let saved = locals.open_scope(1);
    assert_eq!(saved, 0);
    assert_eq!(locals.scope_count(), 2);
    locals.push(20);
    locals.push(30);
    assert_eq!(locals.get(1, 1), Some(&30));
    assert_eq!(locals.get(0, 0), Some(&10));
    assert!(locals.set(0, 1, 25));
    assert_eq!(locals.get(0, 1), Some(&25));
    assert_eq!(locals.get(2, 1), None);
    assert!(!locals.set(5, 1, 0));
    locals.close_scope(1, saved, 1);
    assert_eq!(locals.len(), 1);
    assert_eq!(locals.get(0, 0), Some(&10));
    assert_eq!(locals.get(0, 1), Some(&10));
}

#[test]
fn instance_fields_are_read_and_written() {
    let mut instances: Instances<i64> = Instances::new();
    let mut fields = Environment::new();
    fields.add("x".to_string(), 0);
    let a = instances.add_instance(fields);
    let b = instances.add_instance(Environment::new());
    assert_eq!((a, b), (0, 1));
    assert_eq!(instances.get(a, "x"), Some(&0));
    assert!(instances.set(a, "x", 7));
    assert_eq!(instances.get(a, "x"), Some(&7));
    assert!(!instances.set(b, "x", 1));
    assert_eq!(instances.get(b, "x"), None);
    assert_eq!(instances.get(5, "x"), None);
    assert!(!instances.set(5, "x", 1));
}

#[test]
fn leaving_a_call_undoes_entering_it() {
    let mut locals: Locals<i64> = Locals::new();
    locals.push(1);
    let frame = locals.enter_call(0, vec![2, 3]);
    assert_eq!(locals.get(1, 0), Some(&3));
    locals.push(4);
    assert_eq!(locals.len(), 4);
    locals.leave_call(frame);
    assert_eq!(locals.len(), 1);
    assert_eq!(locals.get(0, 0), Some(&1));
}
