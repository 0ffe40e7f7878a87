use rustcode::value::Value;
use rustcode::vm::{Stop, VM};

#[test]
fn test_push_and_pop() {
    // PUSH 42, HALT
    let code = vec![
        0x01, // PUSH
        0x01, // Type: Integer
        0x00, 0x00, 0x00, 0x00, 0x00, 0x00, 0x00, 0x2A, // Value: 42
        0xFF, // HALT
    ];

    let mut vm = VM::new(code);
    assert!(matches!(vm.run(1000).unwrap(), Stop::Finished));

    assert_eq!(vm.stack().len(), 1);
    assert_eq!(vm.stack()[0], Value::Integer(42));
}

#[test]
fn test_arithmetic() {
    // PUSH 5, PUSH 3, ADD, HALT
    let code = vec![
        0x01, // PUSH
        0x01, // Type: Integer
        0x00, 0x00, 0x00, 0x00, 0x00, 0x00, 0x00, 0x05, // Value: 5
        0x01, // PUSH
        0x01, // Type: Integer
        0x00, 0x00, 0x00, 0x00, 0x00, 0x00, 0x00, 0x03, // Value: 3
        0x10, // ADD
        0xFF, // HALT
    ];

    let mut vm = VM::new(code);
    assert!(matches!(vm.run(1000).unwrap(), Stop::Finished));

    assert_eq!(vm.stack().len(), 1);
    assert_eq!(vm.stack()[0], Value::Integer(8));
}

#[test]
fn test_comparison() {
    // PUSH 5, PUSH 3, GT, HALT
    let code = vec![
        0x01, // PUSH
        0x01, // Type: Integer
        0x00, 0x00, 0x00, 0x00, 0x00, 0x00, 0x00, 0x05, // Value: 5
        0x01, // PUSH
        0x01, // Type: Integer
        0x00, 0x00, 0x00, 0x00, 0x00, 0x00, 0x00, 0x03, // Value: 3
        0x24, // GT
        0xFF, // HALT
    ];

    let mut vm = VM::new(code);
    assert!(matches!(vm.run(1000).unwrap(), Stop::Finished));

    assert_eq!(vm.stack().len(), 1);
    assert_eq!(vm.stack()[0], Value::Boolean(true));
}

use rustcode::vm::{Answer, Query, Step};
use rustcode::value::{FloatOperand, FloatQuery, IntOp, VmError};

fn int_literal(i: i64) -> Vec<u8> {
    let mut v = vec![0x01, 0x01];
    v.extend_from_slice(&i.to_be_bytes());
    v
}

fn float(f: f64) -> Vec<u8> {
    let mut v = vec![0x01, 0x02];
    v.extend_from_slice(&f.to_be_bytes());
    v
}

fn program(parts: &[&[u8]]) -> Vec<u8> {
    parts.concat()
}

#[test]
fn store_then_load_reads_back() {
    let code = program(&[&int_literal(42), &[0x51, 7, 0x50, 7, 0x50, 8, 0xFF]]);
    let mut vm = VM::new(code);
    assert!(matches!(vm.run(100).unwrap(), Stop::Finished));
    assert_eq!(vm.stack(), &[Value::Integer(42), Value::Null]);
}

#[test]
fn call_and_return() {
    // 0: CALL 5; 3: PUSH 1 ... ; the function at 5 pushes 2 and returns
    let mut code = vec![0x43, 0x00, 0x0E];
    code.extend(int_literal(1)); // 3..13
    code.push(0xFF); // 13
    code.extend(int_literal(2)); // 14..24
    code.push(0x44); // 24
    let mut vm = VM::new(code);
    assert!(matches!(vm.run(100).unwrap(), Stop::Finished));
    assert_eq!(vm.stack(), &[Value::Integer(2), Value::Integer(1)]);
    assert!(vm.is_halted());
}

#[test]
fn return_with_empty_call_stack_halts() {
    let mut vm = VM::new(vec![0x44, 0x02]);
    assert!(matches!(vm.run(100).unwrap(), Stop::Finished));
    assert!(vm.is_halted());
}

#[test]
fn running_off_the_end_finishes() {
    let mut vm = VM::new(int_literal(3));
    assert!(matches!(vm.run(100).unwrap(), Stop::Finished));
    assert!(!vm.is_halted());
    assert!(!vm.is_running());
}

#[test]
fn errors_of_the_machine() {
    let mut vm = VM::new(vec![0x00]);
    assert!(matches!(vm.run(10), Err(VmError::InvalidOpcode(0))));
    let mut vm = VM::new(vec![0x02]);
    assert!(matches!(vm.run(10), Err(VmError::StackUnderflow)));
    let mut vm = VM::new(vec![0x03]);
    assert!(matches!(vm.run(10), Err(VmError::StackEmpty)));
    let mut vm = VM::new(vec![0x01, 0x09]);
    assert!(matches!(vm.run(10), Err(VmError::UnknownValueType(9))));
    let mut vm = VM::new(vec![0x01, 0x01, 0x00]);
    assert!(matches!(vm.run(10), Err(VmError::UnexpectedEndOfCode)));
    let mut vm = VM::new(vec![0x01, 0x04, 0x00, 0x01, 0xFF]);
    assert!(matches!(vm.run(10), Err(VmError::InvalidUtf8(ref b)) if b == &vec![0xFF]));
    let mut vm = VM::new(program(&[&int_literal(1), &int_literal(0), &[0x14]]));
    assert!(matches!(vm.run(10), Err(VmError::ModuloByZero)));
    let mut vm = VM::new(program(&[&int_literal(i64::MAX), &int_literal(1), &[0x10]]));
    assert!(matches!(vm.run(10), Err(VmError::Overflow(IntOp::Add))));
    let mut vm = VM::new(program(&[&int_literal(i64::MIN), &[0x15]]));
    assert!(matches!(vm.run(10), Err(VmError::Overflow(IntOp::Neg))));
    let mut vm = VM::new(vec![0x01, 0x00, 0x15]);
    assert!(matches!(vm.run(10), Err(VmError::CannotNegate)));
    let mut vm = VM::new(vec![0x40, 0x00, 0x09]);
    assert!(matches!(vm.run(10).unwrap(), Stop::Finished));
    assert!(matches!(vm.step(&[]), Err(VmError::IpOutOfBounds)));
}

#[test]
fn integer_operations() {
    let mut vm = VM::new(program(&[
        &int_literal(-7), &int_literal(2), &[0x14], // MOD -> -1
        &int_literal(5), &[0x15],           // NEG -> -5
        &int_literal(3), &int_literal(4), &[0x04],  // SWAP -> 4 3
        &[0x11],                    // SUB -> 1
        &int_literal(6), &int_literal(3), &[0x13],  // DIV -> 2
        &[0xFF],
    ]));
    assert!(matches!(vm.run(100).unwrap(), Stop::Finished));
    assert_eq!(
        vm.stack(),
        &[Value::Integer(-1), Value::Integer(-5), Value::Integer(1), Value::Integer(2)]
    );
}

#[test]
fn logic_and_equality() {
    let mut vm = VM::new(program(&[
        &[0x01, 0x03, 1, 0x01, 0x00, 0x30], // true AND null -> false
        &[0x01, 0x03, 1, 0x01, 0x00, 0x31], // true OR null -> true
        &[0x01, 0x03, 0, 0x32],             // NOT false -> true
        &int_literal(2), &int_literal(2), &[0x20],          // EQ -> true
        &int_literal(2), &[0x01, 0x03, 1, 0x21],    // 2 NE true -> true
        &[0xFF],
    ]));
    assert!(matches!(vm.run(100).unwrap(), Stop::Finished));
    assert_eq!(
        vm.stack(),
        &[
            Value::Boolean(false),
            Value::Boolean(true),
            Value::Boolean(true),
            Value::Boolean(true),
            Value::Boolean(true)
        ]
    );
}

#[test]
fn float_work_is_asked_and_answered() {
    let code = program(&[&float(1.5), &int_literal(2), &[0x10, 0xFF]]);
    let mut vm = VM::new(code);
    let q = match vm.run(100).unwrap() {
        Stop::Ask(q) => q,
        _ => panic!("expected a query"),
    };
    let (a, b) = match q {
        Query::Float(FloatQuery::Arith(_, a, b)) => (a, b),
        _ => panic!("expected an addition"),
    };
    let f = |o: FloatOperand| match o {
        FloatOperand::Int(i) => i as f64,
        FloatOperand::Bits(b) => f64::from_bits(b),
    };
    let sum = f(a) + f(b);
    assert!(matches!(vm.step(&[Answer::Bits(sum.to_bits())]).unwrap(), Step::Executed));
    assert!(matches!(vm.run(100).unwrap(), Stop::Finished));
    assert_eq!(vm.stack(), &[Value::Float(3.5f64.to_bits())]);
}

#[test]
fn a_wrong_answer_is_refused_and_changes_nothing() {
    let mut vm = VM::new(program(&[&float(1.0), &[0x15, 0xFF]]));
    assert!(matches!(vm.run(100).unwrap(), Stop::Ask(Query::Float(FloatQuery::Negate(_)))));
    assert!(matches!(vm.step(&[Answer::Bool(true)]), Err(VmError::UnexpectedAnswer)));
    assert!(matches!(vm.step(&[Answer::Bits((-1.0f64).to_bits())]).unwrap(), Step::Executed));
    assert_eq!(vm.stack(), &[Value::Float((-1.0f64).to_bits())]);
}

#[test]
fn input_is_asked_and_trimmed() {
    let mut vm = VM::new(vec![0x61, 0x60, 0xFF]);
    assert!(matches!(vm.run(100).unwrap(), Stop::Ask(Query::Line)));
    assert!(matches!(
        vm.step(&[Answer::Line("  hello \n".to_string())]).unwrap(),
        Step::Executed
    ));
    match vm.run(100).unwrap() {
        Stop::Print(v) => assert_eq!(v, Value::String("hello".to_string())),
        _ => panic!("expected a print"),
    }
}

#[test]
fn large_integers_compare_through_floats() {
    let mut vm = VM::new(program(&[&int_literal(i64::MAX), &int_literal(i64::MAX - 1), &[0x24, 0xFF]]));
    assert!(matches!(
        vm.run(100).unwrap(),
        Stop::Ask(Query::Float(FloatQuery::Compare(_, _, _)))
    ));
    let mut vm = VM::new(program(&[&int_literal(1 << 53), &int_literal(-(1 << 53)), &[0x22, 0xFF]]));
    assert!(matches!(vm.run(100).unwrap(), Stop::Finished));
    assert_eq!(vm.stack(), &[Value::Boolean(false)]);
}

#[test]
fn fuel_bounds_a_run() {
    // JUMP 0 forever
    let mut vm = VM::new(vec![0x40, 0x00, 0x00]);
    assert!(matches!(vm.run(50).unwrap(), Stop::OutOfFuel));
}

#[test]
fn integer_overflows_are_reported() {
    let mut vm = VM::new(program(&[&int_literal(i64::MIN), &int_literal(-1), &[0x13]]));
    assert!(matches!(vm.run(10), Err(VmError::Overflow(IntOp::Div))));
    let mut vm = VM::new(program(&[&int_literal(i64::MIN), &int_literal(-1), &[0x14]]));
    assert!(matches!(vm.run(10), Err(VmError::Overflow(IntOp::Rem))));
    let mut vm = VM::new(program(&[&int_literal(i64::MIN), &int_literal(1), &[0x11]]));
    assert!(matches!(vm.run(10), Err(VmError::Overflow(IntOp::Sub))));
    let mut vm = VM::new(program(&[&int_literal(i64::MAX), &int_literal(2), &[0x12]]));
    assert!(matches!(vm.run(10), Err(VmError::Overflow(IntOp::Mul))));
}

#[test]
fn modulo_of_floats_asks_for_both_conversions() {
    let mut vm = VM::new(program(&[&float(7.9), &float(2.5), &[0x14, 0xFF]]));
    let q = match vm.run(100).unwrap() {
        Stop::Ask(q) => q,
        _ => panic!("expected a query"),
    };
    assert_eq!(q, Query::Float(FloatQuery::ToInteger(2.5f64.to_bits())));
    let mut answers = vec![Answer::Int(2.5f64 as i64)];
    match vm.step(&answers).unwrap() {
        Step::Ask(q) => assert_eq!(q, Query::Float(FloatQuery::ToInteger(7.9f64.to_bits()))),
        _ => panic!("expected a second query"),
    }
    answers.push(Answer::Int(7.9f64 as i64));
    assert!(matches!(vm.step(&answers).unwrap(), Step::Executed));
    assert!(matches!(vm.run(100).unwrap(), Stop::Finished));
    assert_eq!(vm.stack(), &[Value::Integer(1)]);
}

#[test]
fn float_division_by_zero_is_answered() {
    let mut vm = VM::new(program(&[&float(1.0), &float(0.0), &[0x13, 0xFF]]));
    assert!(matches!(vm.run(100).unwrap(), Stop::Ask(_)));
    assert!(matches!(vm.step(&[Answer::DivisionByZero]), Err(VmError::DivisionByZero)));
    let mut vm = VM::new(program(&[&float(1.0), &int_literal(0), &[0x13, 0xFF]]));
    assert!(matches!(vm.run(100), Err(VmError::DivisionByZero)));
}

#[test]
fn a_load_gives_the_last_store_across_other_steps() {
    // STORE 7 of 42; then other work, a STORE into slot 8 and a LOAD of an
    // unwritten slot; then LOAD 7 gives 42 back and LOAD 9 gives null.
    let code = program(&[
        &int_literal(42),
        &[0x51, 7],
        &int_literal(5),
        &int_literal(6),
        &[0x10, 0x51, 8, 0x50, 9, 0x02],
        &[0x50, 7, 0x50, 9, 0xFF],
    ]);
    let mut vm = VM::new(code);
    assert!(matches!(vm.run(100).unwrap(), Stop::Finished));
    assert_eq!(vm.stack(), &[Value::Integer(42), Value::Null]);
}
