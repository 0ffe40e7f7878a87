use rustcode::assembler::{AsmError, Assembled, Assembler, IntErrorKind, keyword_opcode};
use rustcode::opcode::OpCode;
use rustcode::value::Value;
use rustcode::vm::{Stop, VM};

fn assemble(source: &str) -> Vec<u8> {
    let mut assembler = Assembler::new();
    match assembler.assemble(source, &[]).unwrap() {
        Assembled::Bytecode(b) => b,
        Assembled::NeedsFloat(lit) => panic!("unexpected float literal {}", lit),
    }
}

fn run_to_end(bytecode: Vec<u8>) -> VM {
    let mut vm = VM::new(bytecode);
    assert!(matches!(vm.run(10_000).unwrap(), Stop::Finished));
    vm
}

#[test]
fn test_simple_program() {
    let source = r#"
            PUSH 5
            PUSH 3
            ADD
            HALT
        "#;

    let mut assembler = Assembler::new();
    let bytecode = match assembler.assemble(source, &[]).unwrap() {
        Assembled::Bytecode(b) => b,
        Assembled::NeedsFloat(_) => unreachable!(),
    };

    let mut vm = VM::new(bytecode);
    assert!(matches!(vm.run(10_000).unwrap(), Stop::Finished));

    assert_eq!(vm.stack().len(), 1);
    assert_eq!(vm.stack()[0], Value::Integer(8));
}

#[test]
fn test_labels_and_jumps() {
    let source = r#"
            PUSH 1
            JUMPIF skip
            PUSH 999
        skip:
            PUSH 42
            HALT
        "#;

    let mut assembler = Assembler::new();
    let bytecode = match assembler.assemble(source, &[]).unwrap() {
        Assembled::Bytecode(b) => b,
        Assembled::NeedsFloat(_) => unreachable!(),
    };

    let mut vm = VM::new(bytecode);
    assert!(matches!(vm.run(10_000).unwrap(), Stop::Finished));

    // Should skip PUSH 999
    assert_eq!(vm.stack().len(), 1);
    assert_eq!(vm.stack()[0], Value::Integer(42));
}

#[test]
fn test_string_value() {
    let source = r#"
            PUSH "Hello, World!"
            HALT
        "#;

    let mut assembler = Assembler::new();
    let bytecode = match assembler.assemble(source, &[]).unwrap() {
        Assembled::Bytecode(b) => b,
        Assembled::NeedsFloat(_) => unreachable!(),
    };

    let mut vm = VM::new(bytecode);
    assert!(matches!(vm.run(10_000).unwrap(), Stop::Finished));

    assert_eq!(vm.stack().len(), 1);
    assert_eq!(vm.stack()[0], Value::String("Hello, World!".to_string()));
}

#[test]
fn encodes_each_kind_of_value() {
    let b = assemble("PUSH 42\nPUSH true\nPUSH false\nPUSH null\nPUSH \"hé\"\nPUSH -1");
    assert_eq!(
        b,
        vec![
            0x01, 0x01, 0, 0, 0, 0, 0, 0, 0, 42, // PUSH 42
            0x01, 0x03, 1, // PUSH true
            0x01, 0x03, 0, // PUSH false
            0x01, 0x00, // PUSH null
            0x01, 0x04, 0, 3, b'h', 0xC3, 0xA9, // PUSH "hé"
            0x01, 0x01, 0xFF, 0xFF, 0xFF, 0xFF, 0xFF, 0xFF, 0xFF, 0xFF, // PUSH -1
        ]
    );
}

#[test]
fn instruction_names_ignore_case_and_comments() {
    let b = assemble("; a comment\n  push 7 ; trailing words\n\n Halt  \n");
    assert_eq!(b, vec![0x01, 0x01, 0, 0, 0, 0, 0, 0, 0, 7, 0xFF]);
}

#[test]
fn forward_and_backward_labels_resolve() {
    let b = assemble("start:\nJUMP end\nCALL start\nend:\nHALT");
    // JUMP end (3 bytes at 0), CALL start (3 bytes at 3), HALT at 6
    assert_eq!(b, vec![0x40, 0x00, 0x06, 0x43, 0x00, 0x00, 0xFF]);
}

#[test]
fn undefined_label_is_reported() {
    let mut a = Assembler::new();
    match a.assemble("JUMP nowhere", &[]) {
        Err(AsmError::UndefinedLabel(l)) => assert_eq!(l, "nowhere"),
        other => panic!("unexpected {:?}", other.is_ok()),
    }
}

#[test]
fn unknown_instruction_is_reported() {
    let mut a = Assembler::new();
    match a.assemble("FROB 1", &[]) {
        Err(AsmError::UnknownInstruction(i)) => assert_eq!(i, "FROB"),
        other => panic!("unexpected {:?}", other.is_ok()),
    }
}

#[test]
fn push_without_argument_is_reported() {
    let mut a = Assembler::new();
    assert!(matches!(a.assemble("PUSH", &[]), Err(AsmError::PushRequiresArgument)));
}

#[test]
fn unterminated_string_is_reported() {
    let mut a = Assembler::new();
    assert!(matches!(a.assemble("PUSH \"abc", &[]), Err(AsmError::UnterminatedString)));
}

#[test]
fn jump_without_label_is_reported() {
    let mut a = Assembler::new();
    match a.assemble("NOP:\nJUMP", &[]) {
        Err(AsmError::LabelRequired(line, instr)) => {
            assert_eq!(line, 2);
            assert_eq!(instr, "JUMP");
        }
        other => panic!("unexpected {:?}", other.is_ok()),
    }
}

#[test]
fn load_without_address_is_reported() {
    let mut a = Assembler::new();
    match a.assemble("load", &[]) {
        Err(AsmError::AddressRequired(line, instr)) => {
            assert_eq!(line, 1);
            assert_eq!(instr, "load");
        }
        other => panic!("unexpected {:?}", other.is_ok()),
    }
}

#[test]
fn bad_addresses_are_reported() {
    let mut a = Assembler::new();
    assert!(matches!(
        a.assemble("STORE 256", &[]),
        Err(AsmError::InvalidAddress(1, IntErrorKind::PosOverflow))
    ));
    let mut a = Assembler::new();
    assert!(matches!(
        a.assemble("\nSTORE -1", &[]),
        Err(AsmError::InvalidAddress(2, IntErrorKind::InvalidDigit))
    ));
    let b = assemble("LOAD 255\nSTORE +3");
    assert_eq!(b, vec![0x50, 255, 0x51, 3]);
}

#[test]
fn bad_integers_are_reported() {
    let mut a = Assembler::new();
    assert!(matches!(
        a.assemble("PUSH 9223372036854775808", &[]),
        Err(AsmError::InvalidInteger(IntErrorKind::PosOverflow))
    ));
    let mut a = Assembler::new();
    assert!(matches!(
        a.assemble("PUSH -9223372036854775809", &[]),
        Err(AsmError::InvalidInteger(IntErrorKind::NegOverflow))
    ));
    let mut a = Assembler::new();
    assert!(matches!(
        a.assemble("PUSH 12ab", &[]),
        Err(AsmError::InvalidInteger(IntErrorKind::InvalidDigit))
    ));
    let b = assemble("PUSH -9223372036854775808");
    assert_eq!(b, vec![0x01, 0x01, 0x80, 0, 0, 0, 0, 0, 0, 0]);
}

#[test]
fn float_literals_are_asked_for_then_encoded() {
    let mut a = Assembler::new();
    let source = "PUSH 1.5\nPUSH 2.25\nHALT";
    match a.assemble(source, &[]).unwrap() {
        Assembled::NeedsFloat(lit) => assert_eq!(lit, "1.5"),
        Assembled::Bytecode(_) => panic!("expected a float query"),
    }
    let first = Some(1.5f64.to_bits());
    match a.assemble(source, &[first]).unwrap() {
        Assembled::NeedsFloat(lit) => assert_eq!(lit, "2.25"),
        Assembled::Bytecode(_) => panic!("expected a float query"),
    }
    let second = Some(2.25f64.to_bits());
    match a.assemble(source, &[first, second]).unwrap() {
        Assembled::Bytecode(b) => {
            let mut expected = vec![0x01, 0x02];
            expected.extend_from_slice(&1.5f64.to_be_bytes());
            expected.extend_from_slice(&[0x01, 0x02]);
            expected.extend_from_slice(&2.25f64.to_be_bytes());
            expected.push(0xFF);
            assert_eq!(b, expected);
        }
        Assembled::NeedsFloat(_) => panic!("all floats were given"),
    }
    let mut a = Assembler::new();
    assert!(matches!(a.assemble("PUSH 1.2.3", &[None]), Err(AsmError::InvalidFloat)));
}

#[test]
fn push_null_is_sized_as_one_byte() {
    // `null` takes one byte, so a label after it marks the next instruction.
    let b = assemble("PUSH null\nafter:\nJUMP after");
    assert_eq!(b, vec![0x01, 0x00, 0x40, 0x00, 0x02]);
    let b = assemble("PUSH null\nJUMP end\nend:\nHALT");
    assert_eq!(b, vec![0x01, 0x00, 0x40, 0x00, 0x05, 0xFF]);
}

#[test]
fn the_demo_programs_run() {
    let vm = run_to_end(assemble("PUSH 10\nPUSH 3\nSUB\nHALT"));
    assert_eq!(vm.stack(), &[Value::Integer(7)]);
    let mut vm = VM::new(assemble(
        "PUSH 10\nPUSH 5\nGT\nJUMPIFNOT else_branch\nPUSH \"10 is greater than 5\"\nJUMP end\nelse_branch:\nPUSH \"10 is not greater than 5\"\nend:\nPRINT\nHALT",
    ));
    match vm.run(10_000).unwrap() {
        Stop::Print(v) => assert_eq!(v, Value::String("10 is greater than 5".to_string())),
        _ => panic!("expected a print"),
    }
    assert!(matches!(vm.run(10_000).unwrap(), Stop::Finished));
    let mut vm = VM::new(assemble("PUSH \"Hello, \"\nPUSH \"RustCode!\"\nADD\nPRINT\nHALT"));
    match vm.run(10_000).unwrap() {
        Stop::Print(v) => assert_eq!(v, Value::String("Hello, RustCode!".to_string())),
        _ => panic!("expected a print"),
    }
}

#[test]
fn labels_are_not_kept_from_one_assembly_to_the_next() {
    let mut a = Assembler::new();
    assert!(matches!(a.assemble("x:\nHALT", &[]), Ok(Assembled::Bytecode(_))));
    assert!(matches!(a.assemble("JUMP x", &[]), Err(AsmError::UndefinedLabel(_))));
}

#[test]
fn a_failed_assembly_leaves_nothing_behind() {
    let mut a = Assembler::new();
    assert!(matches!(a.assemble("JUMP x", &[]), Err(AsmError::UndefinedLabel(_))));
    match a.assemble("x:\nHALT", &[]).unwrap() {
        Assembled::Bytecode(b) => assert_eq!(b, vec![0xFF]),
        Assembled::NeedsFloat(_) => panic!("no float here"),
    }
}

#[test]
fn a_float_query_leaves_nothing_for_the_next_assembly() {
    let mut a = Assembler::new();
    assert!(matches!(a.assemble("x:\nPUSH 0.5\nJUMP y", &[]), Ok(Assembled::NeedsFloat(_))));
    // Neither the label `x` nor a pending jump to `y` is seen again.
    assert!(matches!(a.assemble("JUMP x", &[]), Err(AsmError::UndefinedLabel(_))));
    assert_eq!(assemble("y:\nHALT"), vec![0xFF]);
}

#[test]
fn a_trailing_comment_changes_nothing() {
    assert_eq!(assemble("PUSH 42  ; This is also a comment"), assemble("PUSH 42"));
    assert_eq!(assemble("PUSH \"a ; b\" ; note"), assemble("PUSH \"a ; b\""));
    assert_eq!(assemble("HALT ; stop here"), assemble("HALT"));
    assert_eq!(assemble("JUMP end ; go\nend:\nHALT"), assemble("JUMP end\nend:\nHALT"));
}

#[test]
fn blank_lines_comments_and_indentation_change_nothing() {
    let plain = assemble("PUSH 1\nJUMPIF skip\nPUSH 2\nskip:\nHALT");
    let decorated = assemble(
        "; header\n\n   PUSH 1\n\tJUMPIF skip   \n; between\n\n      PUSH 2\n  skip:  \n\n HALT\n",
    );
    assert_eq!(decorated, plain);
}

#[test]
fn each_instruction_has_one_uppercase_name() {
    let names = [
        ("PUSH", OpCode::Push), ("POP", OpCode::Pop), ("DUP", OpCode::Dup),
        ("SWAP", OpCode::Swap), ("ADD", OpCode::Add), ("SUB", OpCode::Sub),
        ("MUL", OpCode::Mul), ("DIV", OpCode::Div), ("MOD", OpCode::Mod),
        ("NEG", OpCode::Neg), ("EQ", OpCode::Eq), ("NE", OpCode::Ne), ("LT", OpCode::Lt),
        ("LE", OpCode::Le), ("GT", OpCode::Gt), ("GE", OpCode::Ge), ("AND", OpCode::And),
        ("OR", OpCode::Or), ("NOT", OpCode::Not), ("JUMP", OpCode::Jump),
        ("JUMPIF", OpCode::JumpIf), ("JUMPIFNOT", OpCode::JumpIfNot), ("CALL", OpCode::Call),
        ("RETURN", OpCode::Return), ("LOAD", OpCode::Load), ("STORE", OpCode::Store),
        ("PRINT", OpCode::Print), ("INPUT", OpCode::Input), ("HALT", OpCode::Halt),
    ];
    for (name, op) in names.iter() {
        let chars: Vec<char> = name.chars().collect();
        assert_eq!(keyword_opcode(&chars), Some(*op));
        let lower: Vec<char> = name.to_lowercase().chars().collect();
        assert_eq!(keyword_opcode(&lower), None);
    }
    // Any mix of cases assembles to the same instruction.
    assert_eq!(assemble("jumpIfNot x\nx:\nhAlT"), assemble("JUMPIFNOT x\nx:\nHALT"));
}

#[test]
fn the_line_split_keeps_only_the_first_argument_it_needs() {
    // `LOAD 3 4` reads its address from the first word; the rest is ignored.
    assert_eq!(assemble("LOAD 3 4"), vec![0x50, 3]);
    // A quoted argument ends at its closing quote.
    assert_eq!(assemble("PUSH \"ab\" \"cd\""), vec![0x01, 0x04, 0, 2, b'a', b'b']);
}
