use vstd::prelude::*;

use crate::opcode::{
    OpCode, lemma_decode_encode, lemma_encode_decode, opcode_byte, opcode_of_byte, takes_operand,
};
use vstd::utf8::encode_utf8;

use crate::assembler::{
    AsmErrorModel, assemble_line_spec, assemble_spec, encode_value_spec, estimate_size_spec, is_label_line,
    is_skipped, is_string_literal, label_name, lemma_parse_int_range, parse_i64_spec,
    parse_line_spec, parse_opcode_spec, pass1_spec, pass2_spec, Interrupt, keyword_op,
    is_ascii_text, ascii_upper, upper_text,
};
use crate::bytes::{be_bytes, be_value, lemma_be_roundtrip, pow256};
use crate::text::{
    CharClass, first_in_class, is_whitespace, lemma_first_in_class_concat,
    lemma_first_in_class_found, lemma_first_word, lemma_strip_empty, lemma_strip_end_concat,
    lemma_strip_end_first, lemma_strip_end_last, lemma_strip_start_concat, lemma_strip_start_first,
    lemma_trim_around, lemma_trim_starts_with_word, split_lines, strip_end, strip_start, trim,
    trim_char, words,
};
use crate::value::{ErrorModel, Eval, ValueModel, spec_as_bool};
use crate::vm::{
    AnswerModel, StepModel, StopModel, VmState, initial_state, read_value_spec, run_spec, step_spec,
};

verus! {

/// Storing the top of the stack into a memory slot and then loading that
/// slot executes both instructions, leaves the stack as it was, and leaves
/// the slot holding the stored value: a read gives back what a write wrote.
pub proof fn lemma_store_then_load(s: VmState, addr: u8)
    requires
        s.wf(),
        s.stack.len() > 0,
        s.ip + 4 <= s.code.len(),
        s.code[s.ip as int] == opcode_byte(OpCode::Store),
        s.code[s.ip + 1] == addr,
        s.code[s.ip + 2] == opcode_byte(OpCode::Load),
        s.code[s.ip + 3] == addr,
    ensures
        ({
            let (s1, r1) = step_spec(s, seq![]);
            let (s2, r2) = step_spec(s1, seq![]);
            &&& r1 == Ok::<StepModel, ErrorModel>(StepModel::Executed)
            &&& r2 == Ok::<StepModel, ErrorModel>(StepModel::Executed)
            &&& s2.stack == s.stack
            &&& s2.memory == s.memory.update(addr as int, s.stack.last())
            &&& s2.memory[addr as int] == s.stack.last()
            &&& s2.ip == s.ip + 4
            &&& s2.wf()
        }),
{
    lemma_decode_encode(OpCode::Store);
    lemma_decode_encode(OpCode::Load);
    let (s1, r1) = step_spec(s, seq![]);
    assert(s1.stack == s.stack.drop_last());
    let (s2, r2) = step_spec(s1, seq![]);
    assert(s2.stack =~= s.stack);
}


/// Whether the instruction at the instruction pointer is `STORE addr`.
pub open spec fn stores_into(s: VmState, addr: u8) -> bool {
    &&& s.ip + 1 < s.code.len()
    &&& s.code[s.ip as int] == opcode_byte(OpCode::Store)
    &&& s.code[s.ip + 1] == addr
}

/// Whether the instruction at the instruction pointer is `LOAD addr`.
pub open spec fn loads_from(s: VmState, addr: u8) -> bool {
    &&& s.ip + 1 < s.code.len()
    &&& s.code[s.ip as int] == opcode_byte(OpCode::Load)
    &&& s.code[s.ip + 1] == addr
}

/// A step, whatever answers it is given, leaves a memory slot as it was
/// unless it executes a `STORE` into that slot.
pub proof fn lemma_step_keeps_memory(s: VmState, answers: Seq<AnswerModel>, addr: u8)
    requires
        s.wf(),
        !stores_into(s, addr),
    ensures
        step_spec(s, answers).0.memory[addr as int] == s.memory[addr as int],
        step_spec(s, answers).0.wf(),
        step_spec(s, answers).0.code == s.code,
{
    if s.ip < s.code.len() {
        lemma_encode_decode(s.code[s.ip as int]);
        match opcode_of_byte(s.code[s.ip as int]) {
            Some(OpCode::Push) => {},
            Some(OpCode::Pop) => {},
            Some(OpCode::Dup) => {},
            Some(OpCode::Swap) => {},
            Some(OpCode::Add) => {},
            Some(OpCode::Sub) => {},
            Some(OpCode::Mul) => {},
            Some(OpCode::Div) => {},
            Some(OpCode::Mod) => {},
            Some(OpCode::Neg) => {},
            Some(OpCode::Eq) => {},
            Some(OpCode::Ne) => {},
            Some(OpCode::Lt) => {},
            Some(OpCode::Le) => {},
            Some(OpCode::Gt) => {},
            Some(OpCode::Ge) => {},
            Some(OpCode::And) => {},
            Some(OpCode::Or) => {},
            Some(OpCode::Not) => {},
            Some(OpCode::Jump) => {},
            Some(OpCode::JumpIf) => {},
            Some(OpCode::JumpIfNot) => {},
            Some(OpCode::Call) => {},
            Some(OpCode::Return) => {},
            Some(OpCode::Load) => {},
            Some(OpCode::Store) => {},
            Some(OpCode::Print) => {},
            Some(OpCode::Input) => {},
            Some(OpCode::Halt) => {},
            None => {},
        }
    }
}

/// Whether `states` is a run of the machine: each state is what a step,
/// given the answers at the same place in `answers`, makes of the one
/// before.
pub open spec fn is_run(states: Seq<VmState>, answers: Seq<Seq<AnswerModel>>) -> bool {
    &&& states.len() == answers.len() + 1
    &&& forall|i: int|
        0 <= i < answers.len() ==> states[i + 1] == #[trigger] step_spec(states[i], answers[i]).0
}

/// Along a run in which no step executes a `STORE` into a slot, the slot
/// keeps its value.
pub proof fn lemma_run_keeps_memory(
    states: Seq<VmState>,
    answers: Seq<Seq<AnswerModel>>,
    addr: u8,
)
    requires
        is_run(states, answers),
        states[0].wf(),
        forall|i: int| 0 <= i < answers.len() ==> !stores_into(#[trigger] states[i], addr),
    ensures
        states.last().memory[addr as int] == states[0].memory[addr as int],
        states.last().wf(),
        states.last().code == states[0].code,
    decreases answers.len(),
{
    if answers.len() > 0 {
        let n = answers.len() - 1;
        let prefix = states.drop_last();
        let pa = answers.drop_last();
        assert(is_run(prefix, pa)) by {
            assert forall|i: int| 0 <= i < pa.len() implies prefix[i + 1] == #[trigger] step_spec(
                prefix[i],
                pa[i],
            ).0 by {
                assert(states[i + 1] == step_spec(states[i], answers[i]).0);
            }
        }
        assert forall|i: int| 0 <= i < pa.len() implies !stores_into(#[trigger] prefix[i], addr) by {
            assert(!stores_into(states[i], addr));
        }
        lemma_run_keeps_memory(prefix, pa, addr);
        assert(!stores_into(states[n], addr));
        assert(states[n + 1] == step_spec(states[n], answers[n]).0);
        lemma_step_keeps_memory(states[n], answers[n], addr);
    }
}

/// A read gives back the last write: after a `STORE` into a slot of a value
/// `v` that stands on top of the stack, a run of steps none of which stores
/// into that slot, ending at a `LOAD` of it, makes that `LOAD` push `v`.
pub proof fn lemma_load_gives_last_store(
    states: Seq<VmState>,
    answers: Seq<Seq<AnswerModel>>,
    addr: u8,
    load_answers: Seq<AnswerModel>,
)
    requires
        is_run(states, answers),
        answers.len() >= 1,
        states[0].wf(),
        stores_into(states[0], addr),
        states[0].stack.len() > 0,
        forall|i: int| 1 <= i < answers.len() ==> !stores_into(#[trigger] states[i], addr),
        loads_from(states.last(), addr),
    ensures
        step_spec(states.last(), load_answers) == (
            states.last().at((states.last().ip + 2) as usize).push(states[0].stack.last()),
            Ok::<StepModel, ErrorModel>(StepModel::Executed),
        ),
{
    lemma_decode_encode(OpCode::Store);
    lemma_decode_encode(OpCode::Load);
    assert(states[1] == step_spec(states[0], answers[0]).0);
    let rest = states.drop_first();
    let ra = answers.drop_first();
    assert(is_run(rest, ra)) by {
        assert forall|i: int| 0 <= i < ra.len() implies rest[i + 1] == #[trigger] step_spec(
            rest[i],
            ra[i],
        ).0 by {
            assert(states[i + 2] == step_spec(states[i + 1], answers[i + 1]).0);
        }
    }
    assert forall|i: int| 0 <= i < ra.len() implies !stores_into(#[trigger] rest[i], addr) by {
        assert(!stores_into(states[i + 1], addr));
    }
    lemma_run_keeps_memory(rest, ra, addr);
}

/// A read of a slot that nothing has written gives `null`: from the
/// machine's start, a run of steps none of which stores into a slot, ending
/// at a `LOAD` of it, makes that `LOAD` push `null`.
pub proof fn lemma_load_unwritten_is_null(
    states: Seq<VmState>,
    answers: Seq<Seq<AnswerModel>>,
    addr: u8,
    load_answers: Seq<AnswerModel>,
)
    requires
        is_run(states, answers),
        states[0] == initial_state(states[0].code),
        states[0].code.len() <= usize::MAX,
        forall|i: int| 0 <= i < answers.len() ==> !stores_into(#[trigger] states[i], addr),
        loads_from(states.last(), addr),
    ensures
        step_spec(states.last(), load_answers) == (
            states.last().at((states.last().ip + 2) as usize).push(ValueModel::Null),
            Ok::<StepModel, ErrorModel>(StepModel::Executed),
        ),
{
    lemma_decode_encode(OpCode::Load);
    lemma_run_keeps_memory(states, answers, addr);
}

/// Whether a value is true as a condition: a boolean is itself, an integer
/// is true when it is not zero (negative ones too), a string when it is not
/// empty, and null is false. (A float's truthiness is asked of the caller.)
pub open spec fn truthy(v: ValueModel) -> bool {
    match v {
        ValueModel::Boolean(b) => b,
        ValueModel::Integer(i) => i != 0,
        ValueModel::Str(t) => t.len() > 0,
        ValueModel::Null => false,
        ValueModel::Float(_) => false,
    }
}

/// The truthiness that `as_bool` gives a value that is not a float is
/// [`truthy`]: an integer is true exactly when it is not zero.
pub proof fn lemma_truthiness(v: ValueModel)
    requires
        !(v is Float),
    ensures
        spec_as_bool(v) == Eval::Ready(truthy(v)),
        v matches ValueModel::Integer(i) ==> spec_as_bool(v) == Eval::Ready(i != 0),
{
}

/// `NOT` of a value that is not a float takes it off the stack and pushes
/// the opposite of its truthiness: `false` for a non-zero integer, `true`
/// for zero.
pub proof fn lemma_not(s: VmState)
    requires
        s.wf(),
        s.ip < s.code.len(),
        s.code[s.ip as int] == opcode_byte(OpCode::Not),
        s.stack.len() > 0,
        !(s.stack.last() is Float),
    ensures
        step_spec(s, seq![]) == (
            s.at((s.ip + 1) as usize).pop().push(ValueModel::Boolean(!truthy(s.stack.last()))),
            Ok::<StepModel, ErrorModel>(StepModel::Executed),
        ),
{
    lemma_decode_encode(OpCode::Not);
}

/// A conditional jump always takes its condition off the stack, whether it
/// jumps or not. `JUMPIF` (`when` true) goes to its operand exactly when the
/// condition is truthy, `JUMPIFNOT` exactly when it is not; otherwise the
/// machine goes on past the instruction's three bytes. Nothing else changes.
pub proof fn lemma_conditional_jump(s: VmState, when: bool)
    requires
        s.wf(),
        s.ip + 3 <= s.code.len(),
        s.code[s.ip as int] == opcode_byte(
            if when {
                OpCode::JumpIf
            } else {
                OpCode::JumpIfNot
            },
        ),
        s.stack.len() > 0,
        !(s.stack.last() is Float),
    ensures
        ({
            let (s1, r) = step_spec(s, seq![]);
            let target = s.code[s.ip + 1] as int * 256 + s.code[s.ip + 2] as int;
            &&& r == Ok::<StepModel, ErrorModel>(StepModel::Executed)
            &&& s1.stack == s.stack.drop_last()
            &&& s1.memory == s.memory
            &&& s1.call_stack == s.call_stack
            &&& s1.code == s.code
            &&& s1.halted == s.halted
            &&& s1.ip == if truthy(s.stack.last()) == when {
                target
            } else {
                s.ip + 3
            }
        }),
{
    lemma_decode_encode(OpCode::JumpIf);
    lemma_decode_encode(OpCode::JumpIfNot);
    reveal_with_fuel(be_value, 3);
    let b = s.code.subrange(s.ip + 1, s.ip + 3);
    assert(b.drop_last() =~= seq![b[0]]);
    assert(b.drop_last().drop_last() =~= Seq::<u8>::empty());
}

/// `NEG` of an integer `i` other than `i64::MIN` replaces it with the
/// integer whose sum with `i` is zero, negative `i` included.
pub proof fn lemma_neg_integer(s: VmState, i: i64)
    requires
        s.wf(),
        s.ip < s.code.len(),
        s.code[s.ip as int] == opcode_byte(OpCode::Neg),
        s.stack.len() > 0,
        s.stack.last() == ValueModel::Integer(i),
        i != i64::MIN,
    ensures
        step_spec(s, seq![]).1 == Ok::<StepModel, ErrorModel>(StepModel::Executed),
        step_spec(s, seq![]).0.stack.len() == s.stack.len(),
        step_spec(s, seq![]).0.stack.drop_last() == s.stack.drop_last(),
        step_spec(s, seq![]).0.stack.last() matches ValueModel::Integer(j) && j + i == 0,
        step_spec(s, seq![]).0.ip == s.ip + 1,
{
    lemma_decode_encode(OpCode::Neg);
}

/// Whether an integer is exactly representable as a double.
pub open spec fn exact_in_double(x: i64) -> bool {
    -0x20_0000_0000_0000 <= x <= 0x20_0000_0000_0000
}

/// `LT`, `LE`, `GT`, `GE` and `EQ` on two integers `a` (below) and `b` (on
/// top) that doubles hold exactly take both off the stack and push whether
/// `a < b`, `a <= b`, `a > b`, `a >= b` and `a == b`: so `LE` of two equal
/// integers is true, and `LE` is `LT` or `EQ`.
pub proof fn lemma_integer_comparisons(s: VmState, a: i64, b: i64)
    requires
        s.wf(),
        s.ip < s.code.len(),
        s.stack.len() >= 2,
        s.stack[s.stack.len() - 2] == ValueModel::Integer(a),
        s.stack.last() == ValueModel::Integer(b),
        exact_in_double(a),
        exact_in_double(b),
    ensures
        ({
            let rest = s.at((s.ip + 1) as usize).pop().pop();
            let done = Ok::<StepModel, ErrorModel>(StepModel::Executed);
            &&& s.code[s.ip as int] == opcode_byte(OpCode::Lt) ==> step_spec(s, seq![]) == (
                rest.push(ValueModel::Boolean(a < b)),
                done,
            )
            &&& s.code[s.ip as int] == opcode_byte(OpCode::Le) ==> step_spec(s, seq![]) == (
                rest.push(ValueModel::Boolean(a <= b)),
                done,
            )
            &&& s.code[s.ip as int] == opcode_byte(OpCode::Gt) ==> step_spec(s, seq![]) == (
                rest.push(ValueModel::Boolean(a > b)),
                done,
            )
            &&& s.code[s.ip as int] == opcode_byte(OpCode::Ge) ==> step_spec(s, seq![]) == (
                rest.push(ValueModel::Boolean(a >= b)),
                done,
            )
            &&& s.code[s.ip as int] == opcode_byte(OpCode::Eq) ==> step_spec(s, seq![]) == (
                rest.push(ValueModel::Boolean(a == b)),
                done,
            )
        }),
{
    lemma_decode_encode(OpCode::Lt);
    lemma_decode_encode(OpCode::Le);
    lemma_decode_encode(OpCode::Gt);
    lemma_decode_encode(OpCode::Ge);
    lemma_decode_encode(OpCode::Eq);
}

/// `EQ` and `NE` on two values that are not both floats take both off the
/// stack and push whether they are equal: of the same kind and the same
/// contents (two strings exactly when their chars are the same), or not.
pub proof fn lemma_equality(s: VmState, a: ValueModel, b: ValueModel)
    requires
        s.wf(),
        s.ip < s.code.len(),
        s.stack.len() >= 2,
        s.stack[s.stack.len() - 2] == a,
        s.stack.last() == b,
        !(a is Float && b is Float),
    ensures
        ({
            let rest = s.at((s.ip + 1) as usize).pop().pop();
            let done = Ok::<StepModel, ErrorModel>(StepModel::Executed);
            &&& s.code[s.ip as int] == opcode_byte(OpCode::Eq) ==> step_spec(s, seq![]) == (
                rest.push(ValueModel::Boolean(a == b)),
                done,
            )
            &&& s.code[s.ip as int] == opcode_byte(OpCode::Ne) ==> step_spec(s, seq![]) == (
                rest.push(ValueModel::Boolean(a != b)),
                done,
            )
        }),
{
    lemma_decode_encode(OpCode::Eq);
    lemma_decode_encode(OpCode::Ne);
}

/// `EQ` on two strings pushes whether their chars are the same: strings of
/// one length but other chars are not equal.
pub proof fn lemma_string_equality(s: VmState, x: Seq<char>, y: Seq<char>)
    requires
        s.wf(),
        s.ip < s.code.len(),
        s.code[s.ip as int] == opcode_byte(OpCode::Eq),
        s.stack.len() >= 2,
        s.stack[s.stack.len() - 2] == ValueModel::Str(x),
        s.stack.last() == ValueModel::Str(y),
    ensures
        step_spec(s, seq![]) == (
            s.at((s.ip + 1) as usize).pop().pop().push(ValueModel::Boolean(x == y)),
            Ok::<StepModel, ErrorModel>(StepModel::Executed),
        ),
{
    lemma_equality(s, ValueModel::Str(x), ValueModel::Str(y));
}

/// A step that waits for an answer, or refuses one, changes nothing.
pub proof fn lemma_waiting_step_changes_nothing(s: VmState, answers: Seq<AnswerModel>)
    requires
        s.wf(),
    ensures
        step_spec(s, answers).1 matches Ok(StepModel::Ask(_)) ==> step_spec(s, answers).0 == s,
        step_spec(s, answers).1 == Err::<StepModel, ErrorModel>(ErrorModel::UnexpectedAnswer)
            ==> step_spec(s, answers).0 == s,
{
    if s.ip < s.code.len() {
        match opcode_of_byte(s.code[s.ip as int]) {
            Some(OpCode::Push) => {},
            Some(OpCode::Pop) => {},
            Some(OpCode::Dup) => {},
            Some(OpCode::Swap) => {},
            Some(OpCode::Add) => {},
            Some(OpCode::Sub) => {},
            Some(OpCode::Mul) => {},
            Some(OpCode::Div) => {},
            Some(OpCode::Mod) => {},
            Some(OpCode::Neg) => {},
            Some(OpCode::Eq) => {},
            Some(OpCode::Ne) => {},
            Some(OpCode::Lt) => {},
            Some(OpCode::Le) => {},
            Some(OpCode::Gt) => {},
            Some(OpCode::Ge) => {},
            Some(OpCode::And) => {},
            Some(OpCode::Or) => {},
            Some(OpCode::Not) => {},
            Some(OpCode::Jump) => {},
            Some(OpCode::JumpIf) => {},
            Some(OpCode::JumpIfNot) => {},
            Some(OpCode::Call) => {},
            Some(OpCode::Return) => {},
            Some(OpCode::Load) => {},
            Some(OpCode::Store) => {},
            Some(OpCode::Print) => {},
            Some(OpCode::Input) => {},
            Some(OpCode::Halt) => {},
            None => {},
        }
    }
}

/// `CALL` to an address that holds `RETURN` comes back to the instruction
/// after the `CALL`, with the stacks and memory as they were.
pub proof fn lemma_call_then_return(s: VmState, target: u16)
    requires
        s.wf(),
        s.ip + 3 <= s.code.len(),
        s.code[s.ip as int] == opcode_byte(OpCode::Call),
        s.code[s.ip + 1] == (target / 256) as u8,
        s.code[s.ip + 2] == (target % 256) as u8,
        target < s.code.len(),
        s.code[target as int] == opcode_byte(OpCode::Return),
    ensures
        ({
            let (s1, r1) = step_spec(s, seq![]);
            let (s2, r2) = step_spec(s1, seq![]);
            &&& r1 == Ok::<StepModel, ErrorModel>(StepModel::Executed)
            &&& s1.ip == target
            &&& s1.call_stack == s.call_stack.push((s.ip + 3) as usize)
            &&& r2 == Ok::<StepModel, ErrorModel>(StepModel::Executed)
            &&& s2 == s.at((s.ip + 3) as usize)
        }),
{
    lemma_decode_encode(OpCode::Call);
    lemma_decode_encode(OpCode::Return);
    reveal_with_fuel(be_value, 3);
    let b = s.code.subrange(s.ip + 1, s.ip + 3);
    assert(b.drop_last() =~= seq![b[0]]);
    assert(b.drop_last().drop_last() =~= Seq::<u8>::empty());
    let (s1, r1) = step_spec(s, seq![]);
    assert(s1.call_stack.drop_last() =~= s.call_stack);
}

/// `HALT` halts the machine, which then stops running: a run that meets it
/// finishes.
pub proof fn lemma_halt_finishes(s: VmState, fuel: nat)
    requires
        s.wf(),
        s.ip < s.code.len(),
        !s.halted,
        s.code[s.ip as int] == opcode_byte(OpCode::Halt),
        fuel >= 1,
    ensures
        step_spec(s, seq![]).0.halted,
        !step_spec(s, seq![]).0.running(),
        run_spec(s, fuel) == (step_spec(s, seq![]).0, Ok::<StopModel, ErrorModel>(StopModel::Finished)),
{
    lemma_decode_encode(OpCode::Halt);
    let s1 = step_spec(s, seq![]).0;
    assert(run_spec(s1, (fuel - 1) as nat) == (s1, Ok::<StopModel, ErrorModel>(StopModel::Finished)));
}


/// The name of an instruction in assembly, in uppercase.
pub open spec fn mnemonic(op: OpCode) -> Seq<char> {
    match op {
        OpCode::Push => "PUSH"@,
        OpCode::Pop => "POP"@,
        OpCode::Dup => "DUP"@,
        OpCode::Swap => "SWAP"@,
        OpCode::Add => "ADD"@,
        OpCode::Sub => "SUB"@,
        OpCode::Mul => "MUL"@,
        OpCode::Div => "DIV"@,
        OpCode::Mod => "MOD"@,
        OpCode::Neg => "NEG"@,
        OpCode::Eq => "EQ"@,
        OpCode::Ne => "NE"@,
        OpCode::Lt => "LT"@,
        OpCode::Le => "LE"@,
        OpCode::Gt => "GT"@,
        OpCode::Ge => "GE"@,
        OpCode::And => "AND"@,
        OpCode::Or => "OR"@,
        OpCode::Not => "NOT"@,
        OpCode::Jump => "JUMP"@,
        OpCode::JumpIf => "JUMPIF"@,
        OpCode::JumpIfNot => "JUMPIFNOT"@,
        OpCode::Call => "CALL"@,
        OpCode::Return => "RETURN"@,
        OpCode::Load => "LOAD"@,
        OpCode::Store => "STORE"@,
        OpCode::Print => "PRINT"@,
        OpCode::Input => "INPUT"@,
        OpCode::Halt => "HALT"@,
    }
}

/// Each mnemonic differs from every other in its length or in one of its
/// first two chars, so the name test of each instruction is met by its own
/// mnemonic alone.
#[verifier::spinoff_prover]
proof fn lemma_keyword_of_mnemonic(op: OpCode)
    ensures
        keyword_op(mnemonic(op)) == Some(op),
{
    reveal_strlit("PUSH");
    reveal_strlit("POP");
    reveal_strlit("DUP");
    reveal_strlit("SWAP");
    reveal_strlit("ADD");
    reveal_strlit("SUB");
    reveal_strlit("MUL");
    reveal_strlit("DIV");
    reveal_strlit("MOD");
    reveal_strlit("NEG");
    reveal_strlit("EQ");
    reveal_strlit("NE");
    reveal_strlit("LT");
    reveal_strlit("LE");
    reveal_strlit("GT");
    reveal_strlit("GE");
    reveal_strlit("AND");
    reveal_strlit("OR");
    reveal_strlit("NOT");
    reveal_strlit("JUMP");
    reveal_strlit("JUMPIF");
    reveal_strlit("JUMPIFNOT");
    reveal_strlit("CALL");
    reveal_strlit("RETURN");
    reveal_strlit("LOAD");
    reveal_strlit("STORE");
    reveal_strlit("PRINT");
    reveal_strlit("INPUT");
    reveal_strlit("HALT");
    assert("PUSH"@.len() == 4 && "PUSH"@[0] == 'P' && "PUSH"@[1] == 'U');
    assert("POP"@.len() == 3 && "POP"@[0] == 'P' && "POP"@[1] == 'O');
    assert("DUP"@.len() == 3 && "DUP"@[0] == 'D' && "DUP"@[1] == 'U');
    assert("SWAP"@.len() == 4 && "SWAP"@[0] == 'S' && "SWAP"@[1] == 'W');
    assert("ADD"@.len() == 3 && "ADD"@[0] == 'A' && "ADD"@[1] == 'D');
    assert("SUB"@.len() == 3 && "SUB"@[0] == 'S' && "SUB"@[1] == 'U');
    assert("MUL"@.len() == 3 && "MUL"@[0] == 'M' && "MUL"@[1] == 'U');
    assert("DIV"@.len() == 3 && "DIV"@[0] == 'D' && "DIV"@[1] == 'I');
    assert("MOD"@.len() == 3 && "MOD"@[0] == 'M' && "MOD"@[1] == 'O');
    assert("NEG"@.len() == 3 && "NEG"@[0] == 'N' && "NEG"@[1] == 'E');
    assert("EQ"@.len() == 2 && "EQ"@[0] == 'E' && "EQ"@[1] == 'Q');
    assert("NE"@.len() == 2 && "NE"@[0] == 'N' && "NE"@[1] == 'E');
    assert("LT"@.len() == 2 && "LT"@[0] == 'L' && "LT"@[1] == 'T');
    assert("LE"@.len() == 2 && "LE"@[0] == 'L' && "LE"@[1] == 'E');
    assert("GT"@.len() == 2 && "GT"@[0] == 'G' && "GT"@[1] == 'T');
    assert("GE"@.len() == 2 && "GE"@[0] == 'G' && "GE"@[1] == 'E');
    assert("AND"@.len() == 3 && "AND"@[0] == 'A' && "AND"@[1] == 'N');
    assert("OR"@.len() == 2 && "OR"@[0] == 'O' && "OR"@[1] == 'R');
    assert("NOT"@.len() == 3 && "NOT"@[0] == 'N' && "NOT"@[1] == 'O');
    assert("JUMP"@.len() == 4 && "JUMP"@[0] == 'J' && "JUMP"@[1] == 'U');
    assert("JUMPIF"@.len() == 6 && "JUMPIF"@[0] == 'J' && "JUMPIF"@[1] == 'U');
    assert("JUMPIFNOT"@.len() == 9 && "JUMPIFNOT"@[0] == 'J' && "JUMPIFNOT"@[1] == 'U');
    assert("CALL"@.len() == 4 && "CALL"@[0] == 'C' && "CALL"@[1] == 'A');
    assert("RETURN"@.len() == 6 && "RETURN"@[0] == 'R' && "RETURN"@[1] == 'E');
    assert("LOAD"@.len() == 4 && "LOAD"@[0] == 'L' && "LOAD"@[1] == 'O');
    assert("STORE"@.len() == 5 && "STORE"@[0] == 'S' && "STORE"@[1] == 'T');
    assert("PRINT"@.len() == 5 && "PRINT"@[0] == 'P' && "PRINT"@[1] == 'R');
    assert("INPUT"@.len() == 5 && "INPUT"@[0] == 'I' && "INPUT"@[1] == 'N');
    assert("HALT"@.len() == 4 && "HALT"@[0] == 'H' && "HALT"@[1] == 'A');
    match op {
        OpCode::Push => {},
        OpCode::Pop => {},
        OpCode::Dup => {},
        OpCode::Swap => {},
        OpCode::Add => {},
        OpCode::Sub => {},
        OpCode::Mul => {},
        OpCode::Div => {},
        OpCode::Mod => {},
        OpCode::Neg => {},
        OpCode::Eq => {},
        OpCode::Ne => {},
        OpCode::Lt => {},
        OpCode::Le => {},
        OpCode::Gt => {},
        OpCode::Ge => {},
        OpCode::And => {},
        OpCode::Or => {},
        OpCode::Not => {},
        OpCode::Jump => {},
        OpCode::JumpIf => {},
        OpCode::JumpIfNot => {},
        OpCode::Call => {},
        OpCode::Return => {},
        OpCode::Load => {},
        OpCode::Store => {},
        OpCode::Print => {},
        OpCode::Input => {},
        OpCode::Halt => {},
    }
}

/// Every instruction has exactly one uppercase name, its mnemonic, and the
/// assembler reads that name in any mix of ASCII cases.
pub proof fn lemma_mnemonics(op: OpCode, w: Seq<char>)
    ensures
        keyword_op(mnemonic(op)) == Some(op),
        keyword_op(w) == Some(op) ==> w == mnemonic(op),
        is_ascii_text(w) && ascii_upper(w) == mnemonic(op) ==> parse_opcode_spec(w) == Ok::<
            OpCode,
            AsmErrorModel,
        >(op),
{
    lemma_keyword_of_mnemonic(op);
    if is_ascii_text(w) && ascii_upper(w) == mnemonic(op) {
        assert(upper_text(w) == ascii_upper(w));
    }
}

/// The value that a literal stands for: a string its chars between the
/// quotes, `true`, `false`, `null` themselves, a float the bits given for
/// it, an integer its `i64`.
pub open spec fn literal_value(v: Seq<char>, floats: Seq<Option<u64>>, k: nat) -> ValueModel {
    if is_string_literal(v) {
        ValueModel::Str(trim_char(v, '"'))
    } else if v == "true"@ {
        ValueModel::Boolean(true)
    } else if v == "false"@ {
        ValueModel::Boolean(false)
    } else if v == "null"@ {
        ValueModel::Null
    } else if v.contains('.') {
        match floats[k as int] {
            Some(bits) => ValueModel::Float(bits),
            None => ValueModel::Null,
        }
    } else {
        match parse_i64_spec(v) {
            Ok(i) => ValueModel::Integer(i as i64),
            Err(_) => ValueModel::Null,
        }
    }
}

/// The bytes that the assembler writes for a literal.
pub open spec fn encoded_literal(v: Seq<char>, floats: Seq<Option<u64>>, k: nat) -> Seq<u8> {
    match encode_value_spec(v, floats, k) {
        Ok((b, _)) => b,
        Err(_) => seq![],
    }
}

proof fn lemma_be_bytes_value(x: nat, n: nat)
    requires
        x < pow256(n),
    ensures
        be_value(be_bytes(x, n)) == x,
        be_bytes(x, n).len() == n,
{
    lemma_be_roundtrip(x, n);
    vstd::arithmetic::div_mod::lemma_small_mod(x, pow256(n));
}

proof fn lemma_i64_u64_roundtrip(i: i64)
    ensures
        ((i as u64) as i64) == i,
{
    assert(((i as u64) as i64) == i) by (bit_vector);
}

/// What the assembler writes for a literal, the machine reads back as the
/// literal's value, past the literal's bytes (for a string, one whose UTF-8
/// length fits in the 16 bits of its length field).
pub proof fn lemma_literal_roundtrip(v: Seq<char>, floats: Seq<Option<u64>>, k: nat, s: VmState)
    requires
        s.wf(),
        encode_value_spec(v, floats, k) is Ok,
        is_string_literal(v) ==> encode_utf8(trim_char(v, '"')).len() < 0x1_0000,
        s.ip + encoded_literal(v, floats, k).len() <= s.code.len(),
        s.code.subrange(s.ip as int, s.ip + encoded_literal(v, floats, k).len())
            == encoded_literal(v, floats, k),
    ensures
        read_value_spec(s) == (
            s.at((s.ip + encoded_literal(v, floats, k).len()) as usize),
            Ok::<ValueModel, ErrorModel>(literal_value(v, floats, k)),
        ),
{
    let b = encoded_literal(v, floats, k);
    let ip = s.ip as int;
    assert forall|j: int| 0 <= j < b.len() implies s.code[ip + j] == b[j] by {
        assert(s.code.subrange(ip, ip + b.len())[j] == s.code[ip + j]);
    }
    assert(s.code[ip] == b[0]);
    assert(pow256(8) == 0x1_0000_0000_0000_0000) by {
        reveal_with_fuel(pow256, 9);
    }
    assert(pow256(2) == 0x1_0000) by {
        reveal_with_fuel(pow256, 3);
    }
    if is_string_literal(v) {
        let c = trim_char(v, '"');
        let e = encode_utf8(c);
        let len = e.len();
        assert(b == seq![0x04u8, ((len / 256) % 256) as u8, (len % 256) as u8] + e);
        let lb = s.code.subrange(ip + 1, ip + 3);
        assert(lb[0] == b[1] && lb[1] == b[2]);
        assert(lb =~= seq![((len / 256) % 256) as u8, (len % 256) as u8]);
        lemma_be_bytes_value(len, 2);
        assert(be_bytes(len, 2) =~= lb) by {
            reveal_with_fuel(be_bytes, 3);
        }
        assert forall|j: int| 0 <= j < len implies s.code[ip + 3 + j] == e[j] by {
            assert(b[3 + j] == e[j]);
        }
        assert(s.code.subrange(ip + 3, ip + 3 + len) =~= e);
        vstd::utf8::encode_utf8_valid_utf8(c);
        vstd::utf8::encode_utf8_decode_utf8(c);
    } else if v == "true"@ || v == "false"@ {
        assert(s.code[ip + 1] == b[1]);
    } else if v == "null"@ {
    } else if v.contains('.') {
        let bits = floats[k as int]->Some_0;
        lemma_be_bytes_value(bits as nat, 8);
        let e = be_bytes(bits as nat, 8);
        assert(b == seq![0x02u8] + e);
        assert forall|j: int| 0 <= j < 8 implies s.code[ip + 1 + j] == e[j] by {
            assert(b[1 + j] == e[j]);
        }
        assert(s.code.subrange(ip + 1, ip + 9) =~= e);
    } else {
        let i = parse_i64_spec(v)->Ok_0;
        lemma_parse_int_range(v, true, i64::MAX as int, -(i64::MIN as int));
        let x = (#[verifier::truncate] ((i as i64) as u64)) as nat;
        lemma_be_bytes_value(x, 8);
        let e = be_bytes(x, 8);
        assert(b == seq![0x01u8] + e);
        assert forall|j: int| 0 <= j < 8 implies s.code[ip + 1 + j] == e[j] by {
            assert(b[1 + j] == e[j]);
        }
        assert(s.code.subrange(ip + 1, ip + 9) =~= e);
        lemma_i64_u64_roundtrip(i as i64);
    }
}

/// `PUSH` of what the assembler wrote for a literal pushes the literal's
/// value and moves past it.
pub proof fn lemma_push_literal(v: Seq<char>, floats: Seq<Option<u64>>, k: nat, s: VmState)
    requires
        s.wf(),
        encode_value_spec(v, floats, k) is Ok,
        is_string_literal(v) ==> encode_utf8(trim_char(v, '"')).len() < 0x1_0000,
        s.ip + 1 + encoded_literal(v, floats, k).len() <= s.code.len(),
        s.code[s.ip as int] == opcode_byte(OpCode::Push),
        s.code.subrange(s.ip + 1, s.ip + 1 + encoded_literal(v, floats, k).len())
            == encoded_literal(v, floats, k),
    ensures
        step_spec(s, seq![]) == (
            s.at((s.ip + 1 + encoded_literal(v, floats, k).len()) as usize).push(
                literal_value(v, floats, k),
            ),
            Ok::<StepModel, ErrorModel>(StepModel::Executed),
        ),
{
    lemma_decode_encode(OpCode::Push);
    let s1 = s.at((s.ip + 1) as usize);
    lemma_literal_roundtrip(v, floats, k, s1);
}


proof fn lemma_quoted_argument(line: Seq<char>)
    ensures
        parse_line_spec(line) matches Ok((_, args)) ==> (args.len() > 0 && args[0].len() > 0
            && args[0][0] == '"' ==> is_string_literal(args[0])),
{
    let t = trim(line);
    let p = first_in_class(t, CharClass::Whitespace);
    if p < t.len() {
        let rest = trim(t.skip(p));
        lemma_trim_starts_with_word(t.skip(p));
        if rest.len() > 0 && rest[0] == '"' {
            lemma_first_in_class_found(rest.drop_first(), CharClass::Exactly('"'));
            let q = first_in_class(rest.drop_first(), CharClass::Exactly('"'));
            if q < rest.len() - 1 {
                assert(rest.drop_first()[q] == rest[q + 1]);
            }
        } else if rest.len() > 0 {
            lemma_first_word(rest);
            lemma_first_in_class_found(rest, CharClass::Whitespace);
        }
    }
}

/// The first pass reserves for an instruction line exactly the bytes that
/// the second pass writes for it.
pub proof fn lemma_line_size(
    t: Seq<char>,
    line_num: nat,
    labels: Seq<(Seq<char>, usize)>,
    pending: Seq<(usize, Seq<char>)>,
    code: Seq<u8>,
    floats: Seq<Option<u64>>,
    k: nat,
)
    requires
        assemble_line_spec(t, line_num, labels, pending, code, floats, k).1 is Ok,
    ensures
        parse_line_spec(t) matches Ok((instr, args)) && estimate_size_spec(instr, args) == Ok::<
            nat,
            AsmErrorModel,
        >(
            (assemble_line_spec(t, line_num, labels, pending, code, floats, k).1->Ok_0.0.len()
                - code.len()) as nat,
        ),
{
    lemma_quoted_argument(t);
    let (instr, args) = parse_line_spec(t)->Ok_0;
    let op = parse_opcode_spec(instr)->Ok_0;
    if op == OpCode::Push {
        let v = args[0];
        let (b, _) = encode_value_spec(v, floats, k)->Ok_0;
        if is_string_literal(v) {
        } else if v == "true"@ || v == "false"@ || v == "null"@ {
        } else if v.contains('.') {
            lemma_be_roundtrip(floats[k as int]->Some_0 as nat, 8);
        } else {
            let i = parse_i64_spec(v)->Ok_0;
            lemma_be_roundtrip((#[verifier::truncate] ((i as i64) as u64)) as nat, 8);
        }
    }
}

/// The two passes agree from any line on which they start at the same size: the size that the first pass computes for the
/// rest of the program is the size of the bytecode that the second writes.
pub proof fn lemma_sizes_agree(
    lines: Seq<Seq<char>>,
    i: nat,
    labels1: Seq<(Seq<char>, usize)>,
    labels: Seq<(Seq<char>, usize)>,
    pending: Seq<(usize, Seq<char>)>,
    code: Seq<u8>,
    floats: Seq<Option<u64>>,
    k: nat,
)
    requires
        pass1_spec(lines, i, labels1, code.len()).1 is Ok,
        pass2_spec(lines, i, labels, pending, code, floats, k).1 is Ok,
    ensures
        pass1_spec(lines, i, labels1, code.len()).1->Ok_0 == pass2_spec(
            lines,
            i,
            labels,
            pending,
            code,
            floats,
            k,
        ).1->Ok_0.len(),
    decreases lines.len() - i,
{
    if i < lines.len() {
        let t = trim(lines[i as int]);
        if is_skipped(t) {
            lemma_sizes_agree(lines, i + 1, labels1, labels, pending, code, floats, k);
        } else if is_label_line(t) {
            lemma_sizes_agree(
                lines,
                i + 1,
                labels1.push((label_name(t), code.len() as usize)),
                labels,
                pending,
                code,
                floats,
                k,
            );
        } else {
            lemma_line_size(t, i + 1, labels, pending, code, floats, k);
            let (p2, r) = assemble_line_spec(t, i + 1, labels, pending, code, floats, k);
            let (code2, k2) = r->Ok_0;
            lemma_sizes_agree(lines, i + 1, labels1, labels, p2, code2, floats, k2);
        }
    }
}

/// Every label lies where the program's instructions before it end: for the first `j` lines of a source, the size that the
/// first pass gives them (the address it records for a label on line `j`)
/// is the length of the bytecode that the second pass writes for them.
pub proof fn lemma_labels_mark_instructions(
    source: Seq<char>,
    j: nat,
    labels1: Seq<(Seq<char>, usize)>,
    labels: Seq<(Seq<char>, usize)>,
    pending: Seq<(usize, Seq<char>)>,
    floats: Seq<Option<u64>>,
)
    requires
        j <= split_lines(source).len(),
        pass1_spec(split_lines(source).take(j as int), 0, labels1, 0).1 is Ok,
        pass2_spec(split_lines(source).take(j as int), 0, labels, pending, seq![], floats, 0).1 is Ok,
    ensures
        pass1_spec(split_lines(source).take(j as int), 0, labels1, 0).1->Ok_0 == pass2_spec(
            split_lines(source).take(j as int),
            0,
            labels,
            pending,
            seq![],
            floats,
            0,
        ).1->Ok_0.len(),
{
    let lines = split_lines(source).take(j as int);
    lemma_sizes_agree(lines, 0, labels1, labels, pending, seq![], floats, 0);
}


/// What an instruction line means to the assembler.
pub enum LineMeaning {
    /// A label definition, with the label.
    Label(Seq<char>),
    /// An instruction with its name and, for one that reads an operand, its
    /// first argument.
    Instr(Seq<char>, Option<Seq<char>>),
    /// A line that does not split, with the error.
    Bad(AsmErrorModel),
}

/// The meaning of a trimmed line that is neither empty nor a comment: its
/// label, or its instruction name with the operand that the instruction
/// reads; the other arguments are ignored.
pub open spec fn line_meaning(t: Seq<char>) -> LineMeaning {
    if is_label_line(t) {
        LineMeaning::Label(label_name(t))
    } else {
        match parse_line_spec(t) {
            Err(e) => LineMeaning::Bad(e),
            Ok((instr, args)) => LineMeaning::Instr(
                instr,
                if args.len() > 0 && (parse_opcode_spec(instr) matches Ok(op) && takes_operand(op)) {
                    Some(args[0])
                } else {
                    None
                },
            ),
        }
    }
}

/// The meanings of the lines from the `i`-th on that are neither empty nor
/// comments, in order.
pub open spec fn meanings(lines: Seq<Seq<char>>, i: nat) -> Seq<LineMeaning>
    decreases lines.len() - i,
{
    if i >= lines.len() {
        seq![]
    } else if is_skipped(trim(lines[i as int])) {
        meanings(lines, i + 1)
    } else {
        seq![line_meaning(trim(lines[i as int]))] + meanings(lines, i + 1)
    }
}

proof fn lemma_same_meaning_same_size(t1: Seq<char>, t2: Seq<char>)
    requires
        line_meaning(t1) == line_meaning(t2),
        !is_label_line(t1),
        !is_label_line(t2),
    ensures
        parse_line_spec(t1) is Ok <==> parse_line_spec(t2) is Ok,
        parse_line_spec(t1) is Err ==> parse_line_spec(t1) == parse_line_spec(t2),
        parse_line_spec(t1) is Ok ==> parse_line_spec(t1)->Ok_0.0 == parse_line_spec(t2)->Ok_0.0
            && estimate_size_spec(parse_line_spec(t1)->Ok_0.0, parse_line_spec(t1)->Ok_0.1)
            == estimate_size_spec(parse_line_spec(t2)->Ok_0.0, parse_line_spec(t2)->Ok_0.1),
{
}

proof fn lemma_same_meaning_same_line(
    t1: Seq<char>,
    t2: Seq<char>,
    n1: nat,
    n2: nat,
    labels: Seq<(Seq<char>, usize)>,
    pending: Seq<(usize, Seq<char>)>,
    code: Seq<u8>,
    floats: Seq<Option<u64>>,
    k: nat,
)
    requires
        line_meaning(t1) == line_meaning(t2),
        !is_label_line(t1),
        !is_label_line(t2),
    ensures
        ({
            let (p1, r1) = assemble_line_spec(t1, n1, labels, pending, code, floats, k);
            let (p2, r2) = assemble_line_spec(t2, n2, labels, pending, code, floats, k);
            &&& p1 == p2
            &&& (r1 matches Err(Interrupt::Failed(_))) == (r2 matches Err(Interrupt::Failed(_)))
            &&& !(r1 matches Err(Interrupt::Failed(_))) ==> r1 == r2
        }),
{
}

proof fn lemma_pass1_by_meanings(
    l1: Seq<Seq<char>>,
    i: nat,
    l2: Seq<Seq<char>>,
    j: nat,
    labels: Seq<(Seq<char>, usize)>,
    len: nat,
)
    requires
        i <= l1.len(),
        j <= l2.len(),
        meanings(l1, i) == meanings(l2, j),
    ensures
        pass1_spec(l1, i, labels, len) == pass1_spec(l2, j, labels, len),
    decreases l1.len() - i + l2.len() - j,
{
    if i < l1.len() && is_skipped(trim(l1[i as int])) {
        lemma_pass1_by_meanings(l1, i + 1, l2, j, labels, len);
    } else if j < l2.len() && is_skipped(trim(l2[j as int])) {
        lemma_pass1_by_meanings(l1, i, l2, j + 1, labels, len);
    } else if i < l1.len() && j < l2.len() {
        let t1 = trim(l1[i as int]);
        let t2 = trim(l2[j as int]);
        let m1 = meanings(l1, i);
        assert(m1[0] == line_meaning(t1) && meanings(l2, j)[0] == line_meaning(t2));
        assert(m1.drop_first() =~= meanings(l1, i + 1));
        assert(meanings(l2, j).drop_first() =~= meanings(l2, j + 1));
        if is_label_line(t1) {
            lemma_pass1_by_meanings(l1, i + 1, l2, j + 1, labels.push((label_name(t1), len as usize)), len);
        } else {
            lemma_same_meaning_same_size(t1, t2);
            if parse_line_spec(t1) is Ok {
                let (instr, args) = parse_line_spec(t1)->Ok_0;
                if estimate_size_spec(instr, args) is Ok {
                    let n = estimate_size_spec(instr, args)->Ok_0;
                    lemma_pass1_by_meanings(l1, i + 1, l2, j + 1, labels, len + n);
                }
            }
        }
    } else if i < l1.len() {
        assert(meanings(l1, i).len() > 0);
    } else if j < l2.len() {
        assert(meanings(l2, j).len() > 0);
    }
}

proof fn lemma_pass2_by_meanings(
    l1: Seq<Seq<char>>,
    i: nat,
    l2: Seq<Seq<char>>,
    j: nat,
    labels: Seq<(Seq<char>, usize)>,
    pending: Seq<(usize, Seq<char>)>,
    code: Seq<u8>,
    floats: Seq<Option<u64>>,
    k: nat,
)
    requires
        i <= l1.len(),
        j <= l2.len(),
        meanings(l1, i) == meanings(l2, j),
    ensures
        ({
            let (p1, r1) = pass2_spec(l1, i, labels, pending, code, floats, k);
            let (p2, r2) = pass2_spec(l2, j, labels, pending, code, floats, k);
            &&& p1 == p2
            &&& (r1 matches Err(Interrupt::Failed(_))) == (r2 matches Err(Interrupt::Failed(_)))
            &&& !(r1 matches Err(Interrupt::Failed(_))) ==> r1 == r2
        }),
    decreases l1.len() - i + l2.len() - j,
{
    if i < l1.len() && is_skipped(trim(l1[i as int])) {
        lemma_pass2_by_meanings(l1, i + 1, l2, j, labels, pending, code, floats, k);
    } else if j < l2.len() && is_skipped(trim(l2[j as int])) {
        lemma_pass2_by_meanings(l1, i, l2, j + 1, labels, pending, code, floats, k);
    } else if i < l1.len() && j < l2.len() {
        let t1 = trim(l1[i as int]);
        let t2 = trim(l2[j as int]);
        let m1 = meanings(l1, i);
        assert(m1[0] == line_meaning(t1) && meanings(l2, j)[0] == line_meaning(t2));
        assert(m1.drop_first() =~= meanings(l1, i + 1));
        assert(meanings(l2, j).drop_first() =~= meanings(l2, j + 1));
        if is_label_line(t1) {
            lemma_pass2_by_meanings(l1, i + 1, l2, j + 1, labels, pending, code, floats, k);
        } else {
            lemma_same_meaning_same_line(t1, t2, i + 1, j + 1, labels, pending, code, floats, k);
            let (p, r) = assemble_line_spec(t1, i + 1, labels, pending, code, floats, k);
            if r is Ok {
                let (c2, k2) = r->Ok_0;
                lemma_pass2_by_meanings(l1, i + 1, l2, j + 1, labels, p, c2, floats, k2);
            }
        }
    } else if i < l1.len() {
        assert(meanings(l1, i).len() > 0);
    } else if j < l2.len() {
        assert(meanings(l2, j).len() > 0);
    }
}

/// Whether two lines mean the same to the assembler: both skipped, or both
/// not and of the same meaning.
pub open spec fn same_meaning(a: Seq<char>, b: Seq<char>) -> bool {
    &&& is_skipped(trim(a)) == is_skipped(trim(b))
    &&& !is_skipped(trim(a)) ==> line_meaning(trim(a)) == line_meaning(trim(b))
}

/// Lines that mean the same one by one have the same meanings.
pub proof fn lemma_meanings_linewise(l1: Seq<Seq<char>>, l2: Seq<Seq<char>>, i: nat)
    requires
        l1.len() == l2.len(),
        forall|j: int| 0 <= j < l1.len() ==> same_meaning(#[trigger] l1[j], l2[j]),
    ensures
        meanings(l1, i) == meanings(l2, i),
    decreases l1.len() - i,
{
    if i < l1.len() {
        assert(same_meaning(l1[i as int], l2[i as int]));
        lemma_meanings_linewise(l1, l2, i + 1);
    }
}

proof fn lemma_meanings_shifted(lines: Seq<Seq<char>>, k: int, c: Seq<char>, i: nat)
    requires
        0 <= k <= lines.len(),
        k <= i <= lines.len(),
    ensures
        meanings(lines.insert(k, c), i + 1) == meanings(lines, i),
    decreases lines.len() - i,
{
    if i < lines.len() {
        assert(lines.insert(k, c)[i + 1 as int] == lines[i as int]);
        lemma_meanings_shifted(lines, k, c, i + 1);
    }
}

proof fn lemma_meanings_before_insert(lines: Seq<Seq<char>>, k: int, c: Seq<char>, i: nat)
    requires
        0 <= k <= lines.len(),
        i <= k,
        is_skipped(trim(c)),
    ensures
        meanings(lines.insert(k, c), i) == meanings(lines, i),
    decreases k - i,
{
    if i < k {
        assert(lines.insert(k, c)[i as int] == lines[i as int]);
        lemma_meanings_before_insert(lines, k, c, i + 1);
    } else {
        assert(lines.insert(k, c)[k] == c);
        lemma_meanings_shifted(lines, k, c, i);
    }
}

/// A blank line or a comment line, put anywhere among the lines, changes no
/// meaning.
pub proof fn lemma_skipped_line_changes_nothing(lines: Seq<Seq<char>>, k: int, c: Seq<char>)
    requires
        0 <= k <= lines.len(),
        is_skipped(trim(c)),
    ensures
        meanings(lines.insert(k, c), 0) == meanings(lines, 0),
{
    lemma_meanings_before_insert(lines, k, c, 0);
}

/// White space put before and after a line changes no meaning.
pub proof fn lemma_indentation_changes_nothing(
    lines: Seq<Seq<char>>,
    k: int,
    pre: Seq<char>,
    post: Seq<char>,
)
    requires
        0 <= k < lines.len(),
        forall|j: int| 0 <= j < pre.len() ==> is_whitespace(#[trigger] pre[j]),
        forall|j: int| 0 <= j < post.len() ==> is_whitespace(#[trigger] post[j]),
    ensures
        meanings(lines.update(k, pre + lines[k] + post), 0) == meanings(lines, 0),
{
    lemma_trim_around(pre, lines[k], post);
    let l2 = lines.update(k, pre + lines[k] + post);
    assert forall|j: int| 0 <= j < lines.len() implies same_meaning(#[trigger] lines[j], l2[j]) by {
        if j == k {
            assert(trim(l2[j]) == trim(lines[j]));
        }
    }
    lemma_meanings_linewise(lines, l2, 0);
}

/// A comment after an instruction (white space, `;` and a note) keeps the
/// line's meaning, when the instruction has the operand that it reads (a
/// line that lacks it would take the comment's first word for it) and the
/// line does not then end with `:`, which would make it a label.
#[verifier::spinoff_prover]
#[verifier::rlimit(40)]
pub proof fn lemma_trailing_comment_keeps_meaning(t: Seq<char>, sep: Seq<char>, note: Seq<char>)
    requires
        trim(t) == t,
        !is_skipped(t),
        !is_label_line(t),
        line_meaning(t) is Instr,
        (parse_opcode_spec(line_meaning(t)->Instr_0) matches Ok(op) && takes_operand(op))
            ==> line_meaning(t)->Instr_1 is Some,
        sep.len() > 0,
        forall|j: int| 0 <= j < sep.len() ==> is_whitespace(#[trigger] sep[j]),
        trim(t + sep + seq![';'] + note) == t + sep + seq![';'] + note,
        !is_label_line(t + sep + seq![';'] + note),
    ensures
        !is_skipped(t + sep + seq![';'] + note),
        line_meaning(t + sep + seq![';'] + note) == line_meaning(t),
{
    let ws = CharClass::Whitespace;
    let c = sep + seq![';'] + note;
    let u = t + sep + seq![';'] + note;
    assert(u =~= t + c);
    assert(c[0] == sep[0]);
    assert(c[sep.len() as int] == ';');
    assert(u[0] == t[0]);
    lemma_strip_empty(c, ws);
    lemma_strip_empty(sep, ws);
    lemma_strip_end_last(strip_start(t, ws), ws);
    lemma_first_in_class_found(t, ws);
    lemma_first_in_class_found(c, ws);
    lemma_first_in_class_concat(t, c, ws);
    let p = first_in_class(t, ws);
    assert(u.take(p) =~= t.take(p));
    if p < t.len() {
        let x = t.skip(p);
        assert(u.skip(p) =~= x + c);
        assert(x.last() == t.last());
        lemma_strip_empty(x, ws);
        lemma_strip_start_concat(x, c, ws);
        lemma_strip_end_concat(strip_start(x, ws), c, ws);
        lemma_strip_end_last(c, ws);
        let y = strip_start(x, ws);
        lemma_strip_start_first(x, ws);
        assert(y.last() == x.last()) by {
            lemma_strip_start_concat(x.drop_last(), seq![x.last()], ws);
            assert(x.drop_last() + seq![x.last()] =~= x);
            lemma_strip_empty(seq![x.last()], ws);
            assert(strip_start(seq![x.last()], ws) =~= seq![x.last()]);
        }
        let rest = trim(x);
        assert(rest == y);
        let rest2 = trim(x + c);
        let ec = strip_end(c, ws);
        assert(rest2 == rest + ec);
        assert(rest2[0] == rest[0]);
        if rest.len() > 0 && rest[0] == '"' {
            assert(rest2.drop_first() =~= rest.drop_first() + ec);
            lemma_first_in_class_concat(rest.drop_first(), ec, CharClass::Exactly('"'));
            lemma_first_in_class_found(rest.drop_first(), CharClass::Exactly('"'));
            let q = first_in_class(rest.drop_first(), CharClass::Exactly('"'));
            assert(parse_line_spec(t) is Ok);
            assert(q < rest.len() - 1);
            assert(rest2.take(q + 2) =~= rest.take(q + 2));
            assert(parse_line_spec(u) == parse_line_spec(t));
        } else {
            lemma_trim_starts_with_word(x);
            lemma_first_word(rest);
            lemma_first_word(rest2);
            lemma_strip_end_first(c, ws);
            lemma_first_in_class_found(rest, ws);
            lemma_first_in_class_concat(rest, ec, ws);
            let w = first_in_class(rest, ws);
            assert(rest2.take(w) =~= rest.take(w));
            assert(parse_line_spec(u)->Ok_0.0 == parse_line_spec(t)->Ok_0.0);
            assert(parse_line_spec(u)->Ok_0.1[0] == parse_line_spec(t)->Ok_0.1[0]);
        }
    } else {
        assert(u.skip(p) =~= c);
        lemma_strip_start_concat(sep, seq![';'] + note, ws);
        assert(sep + (seq![';'] + note) =~= c);
        let z = seq![';'] + note;
        assert(z[0] == ';');
        lemma_strip_empty(z, ws);
        lemma_strip_end_first(z, ws);
        assert(strip_start(z, ws) == z);
        assert(strip_start(c, ws) == z);
        assert(strip_end(z, ws).len() > 0);
        assert(trim(c).len() > 0 && trim(c)[0] == ';');
        assert(t.take(p) =~= t);
        assert(first_in_class(u, ws) == t.len());
        assert(parse_line_spec(u) == Ok::<(Seq<char>, Seq<Seq<char>>), AsmErrorModel>(
            (t, words(trim(c))),
        ));
        assert(parse_line_spec(t) == Ok::<(Seq<char>, Seq<Seq<char>>), AsmErrorModel>(
            (t, seq![]),
        ));
    }
}

/// An assembly depends only on the meanings of the source's lines: blank
/// lines and comment lines, the white space around a line, and the
/// arguments that an instruction does not read change nothing, but the
/// line numbers in the errors. Two sources whose lines mean the same leave
/// an assembler in the same state, fail together, and give the same
/// result when they do not fail.
pub proof fn lemma_assembly_depends_on_meanings(
    src1: Seq<char>,
    src2: Seq<char>,
    floats: Seq<Option<u64>>,
)
    requires
        meanings(split_lines(src1), 0) == meanings(split_lines(src2), 0),
    ensures
        assemble_spec(src1, floats).0 == assemble_spec(src2, floats).0,
        assemble_spec(src1, floats).1 is Err <==> assemble_spec(src2, floats).1 is Err,
        assemble_spec(src1, floats).1 is Ok ==> assemble_spec(src1, floats).1
            == assemble_spec(src2, floats).1,
{
    let l1 = split_lines(src1);
    let l2 = split_lines(src2);
    lemma_pass1_by_meanings(l1, 0, l2, 0, seq![], 0);
    let (labels1, r1) = pass1_spec(l1, 0, seq![], 0);
    if r1 is Ok {
        lemma_pass2_by_meanings(l1, 0, l2, 0, labels1, seq![], seq![], floats, 0);
    }
}

} // verus!
