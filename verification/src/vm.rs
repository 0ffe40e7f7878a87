use vstd::prelude::*;
use vstd::utf8::{valid_utf8, decode_utf8};

use crate::bytes::{be_decode, be_value, lemma_be_value_bound, pow256};
use crate::opcode::{OpCode, opcode_of_byte};
use crate::text::{trim, trimmed};
use crate::value::{
    ArithOp, CmpOp, ErrorModel, Eval, FloatOperand, FloatQuery, IntOp, Value, ValueModel,
    VmError, arith_overflows, compare_operands, models, rem_toward_zero, result_model,
    spec_arith, spec_as_bool, spec_as_float, spec_as_integer, spec_compare, spec_values_equal,
    values_equal,
};

verus! {

/// The number of memory slots of the machine.
pub const MEMORY_SLOTS: usize = 256;

/// What the caller hands the machine in answer to a [`Query`].
pub enum Answer {
    /// The bits of a float.
    Bits(u64),
    Int(i64),
    Bool(bool),
    /// The division of a float query was by a float zero.
    DivisionByZero,
    /// A line read from the input.
    Line(String),
}

/// The model of an [`Answer`].
pub enum AnswerModel {
    Bits(u64),
    Int(i64),
    Bool(bool),
    DivisionByZero,
    Line(Seq<char>),
}

impl View for Answer {
    type V = AnswerModel;

    open spec fn view(&self) -> AnswerModel {
        match self {
            Answer::Bits(b) => AnswerModel::Bits(*b),
            Answer::Int(i) => AnswerModel::Int(*i),
            Answer::Bool(b) => AnswerModel::Bool(*b),
            Answer::DivisionByZero => AnswerModel::DivisionByZero,
            Answer::Line(l) => AnswerModel::Line(l@),
        }
    }
}

pub open spec fn answers_model(a: Seq<Answer>) -> Seq<AnswerModel> {
    a.map_values(|x: Answer| x@)
}

/// Outside work that an instruction waits for: a float computation, or a
/// line of input.
#[derive(Debug, Clone, Copy, PartialEq, Eq, Structural)]
pub enum Query {
    Float(FloatQuery),
    Line,
}

/// What one step of the machine did.
pub enum Step {
    /// The instruction was executed.
    Executed,
    /// A `PRINT` took this value off the stack, for the caller to print.
    Print(Value),
    /// The instruction waits for the answer to this query; nothing changed.
    Ask(Query),
}

/// The model of a [`Step`].
pub enum StepModel {
    Executed,
    Print(ValueModel),
    Ask(Query),
}

impl View for Step {
    type V = StepModel;

    open spec fn view(&self) -> StepModel {
        match self {
            Step::Executed => StepModel::Executed,
            Step::Print(v) => StepModel::Print(v@),
            Step::Ask(q) => StepModel::Ask(*q),
        }
    }
}

/// The model of the machine: its code, instruction pointer, stack, memory,
/// call stack and whether it has halted.
pub struct VmState {
    pub code: Seq<u8>,
    pub ip: usize,
    pub stack: Seq<ValueModel>,
    pub memory: Seq<ValueModel>,
    pub call_stack: Seq<usize>,
    pub halted: bool,
}

/// A state after a step, with the step's result.
pub type Transition = (VmState, Result<StepModel, ErrorModel>);

impl VmState {
    /// The machine's invariant: its memory has [`MEMORY_SLOTS`] slots.
    pub open spec fn wf(self) -> bool {
        &&& self.memory.len() == MEMORY_SLOTS
        &&& self.code.len() <= usize::MAX
    }

    pub open spec fn at(self, ip: usize) -> VmState {
        VmState { ip: ip, ..self }
    }

    pub open spec fn push(self, v: ValueModel) -> VmState {
        VmState { stack: self.stack.push(v), ..self }
    }

    pub open spec fn pop(self) -> VmState {
        VmState { stack: self.stack.drop_last(), ..self }
    }

    /// Whether the machine goes on running: not halted, and its instruction
    /// pointer within its code.
    pub open spec fn running(self) -> bool {
        !self.halted && self.ip < self.code.len()
    }
}

/// The machine as it starts on some code.
pub open spec fn initial_state(code: Seq<u8>) -> VmState {
    VmState {
        code: code,
        ip: 0,
        stack: seq![],
        memory: Seq::new(MEMORY_SLOTS as nat, |i: int| ValueModel::Null),
        call_stack: seq![],
        halted: false,
    }
}

/// The result of looking an evaluation up among the answers.
pub enum Resolved<T> {
    Known(T),
    Ask(Query),
    /// The answer is not of the kind the query calls for.
    Bad,
}

pub open spec fn uses<T>(e: Eval<T>) -> int {
    if e is NeedsFloat {
        1
    } else {
        0
    }
}

/// A truth value, known or given by the `k`-th answer.
pub open spec fn resolve_bool_spec(e: Eval<bool>, answers: Seq<AnswerModel>, k: int) -> Resolved<
    bool,
> {
    match e {
        Eval::Ready(b) => Resolved::Known(b),
        Eval::NeedsFloat(q) => {
            if k < answers.len() {
                match answers[k] {
                    AnswerModel::Bool(b) => Resolved::Known(b),
                    _ => Resolved::Bad,
                }
            } else {
                Resolved::Ask(Query::Float(q))
            }
        },
    }
}

/// An integer, known or given by the `k`-th answer.
pub open spec fn resolve_int_spec(e: Eval<i64>, answers: Seq<AnswerModel>, k: int) -> Resolved<
    i64,
> {
    match e {
        Eval::Ready(i) => Resolved::Known(i),
        Eval::NeedsFloat(q) => {
            if k < answers.len() {
                match answers[k] {
                    AnswerModel::Int(i) => Resolved::Known(i),
                    _ => Resolved::Bad,
                }
            } else {
                Resolved::Ask(Query::Float(q))
            }
        },
    }
}

/// The state left unchanged, waiting for an answer.
pub open spec fn asked(s: VmState, ip0: usize, q: Query) -> Transition {
    (s.at(ip0), Ok(StepModel::Ask(q)))
}

/// The state left unchanged, refusing an answer of the wrong kind.
pub open spec fn refused(s: VmState, ip0: usize) -> Transition {
    (s.at(ip0), Err(ErrorModel::UnexpectedAnswer))
}

pub open spec fn executed(s: VmState) -> Transition {
    (s, Ok(StepModel::Executed))
}

pub open spec fn failed(s: VmState, e: ErrorModel) -> Transition {
    (s, Err(e))
}

/// Reads `n` bytes of code at the instruction pointer; past the end of the
/// code, the pointer stops at the end.
pub open spec fn read_n(s: VmState, n: nat) -> (VmState, Result<Seq<u8>, ErrorModel>) {
    if s.ip + n <= s.code.len() {
        (s.at((s.ip + n) as usize), Ok(s.code.subrange(s.ip as int, s.ip + n)))
    } else {
        (s.at(s.code.len() as usize), Err(ErrorModel::UnexpectedEndOfCode))
    }
}

pub open spec fn read_u8_spec(s: VmState) -> (VmState, Result<u8, ErrorModel>) {
    let (s1, r) = read_n(s, 1);
    (
        s1,
        match r {
            Ok(b) => Ok(b[0]),
            Err(e) => Err(e),
        },
    )
}

/// Reads a big-endian 16-bit operand.
pub open spec fn read_u16_spec(s: VmState) -> (VmState, Result<u16, ErrorModel>) {
    let (s1, r) = read_n(s, 2);
    (
        s1,
        match r {
            Ok(b) => Ok(be_value(b) as u16),
            Err(e) => Err(e),
        },
    )
}

/// The value type bytes of bytecode.
pub open spec fn type_null() -> u8 {
    0x00
}

pub open spec fn type_integer() -> u8 {
    0x01
}

pub open spec fn type_float() -> u8 {
    0x02
}

pub open spec fn type_boolean() -> u8 {
    0x03
}

pub open spec fn type_string() -> u8 {
    0x04
}

/// Reads a value operand: a type byte, then a big-endian `i64`, the
/// big-endian bits of an `f64`, a boolean byte (not zero: true), or a
/// big-endian 16-bit length and that many bytes of UTF-8.
pub open spec fn read_value_spec(s: VmState) -> (VmState, Result<ValueModel, ErrorModel>) {
    let (s1, t) = read_u8_spec(s);
    match t {
        Err(e) => (s1, Err(e)),
        Ok(t) => {
            if t == type_null() {
                (s1, Ok(ValueModel::Null))
            } else if t == type_integer() || t == type_float() {
                let (s2, r) = read_n(s1, 8);
                match r {
                    Err(e) => (s2, Err(e)),
                    Ok(b) => (
                        s2,
                        Ok(
                            if t == type_integer() {
                                ValueModel::Integer(be_value(b) as i64)
                            } else {
                                ValueModel::Float(be_value(b) as u64)
                            },
                        ),
                    ),
                }
            } else if t == type_boolean() {
                let (s2, r) = read_u8_spec(s1);
                match r {
                    Err(e) => (s2, Err(e)),
                    Ok(b) => (s2, Ok(ValueModel::Boolean(b != 0))),
                }
            } else if t == type_string() {
                let (s2, l) = read_u16_spec(s1);
                match l {
                    Err(e) => (s2, Err(e)),
                    Ok(len) => {
                        let (s3, r) = read_n(s2, len as nat);
                        match r {
                            Err(e) => (s3, Err(e)),
                            Ok(b) => {
                                if valid_utf8(b) {
                                    (s3, Ok(ValueModel::Str(decode_utf8(b))))
                                } else {
                                    (s3, Err(ErrorModel::InvalidUtf8(b)))
                                }
                            },
                        }
                    },
                }
            } else {
                (s1, Err(ErrorModel::UnknownValueType(t)))
            }
        },
    }
}

pub open spec fn push_spec(s: VmState) -> Transition {
    let (s2, r) = read_value_spec(s);
    match r {
        Ok(v) => executed(s2.push(v)),
        Err(e) => failed(s2, e),
    }
}

pub open spec fn pop_spec(s: VmState) -> Transition {
    if s.stack.len() == 0 {
        failed(s, ErrorModel::StackUnderflow)
    } else {
        executed(s.pop())
    }
}

pub open spec fn dup_spec(s: VmState) -> Transition {
    if s.stack.len() == 0 {
        failed(s, ErrorModel::StackEmpty)
    } else {
        executed(s.push(s.stack.last()))
    }
}

pub open spec fn swap_spec(s: VmState) -> Transition {
    let n = s.stack.len();
    if n == 0 {
        failed(s, ErrorModel::StackUnderflow)
    } else if n == 1 {
        failed(s.pop(), ErrorModel::StackUnderflow)
    } else {
        executed(s.pop().pop().push(s.stack[n - 1]).push(s.stack[n - 2]))
    }
}

pub open spec fn int_op_of(op: ArithOp) -> IntOp {
    match op {
        ArithOp::Add => IntOp::Add,
        ArithOp::Sub => IntOp::Sub,
        ArithOp::Mul => IntOp::Mul,
        ArithOp::Div => IntOp::Div,
    }
}

/// Whether a float query divides by a float.
pub open spec fn divides_by_float(q: FloatQuery) -> bool {
    q matches FloatQuery::Arith(ArithOp::Div, _, FloatOperand::Bits(_))
}

/// `ADD`, `SUB`, `MUL`, `DIV`: pops `b`, then `a`, and pushes `a op b`.
pub open spec fn arith_spec(op: ArithOp, s: VmState, ip0: usize, answers: Seq<AnswerModel>) -> Transition {
    let n = s.stack.len();
    if n == 0 {
        failed(s, ErrorModel::StackUnderflow)
    } else if n == 1 {
        failed(s.pop(), ErrorModel::StackUnderflow)
    } else {
        let b = s.stack[n - 1];
        let a = s.stack[n - 2];
        let rest = s.pop().pop();
        if arith_overflows(op, a, b) {
            failed(rest, ErrorModel::Overflow(int_op_of(op)))
        } else {
            match spec_arith(op, a, b) {
                Err(e) => failed(rest, e),
                Ok(Eval::Ready(v)) => executed(rest.push(v)),
                Ok(Eval::NeedsFloat(q)) => {
                    if answers.len() == 0 {
                        asked(s, ip0, Query::Float(q))
                    } else {
                        match answers[0] {
                            AnswerModel::Bits(x) => executed(rest.push(ValueModel::Float(x))),
                            AnswerModel::DivisionByZero => {
                                if divides_by_float(q) {
                                    failed(rest, ErrorModel::DivisionByZero)
                                } else {
                                    refused(s, ip0)
                                }
                            },
                            _ => refused(s, ip0),
                        }
                    }
                },
            }
        }
    }
}

/// `MOD`: pops `b` and converts it to an integer, then pops `a` and
/// converts it, and pushes the remainder of `a / b`.
pub open spec fn mod_spec(s: VmState, ip0: usize, answers: Seq<AnswerModel>) -> Transition {
    let n = s.stack.len();
    if n == 0 {
        failed(s, ErrorModel::StackUnderflow)
    } else {
        match spec_as_integer(s.stack[n - 1]) {
            Err(e) => failed(s.pop(), e),
            Ok(eb) => match resolve_int_spec(eb, answers, 0) {
                Resolved::Ask(q) => asked(s, ip0, q),
                Resolved::Bad => refused(s, ip0),
                Resolved::Known(y) => {
                    if n == 1 {
                        failed(s.pop(), ErrorModel::StackUnderflow)
                    } else {
                        match spec_as_integer(s.stack[n - 2]) {
                            Err(e) => failed(s.pop().pop(), e),
                            Ok(ea) => match resolve_int_spec(ea, answers, uses(eb)) {
                                Resolved::Ask(q) => asked(s, ip0, q),
                                Resolved::Bad => refused(s, ip0),
                                Resolved::Known(x) => {
                                    let rest = s.pop().pop();
                                    if y == 0 {
                                        failed(rest, ErrorModel::ModuloByZero)
                                    } else if x == i64::MIN && y == -1 {
                                        failed(rest, ErrorModel::Overflow(IntOp::Rem))
                                    } else {
                                        executed(
                                            rest.push(
                                                ValueModel::Integer(
                                                    rem_toward_zero(x as int, y as int) as i64,
                                                ),
                                            ),
                                        )
                                    }
                                },
                            },
                        }
                    }
                },
            },
        }
    }
}

/// `NEG`: pops a number and pushes its negation.
pub open spec fn neg_spec(s: VmState, ip0: usize, answers: Seq<AnswerModel>) -> Transition {
    let n = s.stack.len();
    if n == 0 {
        failed(s, ErrorModel::StackUnderflow)
    } else {
        match s.stack[n - 1] {
            ValueModel::Integer(i) => {
                if i == i64::MIN {
                    failed(s.pop(), ErrorModel::Overflow(IntOp::Neg))
                } else {
                    executed(s.pop().push(ValueModel::Integer((-i) as i64)))
                }
            },
            ValueModel::Float(f) => {
                if answers.len() == 0 {
                    asked(s, ip0, Query::Float(FloatQuery::Negate(f)))
                } else {
                    match answers[0] {
                        AnswerModel::Bits(x) => executed(s.pop().push(ValueModel::Float(x))),
                        _ => refused(s, ip0),
                    }
                }
            },
            _ => failed(s.pop(), ErrorModel::CannotNegate),
        }
    }
}

/// `EQ` (`equal` true) and `NE`: pops `b`, then `a`, and pushes whether they
/// are equal (`EQ`) or not (`NE`).
pub open spec fn equality_spec(
    equal: bool,
    s: VmState,
    ip0: usize,
    answers: Seq<AnswerModel>,
) -> Transition {
    let n = s.stack.len();
    if n == 0 {
        failed(s, ErrorModel::StackUnderflow)
    } else if n == 1 {
        failed(s.pop(), ErrorModel::StackUnderflow)
    } else {
        match resolve_bool_spec(spec_values_equal(s.stack[n - 2], s.stack[n - 1]), answers, 0) {
            Resolved::Ask(q) => asked(s, ip0, q),
            Resolved::Bad => refused(s, ip0),
            Resolved::Known(eq) => executed(s.pop().pop().push(ValueModel::Boolean(eq == equal))),
        }
    }
}

/// `LT`, `LE`, `GT`, `GE`: pops `b` and converts it to a float, then pops
/// `a` and converts it, and pushes `a op b`.
pub open spec fn compare_spec(op: CmpOp, s: VmState, ip0: usize, answers: Seq<AnswerModel>) -> Transition {
    let n = s.stack.len();
    if n == 0 {
        failed(s, ErrorModel::StackUnderflow)
    } else {
        match spec_as_float(s.stack[n - 1]) {
            Err(e) => failed(s.pop(), e),
            Ok(fb) => {
                if n == 1 {
                    failed(s.pop(), ErrorModel::StackUnderflow)
                } else {
                    match spec_as_float(s.stack[n - 2]) {
                        Err(e) => failed(s.pop().pop(), e),
                        Ok(fa) => match resolve_bool_spec(spec_compare(op, fa, fb), answers, 0) {
                            Resolved::Ask(q) => asked(s, ip0, q),
                            Resolved::Bad => refused(s, ip0),
                            Resolved::Known(c) => executed(
                                s.pop().pop().push(ValueModel::Boolean(c)),
                            ),
                        },
                    }
                }
            },
        }
    }
}

/// `AND` (`conj` true) and `OR`: pops `b`, then `a`, and pushes the
/// conjunction or disjunction of their truthiness.
pub open spec fn logic_spec(conj: bool, s: VmState, ip0: usize, answers: Seq<AnswerModel>) -> Transition {
    let n = s.stack.len();
    if n == 0 {
        failed(s, ErrorModel::StackUnderflow)
    } else {
        let eb = spec_as_bool(s.stack[n - 1]);
        match resolve_bool_spec(eb, answers, 0) {
            Resolved::Ask(q) => asked(s, ip0, q),
            Resolved::Bad => refused(s, ip0),
            Resolved::Known(y) => {
                if n == 1 {
                    failed(s.pop(), ErrorModel::StackUnderflow)
                } else {
                    match resolve_bool_spec(spec_as_bool(s.stack[n - 2]), answers, uses(eb)) {
                        Resolved::Ask(q) => asked(s, ip0, q),
                        Resolved::Bad => refused(s, ip0),
                        Resolved::Known(x) => executed(
                            s.pop().pop().push(
                                ValueModel::Boolean(
                                    if conj {
                                        x && y
                                    } else {
                                        x || y
                                    },
                                ),
                            ),
                        ),
                    }
                }
            },
        }
    }
}

/// `NOT`: pops a value and pushes the negation of its truthiness.
pub open spec fn not_spec(s: VmState, ip0: usize, answers: Seq<AnswerModel>) -> Transition {
    let n = s.stack.len();
    if n == 0 {
        failed(s, ErrorModel::StackUnderflow)
    } else {
        match resolve_bool_spec(spec_as_bool(s.stack[n - 1]), answers, 0) {
            Resolved::Ask(q) => asked(s, ip0, q),
            Resolved::Bad => refused(s, ip0),
            Resolved::Known(x) => executed(s.pop().push(ValueModel::Boolean(!x))),
        }
    }
}

/// `JUMP addr`: continues at `addr`.
pub open spec fn jump_spec(s: VmState) -> Transition {
    let (s2, r) = read_u16_spec(s);
    match r {
        Err(e) => failed(s2, e),
        Ok(addr) => executed(s2.at(addr as usize)),
    }
}

/// `JUMPIF addr` (`when` true) and `JUMPIFNOT addr`: pops a value and
/// continues at `addr` when its truthiness is `when`.
pub open spec fn jump_if_spec(
    when: bool,
    s: VmState,
    ip0: usize,
    answers: Seq<AnswerModel>,
) -> Transition {
    let (s2, r) = read_u16_spec(s);
    match r {
        Err(e) => failed(s2, e),
        Ok(addr) => {
            let n = s2.stack.len();
            if n == 0 {
                failed(s2, ErrorModel::StackUnderflow)
            } else {
                match resolve_bool_spec(spec_as_bool(s2.stack[n - 1]), answers, 0) {
                    Resolved::Ask(q) => asked(s, ip0, q),
                    Resolved::Bad => refused(s, ip0),
                    Resolved::Known(c) => executed(
                        if c == when {
                            s2.pop().at(addr as usize)
                        } else {
                            s2.pop()
                        },
                    ),
                }
            }
        },
    }
}

/// `CALL addr`: pushes the address after the instruction on the call stack
/// and continues at `addr`.
pub open spec fn call_spec(s: VmState) -> Transition {
    let (s2, r) = read_u16_spec(s);
    match r {
        Err(e) => failed(s2, e),
        Ok(addr) => executed(
            VmState { call_stack: s2.call_stack.push(s2.ip), ip: addr as usize, ..s2 },
        ),
    }
}

/// `RETURN`: continues at the address popped from the call stack, or halts
/// when the call stack is empty.
pub open spec fn return_spec(s: VmState) -> Transition {
    if s.call_stack.len() == 0 {
        executed(VmState { halted: true, ..s })
    } else {
        executed(
            VmState { ip: s.call_stack.last(), call_stack: s.call_stack.drop_last(), ..s },
        )
    }
}

/// `LOAD addr`: pushes the value of memory slot `addr`.
pub open spec fn load_spec(s: VmState) -> Transition {
    let (s2, r) = read_u8_spec(s);
    match r {
        Err(e) => failed(s2, e),
        Ok(addr) => executed(s2.push(s2.memory[addr as int])),
    }
}

/// `STORE addr`: pops a value into memory slot `addr`.
pub open spec fn store_spec(s: VmState) -> Transition {
    let (s2, r) = read_u8_spec(s);
    match r {
        Err(e) => failed(s2, e),
        Ok(addr) => {
            let n = s2.stack.len();
            if n == 0 {
                failed(s2, ErrorModel::StackUnderflow)
            } else {
                executed(
                    VmState {
                        memory: s2.memory.update(addr as int, s2.stack[n - 1]),
                        ..s2.pop()
                    },
                )
            }
        },
    }
}

/// `PRINT`: pops a value, which the caller prints.
pub open spec fn print_spec(s: VmState) -> Transition {
    let n = s.stack.len();
    if n == 0 {
        failed(s, ErrorModel::StackUnderflow)
    } else {
        (s.pop(), Ok(StepModel::Print(s.stack[n - 1])))
    }
}

/// `INPUT`: pushes the line that the caller read, without its leading and
/// trailing white space.
pub open spec fn input_spec(s: VmState, ip0: usize, answers: Seq<AnswerModel>) -> Transition {
    if answers.len() == 0 {
        asked(s, ip0, Query::Line)
    } else {
        match answers[0] {
            AnswerModel::Line(l) => executed(s.push(ValueModel::Str(trim(l)))),
            _ => refused(s, ip0),
        }
    }
}

/// What an instruction does, once its opcode byte has been read: `s` is the
/// state after that byte, `ip0` the address of the opcode byte.
pub open spec fn execute_spec(
    op: OpCode,
    s: VmState,
    ip0: usize,
    answers: Seq<AnswerModel>,
) -> Transition {
    match op {
        OpCode::Push => push_spec(s),
        OpCode::Pop => pop_spec(s),
        OpCode::Dup => dup_spec(s),
        OpCode::Swap => swap_spec(s),
        OpCode::Add => arith_spec(ArithOp::Add, s, ip0, answers),
        OpCode::Sub => arith_spec(ArithOp::Sub, s, ip0, answers),
        OpCode::Mul => arith_spec(ArithOp::Mul, s, ip0, answers),
        OpCode::Div => arith_spec(ArithOp::Div, s, ip0, answers),
        OpCode::Mod => mod_spec(s, ip0, answers),
        OpCode::Neg => neg_spec(s, ip0, answers),
        OpCode::Eq => equality_spec(true, s, ip0, answers),
        OpCode::Ne => equality_spec(false, s, ip0, answers),
        OpCode::Lt => compare_spec(CmpOp::Lt, s, ip0, answers),
        OpCode::Le => compare_spec(CmpOp::Le, s, ip0, answers),
        OpCode::Gt => compare_spec(CmpOp::Gt, s, ip0, answers),
        OpCode::Ge => compare_spec(CmpOp::Ge, s, ip0, answers),
        OpCode::And => logic_spec(true, s, ip0, answers),
        OpCode::Or => logic_spec(false, s, ip0, answers),
        OpCode::Not => not_spec(s, ip0, answers),
        OpCode::Jump => jump_spec(s),
        OpCode::JumpIf => jump_if_spec(true, s, ip0, answers),
        OpCode::JumpIfNot => jump_if_spec(false, s, ip0, answers),
        OpCode::Call => call_spec(s),
        OpCode::Return => return_spec(s),
        OpCode::Load => load_spec(s),
        OpCode::Store => store_spec(s),
        OpCode::Print => print_spec(s),
        OpCode::Input => input_spec(s, ip0, answers),
        OpCode::Halt => executed(VmState { halted: true, ..s }),
    }
}

/// One step of the machine: the instruction at the instruction pointer, with
/// the answers given so far to the queries it makes, in order.
pub open spec fn step_spec(s: VmState, answers: Seq<AnswerModel>) -> Transition {
    if s.ip >= s.code.len() {
        failed(s, ErrorModel::IpOutOfBounds)
    } else {
        let byte = s.code[s.ip as int];
        match opcode_of_byte(byte) {
            None => failed(s, ErrorModel::InvalidOpcode(byte)),
            Some(op) => execute_spec(op, s.at((s.ip + 1) as usize), s.ip, answers),
        }
    }
}


proof fn lemma_models_push(s: Seq<Value>, v: Value)
    ensures
        models(s.push(v)) == models(s).push(v@),
{
    assert(models(s.push(v)) =~= models(s).push(v@));
}

proof fn lemma_models_drop_last(s: Seq<Value>)
    requires
        s.len() > 0,
    ensures
        models(s.drop_last()) == models(s).drop_last(),
{
    assert(models(s.drop_last()) =~= models(s).drop_last());
}

proof fn lemma_models_update(s: Seq<Value>, i: int, v: Value)
    requires
        0 <= i < s.len(),
    ensures
        models(s.update(i, v)) == models(s).update(i, v@),
{
    assert(models(s.update(i, v)) =~= models(s).update(i, v@));
}

/// The string that bytes encode: `String::from_utf8`, which succeeds exactly
/// on valid UTF-8 (vstd's `valid_utf8`) and then holds the chars that the
/// bytes decode to (vstd's `decode_utf8`).
#[verifier::external_body]
fn string_from_utf8(bytes: Vec<u8>) -> (r: Option<String>)
    ensures
        r is Some <==> valid_utf8(bytes@),
        r matches Some(s) ==> s@ == decode_utf8(bytes@),
{
    String::from_utf8(bytes).ok()
}

fn copy_bytes(b: &Vec<u8>) -> (r: Vec<u8>)
    ensures
        r@ == b@,
{
    let mut r: Vec<u8> = Vec::new();
    let mut i: usize = 0;
    while i < b.len()
        invariant
            i <= b@.len(),
            r@ == b@.take(i as int),
        decreases b@.len() - i,
    {
        r.push(b[i]);
        i = i + 1;
        assert(r@ =~= b@.take(i as int));
    }
    assert(b@.take(b@.len() as int) =~= b@);
    r
}

fn resolve_bool(e: Eval<bool>, answers: &[Answer], k: usize) -> (r: Resolved<bool>)
    ensures
        r == resolve_bool_spec(e, answers_model(answers@), k as int),
{
    match e {
        Eval::Ready(b) => Resolved::Known(b),
        Eval::NeedsFloat(q) => {
            if k < answers.len() {
                match &answers[k] {
                    Answer::Bool(b) => Resolved::Known(*b),
                    _ => Resolved::Bad,
                }
            } else {
                Resolved::Ask(Query::Float(q))
            }
        },
    }
}

fn resolve_int(e: Eval<i64>, answers: &[Answer], k: usize) -> (r: Resolved<i64>)
    ensures
        r == resolve_int_spec(e, answers_model(answers@), k as int),
{
    match e {
        Eval::Ready(i) => Resolved::Known(i),
        Eval::NeedsFloat(q) => {
            if k < answers.len() {
                match &answers[k] {
                    Answer::Int(i) => Resolved::Known(*i),
                    _ => Resolved::Bad,
                }
            } else {
                Resolved::Ask(Query::Float(q))
            }
        },
    }
}

fn uses_answer<T>(e: &Eval<T>) -> (r: usize)
    ensures
        r == uses(*e),
{
    match e {
        Eval::Ready(_) => 0,
        Eval::NeedsFloat(_) => 1,
    }
}

fn arith_overflow(op: ArithOp, a: &Value, b: &Value) -> (r: bool)
    ensures
        r == arith_overflows(op, a@, b@),
{
    match (a, b) {
        (Value::Integer(x), Value::Integer(y)) => match op {
            ArithOp::Add => x.checked_add(*y).is_none(),
            ArithOp::Sub => x.checked_sub(*y).is_none(),
            ArithOp::Mul => x.checked_mul(*y).is_none(),
            ArithOp::Div => *y != 0 && x.checked_div(*y).is_none(),
        },
        _ => false,
    }
}

fn int_op(op: ArithOp) -> (r: IntOp)
    ensures
        r == int_op_of(op),
{
    match op {
        ArithOp::Add => IntOp::Add,
        ArithOp::Sub => IntOp::Sub,
        ArithOp::Mul => IntOp::Mul,
        ArithOp::Div => IntOp::Div,
    }
}

fn is_division_by_float(q: FloatQuery) -> (r: bool)
    ensures
        r == divides_by_float(q),
{
    match q {
        FloatQuery::Arith(ArithOp::Div, _, FloatOperand::Bits(_)) => true,
        _ => false,
    }
}

/// The RustCode virtual machine: a stack of values, [`MEMORY_SLOTS`]
/// memory slots, a call stack and an instruction pointer into its bytecode.
///
/// Its model is a [`VmState`], and [`VM::step`] executes one instruction
/// as [`step_spec`] says. What depends on floats, and the reading of input,
/// the machine asks of its caller as a [`Query`]; the caller answers by
/// stepping again with the answers.
pub struct VM {
    code: Vec<u8>,
    ip: usize,
    stack: Vec<Value>,
    memory: Vec<Value>,
    call_stack: Vec<usize>,
    halted: bool,
}

impl View for VM {
    type V = VmState;

    closed spec fn view(&self) -> VmState {
        VmState {
            code: self.code@,
            ip: self.ip,
            stack: models(self.stack@),
            memory: models(self.memory@),
            call_stack: self.call_stack@,
            halted: self.halted,
        }
    }
}

impl VM {
    /// A machine at the start of some bytecode: empty stacks, all memory
    /// slots null.
    pub fn new(code: Vec<u8>) -> (vm: VM)
        ensures
            vm@ == initial_state(code@),
            vm@.wf(),
    {
        let mut memory: Vec<Value> = Vec::new();
        let mut i: usize = 0;
        while i < MEMORY_SLOTS
            invariant
                i <= MEMORY_SLOTS,
                memory@.len() == i,
                forall|k: int| 0 <= k < i ==> memory@[k] == Value::Null,
            decreases MEMORY_SLOTS - i,
        {
            memory.push(Value::Null);
            i = i + 1;
        }
        assert(code@.len() <= usize::MAX) by {
            assert(code@.len() == code.len());
        }
        let vm = VM {
            code: code,
            ip: 0,
            stack: Vec::new(),
            memory: memory,
            call_stack: Vec::new(),
            halted: false,
        };
        assert(models(vm.memory@) =~= Seq::new(MEMORY_SLOTS as nat, |i: int| ValueModel::Null));
        assert(models(vm.stack@) =~= seq![]);
        vm
    }

    /// The stack, bottom first.
    pub fn stack(&self) -> (r: &[Value])
        ensures
            models(r@) == self@.stack,
    {
        self.stack.as_slice()
    }

    /// Whether the machine has halted.
    pub fn is_halted(&self) -> (r: bool)
        ensures
            r == self@.halted,
    {
        self.halted
    }

    /// Whether the machine goes on running: not halted, and its instruction
    /// pointer within its code.
    pub fn is_running(&self) -> (r: bool)
        ensures
            r == self@.running(),
    {
        !self.halted && self.ip < self.code.len()
    }

    fn pop_value(&mut self)
        requires
            old(self).stack@.len() > 0,
        ensures
            final(self)@ == old(self)@.pop(),
            final(self).stack@ == old(self).stack@.drop_last(),
    {
        proof {
            lemma_models_drop_last(self.stack@);
        }
        self.stack.pop();
    }

    fn push_value(&mut self, v: Value)
        ensures
            final(self)@ == old(self)@.push(v@),
            final(self).stack@ == old(self).stack@.push(v),
    {
        proof {
            lemma_models_push(self.stack@, v);
        }
        self.stack.push(v);
    }

    fn read_bytes(&mut self, n: usize) -> (r: Result<Vec<u8>, VmError>)
        requires
            old(self).ip <= old(self).code@.len(),
        ensures
            (final(self)@, result_model(r)) == read_n(old(self)@, n as nat),
            final(self).ip <= final(self).code@.len(),
            final(self).stack == old(self).stack,
    {
        let mut out: Vec<u8> = Vec::new();
        let mut i: usize = 0;
        while i < n
            invariant
                i <= n,
                self.ip == old(self).ip + i,
                self.ip <= self.code@.len(),
                self@ == old(self)@.at(self.ip),
                self.stack == old(self).stack,
                out@ == old(self).code@.subrange(old(self).ip as int, old(self).ip + i),
            decreases n - i,
        {
            if self.ip >= self.code.len() {
                return Err(VmError::UnexpectedEndOfCode);
            }
            let b = self.code[self.ip];
            self.ip = self.ip + 1;
            out.push(b);
            i = i + 1;
            assert(out@ =~= old(self).code@.subrange(old(self).ip as int, old(self).ip + i));
        }
        Ok(out)
    }

    fn read_u8(&mut self) -> (r: Result<u8, VmError>)
        requires
            old(self).ip <= old(self).code@.len(),
        ensures
            (final(self)@, result_model(r)) == read_u8_spec(old(self)@),
            final(self).ip <= final(self).code@.len(),
            final(self).stack == old(self).stack,
    {
        if self.ip >= self.code.len() {
            assert(self@ == self@.at(self.code@.len() as usize));
            return Err(VmError::UnexpectedEndOfCode);
        }
        let b = self.code[self.ip];
        self.ip = self.ip + 1;
        Ok(b)
    }

    fn read_u16(&mut self) -> (r: Result<u16, VmError>)
        requires
            old(self).ip <= old(self).code@.len(),
        ensures
            (final(self)@, result_model(r)) == read_u16_spec(old(self)@),
            final(self).ip <= final(self).code@.len(),
            final(self).stack == old(self).stack,
    {
        let b = self.read_bytes(2)?;
        proof {
            lemma_be_value_bound(b@);
            reveal_with_fuel(pow256, 3);
        }
        Ok(be_decode(&b) as u16)
    }

    fn read_value(&mut self) -> (r: Result<Value, VmError>)
        requires
            old(self).ip <= old(self).code@.len(),
        ensures
            (final(self)@, result_model(r)) == read_value_spec(old(self)@),
            final(self).ip <= final(self).code@.len(),
            final(self).stack == old(self).stack,
    {
        let t = self.read_u8()?;
        if t == 0x00 {
            Ok(Value::Null)
        } else if t == 0x01 || t == 0x02 {
            let b = self.read_bytes(8)?;
            let v = be_decode(&b);
            if t == 0x01 {
                Ok(Value::Integer(v as i64))
            } else {
                Ok(Value::Float(v))
            }
        } else if t == 0x03 {
            let b = self.read_u8()?;
            Ok(Value::Boolean(b != 0))
        } else if t == 0x04 {
            let len = self.read_u16()?;
            let b = self.read_bytes(len as usize)?;
            let kept = copy_bytes(&b);
            match string_from_utf8(b) {
                Some(s) => Ok(Value::String(s)),
                None => Err(VmError::InvalidUtf8(kept)),
            }
        } else {
            Err(VmError::UnknownValueType(t))
        }
    }

    fn exec_push(&mut self) -> (r: Result<Step, VmError>)
        requires
            old(self)@.wf(),
            old(self).ip <= old(self).code@.len(),
        ensures
            final(self)@.wf(),
            (final(self)@, result_model(r)) == push_spec(old(self)@),
    {
        let v = self.read_value()?;
        self.push_value(v);
        Ok(Step::Executed)
    }

    fn exec_swap(&mut self) -> (r: Result<Step, VmError>)
        requires
            old(self)@.wf(),
        ensures
            final(self)@.wf(),
            (final(self)@, result_model(r)) == swap_spec(old(self)@),
    {
        let n = self.stack.len();
        if n == 0 {
            return Err(VmError::StackUnderflow);
        }
        if n == 1 {
            self.pop_value();
            return Err(VmError::StackUnderflow);
        }
        let b = self.stack[n - 1].duplicate();
        let a = self.stack[n - 2].duplicate();
        self.pop_value();
        self.pop_value();
        self.push_value(b);
        self.push_value(a);
        Ok(Step::Executed)
    }

    fn exec_arith(&mut self, op: ArithOp, ip0: usize, answers: &[Answer]) -> (r: Result<Step, VmError>)
        requires
            old(self)@.wf(),
        ensures
            final(self)@.wf(),
            (final(self)@, result_model(r)) == arith_spec(op, old(self)@, ip0, answers_model(answers@)),
    {
        let n = self.stack.len();
        if n == 0 {
            return Err(VmError::StackUnderflow);
        }
        if n == 1 {
            self.pop_value();
            return Err(VmError::StackUnderflow);
        }
        if arith_overflow(op, &self.stack[n - 2], &self.stack[n - 1]) {
            self.pop_value();
            self.pop_value();
            return Err(VmError::Overflow(int_op(op)));
        }
        let res = self.stack[n - 2].arith(op, &self.stack[n - 1]);
        match res {
            Err(e) => {
                self.pop_value();
                self.pop_value();
                Err(e)
            },
            Ok(Eval::Ready(v)) => {
                self.pop_value();
                self.pop_value();
                self.push_value(v);
                Ok(Step::Executed)
            },
            Ok(Eval::NeedsFloat(q)) => {
                if answers.len() == 0 {
                    self.ip = ip0;
                    return Ok(Step::Ask(Query::Float(q)));
                }
                match &answers[0] {
                    Answer::Bits(x) => {
                        self.pop_value();
                        self.pop_value();
                        self.push_value(Value::Float(*x));
                        Ok(Step::Executed)
                    },
                    Answer::DivisionByZero => {
                        if is_division_by_float(q) {
                            self.pop_value();
                            self.pop_value();
                            Err(VmError::DivisionByZero)
                        } else {
                            self.ip = ip0;
                            Err(VmError::UnexpectedAnswer)
                        }
                    },
                    _ => {
                        self.ip = ip0;
                        Err(VmError::UnexpectedAnswer)
                    },
                }
            },
        }
    }

    fn exec_mod(&mut self, ip0: usize, answers: &[Answer]) -> (r: Result<Step, VmError>)
        requires
            old(self)@.wf(),
        ensures
            final(self)@.wf(),
            (final(self)@, result_model(r)) == mod_spec(old(self)@, ip0, answers_model(answers@)),
    {
        let n = self.stack.len();
        if n == 0 {
            return Err(VmError::StackUnderflow);
        }
        let (y, k) = match self.stack[n - 1].as_integer() {
            Err(e) => {
                self.pop_value();
                return Err(e);
            },
            Ok(eb) => {
                let k = uses_answer(&eb);
                match resolve_int(eb, answers, 0) {
                    Resolved::Known(y) => (y, k),
                    Resolved::Ask(q) => {
                        self.ip = ip0;
                        return Ok(Step::Ask(q));
                    },
                    Resolved::Bad => {
                        self.ip = ip0;
                        return Err(VmError::UnexpectedAnswer);
                    },
                }
            },
        };
        if n == 1 {
            self.pop_value();
            return Err(VmError::StackUnderflow);
        }
        let x = match self.stack[n - 2].as_integer() {
            Err(e) => {
                self.pop_value();
                self.pop_value();
                return Err(e);
            },
            Ok(ea) => match resolve_int(ea, answers, k) {
                Resolved::Known(x) => x,
                Resolved::Ask(q) => {
                    self.ip = ip0;
                    return Ok(Step::Ask(q));
                },
                Resolved::Bad => {
                    self.ip = ip0;
                    return Err(VmError::UnexpectedAnswer);
                },
            },
        };
        self.pop_value();
        self.pop_value();
        if y == 0 {
            return Err(VmError::ModuloByZero);
        }
        match x.checked_rem(y) {
            Some(m) => {
                self.push_value(Value::Integer(m));
                Ok(Step::Executed)
            },
            None => Err(VmError::Overflow(IntOp::Rem)),
        }
    }

    fn exec_neg(&mut self, ip0: usize, answers: &[Answer]) -> (r: Result<Step, VmError>)
        requires
            old(self)@.wf(),
        ensures
            final(self)@.wf(),
            (final(self)@, result_model(r)) == neg_spec(old(self)@, ip0, answers_model(answers@)),
    {
        let n = self.stack.len();
        if n == 0 {
            return Err(VmError::StackUnderflow);
        }
        match &self.stack[n - 1] {
            Value::Integer(i) => {
                let i = *i;
                self.pop_value();
                if i == i64::MIN {
                    Err(VmError::Overflow(IntOp::Neg))
                } else {
                    self.push_value(Value::Integer(-i));
                    Ok(Step::Executed)
                }
            },
            Value::Float(f) => {
                let f = *f;
                if answers.len() == 0 {
                    self.ip = ip0;
                    return Ok(Step::Ask(Query::Float(FloatQuery::Negate(f))));
                }
                match &answers[0] {
                    Answer::Bits(x) => {
                        self.pop_value();
                        self.push_value(Value::Float(*x));
                        Ok(Step::Executed)
                    },
                    _ => {
                        self.ip = ip0;
                        Err(VmError::UnexpectedAnswer)
                    },
                }
            },
            _ => {
                self.pop_value();
                Err(VmError::CannotNegate)
            },
        }
    }

    fn exec_equality(&mut self, equal: bool, ip0: usize, answers: &[Answer]) -> (r: Result<
        Step,
        VmError,
    >)
        requires
            old(self)@.wf(),
        ensures
            final(self)@.wf(),
            (final(self)@, result_model(r)) == equality_spec(
                equal,
                old(self)@,
                ip0,
                answers_model(answers@),
            ),
    {
        let n = self.stack.len();
        if n == 0 {
            return Err(VmError::StackUnderflow);
        }
        if n == 1 {
            self.pop_value();
            return Err(VmError::StackUnderflow);
        }
        match resolve_bool(values_equal(&self.stack[n - 2], &self.stack[n - 1]), answers, 0) {
            Resolved::Known(eq) => {
                self.pop_value();
                self.pop_value();
                self.push_value(Value::Boolean(eq == equal));
                Ok(Step::Executed)
            },
            Resolved::Ask(q) => {
                self.ip = ip0;
                Ok(Step::Ask(q))
            },
            Resolved::Bad => {
                self.ip = ip0;
                Err(VmError::UnexpectedAnswer)
            },
        }
    }

    fn exec_compare(&mut self, op: CmpOp, ip0: usize, answers: &[Answer]) -> (r: Result<
        Step,
        VmError,
    >)
        requires
            old(self)@.wf(),
        ensures
            final(self)@.wf(),
            (final(self)@, result_model(r)) == compare_spec(
                op,
                old(self)@,
                ip0,
                answers_model(answers@),
            ),
    {
        let n = self.stack.len();
        if n == 0 {
            return Err(VmError::StackUnderflow);
        }
        let fb = match self.stack[n - 1].as_float() {
            Err(e) => {
                self.pop_value();
                return Err(e);
            },
            Ok(fb) => fb,
        };
        if n == 1 {
            self.pop_value();
            return Err(VmError::StackUnderflow);
        }
        let fa = match self.stack[n - 2].as_float() {
            Err(e) => {
                self.pop_value();
                self.pop_value();
                return Err(e);
            },
            Ok(fa) => fa,
        };
        match resolve_bool(compare_operands(op, fa, fb), answers, 0) {
            Resolved::Known(c) => {
                self.pop_value();
                self.pop_value();
                self.push_value(Value::Boolean(c));
                Ok(Step::Executed)
            },
            Resolved::Ask(q) => {
                self.ip = ip0;
                Ok(Step::Ask(q))
            },
            Resolved::Bad => {
                self.ip = ip0;
                Err(VmError::UnexpectedAnswer)
            },
        }
    }

    fn exec_logic(&mut self, conj: bool, ip0: usize, answers: &[Answer]) -> (r: Result<
        Step,
        VmError,
    >)
        requires
            old(self)@.wf(),
        ensures
            final(self)@.wf(),
            (final(self)@, result_model(r)) == logic_spec(
                conj,
                old(self)@,
                ip0,
                answers_model(answers@),
            ),
    {
        let n = self.stack.len();
        if n == 0 {
            return Err(VmError::StackUnderflow);
        }
        let eb = self.stack[n - 1].as_bool();
        let k = uses_answer(&eb);
        let y = match resolve_bool(eb, answers, 0) {
            Resolved::Known(y) => y,
            Resolved::Ask(q) => {
                self.ip = ip0;
                return Ok(Step::Ask(q));
            },
            Resolved::Bad => {
                self.ip = ip0;
                return Err(VmError::UnexpectedAnswer);
            },
        };
        if n == 1 {
            self.pop_value();
            return Err(VmError::StackUnderflow);
        }
        match resolve_bool(self.stack[n - 2].as_bool(), answers, k) {
            Resolved::Known(x) => {
                self.pop_value();
                self.pop_value();
                self.push_value(
                    Value::Boolean(
                        if conj {
                            x && y
                        } else {
                            x || y
                        },
                    ),
                );
                Ok(Step::Executed)
            },
            Resolved::Ask(q) => {
                self.ip = ip0;
                Ok(Step::Ask(q))
            },
            Resolved::Bad => {
                self.ip = ip0;
                Err(VmError::UnexpectedAnswer)
            },
        }
    }

    fn exec_not(&mut self, ip0: usize, answers: &[Answer]) -> (r: Result<Step, VmError>)
        requires
            old(self)@.wf(),
        ensures
            final(self)@.wf(),
            (final(self)@, result_model(r)) == not_spec(old(self)@, ip0, answers_model(answers@)),
    {
        let n = self.stack.len();
        if n == 0 {
            return Err(VmError::StackUnderflow);
        }
        match resolve_bool(self.stack[n - 1].as_bool(), answers, 0) {
            Resolved::Known(x) => {
                self.pop_value();
                self.push_value(Value::Boolean(!x));
                Ok(Step::Executed)
            },
            Resolved::Ask(q) => {
                self.ip = ip0;
                Ok(Step::Ask(q))
            },
            Resolved::Bad => {
                self.ip = ip0;
                Err(VmError::UnexpectedAnswer)
            },
        }
    }

    fn exec_jump_if(&mut self, when: bool, ip0: usize, answers: &[Answer]) -> (r: Result<
        Step,
        VmError,
    >)
        requires
            old(self)@.wf(),
            old(self).ip <= old(self).code@.len(),
        ensures
            final(self)@.wf(),
            (final(self)@, result_model(r)) == jump_if_spec(
                when,
                old(self)@,
                ip0,
                answers_model(answers@),
            ),
    {
        let addr = self.read_u16()?;
        let n = self.stack.len();
        if n == 0 {
            return Err(VmError::StackUnderflow);
        }
        match resolve_bool(self.stack[n - 1].as_bool(), answers, 0) {
            Resolved::Known(c) => {
                self.pop_value();
                if c == when {
                    self.ip = addr as usize;
                }
                Ok(Step::Executed)
            },
            Resolved::Ask(q) => {
                self.ip = ip0;
                Ok(Step::Ask(q))
            },
            Resolved::Bad => {
                self.ip = ip0;
                Err(VmError::UnexpectedAnswer)
            },
        }
    }

    fn exec_store(&mut self) -> (r: Result<Step, VmError>)
        requires
            old(self)@.wf(),
            old(self).ip <= old(self).code@.len(),
        ensures
            final(self)@.wf(),
            (final(self)@, result_model(r)) == store_spec(old(self)@),
    {
        let addr = self.read_u8()?;
        let n = self.stack.len();
        if n == 0 {
            return Err(VmError::StackUnderflow);
        }
        let v = self.stack[n - 1].duplicate();
        self.pop_value();
        proof {
            lemma_models_update(self.memory@, addr as int, v);
        }
        self.memory.set(addr as usize, v);
        Ok(Step::Executed)
    }

    fn exec_input(&mut self, ip0: usize, answers: &[Answer]) -> (r: Result<Step, VmError>)
        requires
            old(self)@.wf(),
        ensures
            final(self)@.wf(),
            (final(self)@, result_model(r)) == input_spec(old(self)@, ip0, answers_model(answers@)),
    {
        if answers.len() == 0 {
            self.ip = ip0;
            return Ok(Step::Ask(Query::Line));
        }
        match &answers[0] {
            Answer::Line(l) => {
                let t = trimmed(l);
                self.push_value(Value::String(t));
                Ok(Step::Executed)
            },
            _ => {
                self.ip = ip0;
                Err(VmError::UnexpectedAnswer)
            },
        }
    }

    /// Executes the instruction at the instruction pointer, as [`step_spec`]
    /// says, with `answers` the answers to the queries that the instruction
    /// makes, in order. When the instruction waits for one more answer, the
    /// step returns its query and changes nothing.
    pub fn step(&mut self, answers: &[Answer]) -> (r: Result<Step, VmError>)
        requires
            old(self)@.wf(),
        ensures
            final(self)@.wf(),
            (final(self)@, result_model(r)) == step_spec(old(self)@, answers_model(answers@)),
    {
        if self.ip >= self.code.len() {
            return Err(VmError::IpOutOfBounds);
        }
        let byte = self.code[self.ip];
        let op = match OpCode::from_byte(byte) {
            Some(op) => op,
            None => return Err(VmError::InvalidOpcode(byte)),
        };
        let ip0 = self.ip;
        self.ip = self.ip + 1;
        match op {
            OpCode::Push => self.exec_push(),
            OpCode::Pop => {
                if self.stack.len() == 0 {
                    Err(VmError::StackUnderflow)
                } else {
                    self.pop_value();
                    Ok(Step::Executed)
                }
            },
            OpCode::Dup => {
                let n = self.stack.len();
                if n == 0 {
                    Err(VmError::StackEmpty)
                } else {
                    let v = self.stack[n - 1].duplicate();
                    self.push_value(v);
                    Ok(Step::Executed)
                }
            },
            OpCode::Swap => self.exec_swap(),
            OpCode::Add => self.exec_arith(ArithOp::Add, ip0, answers),
            OpCode::Sub => self.exec_arith(ArithOp::Sub, ip0, answers),
            OpCode::Mul => self.exec_arith(ArithOp::Mul, ip0, answers),
            OpCode::Div => self.exec_arith(ArithOp::Div, ip0, answers),
            OpCode::Mod => self.exec_mod(ip0, answers),
            OpCode::Neg => self.exec_neg(ip0, answers),
            OpCode::Eq => self.exec_equality(true, ip0, answers),
            OpCode::Ne => self.exec_equality(false, ip0, answers),
            OpCode::Lt => self.exec_compare(CmpOp::Lt, ip0, answers),
            OpCode::Le => self.exec_compare(CmpOp::Le, ip0, answers),
            OpCode::Gt => self.exec_compare(CmpOp::Gt, ip0, answers),
            OpCode::Ge => self.exec_compare(CmpOp::Ge, ip0, answers),
            OpCode::And => self.exec_logic(true, ip0, answers),
            OpCode::Or => self.exec_logic(false, ip0, answers),
            OpCode::Not => self.exec_not(ip0, answers),
            OpCode::Jump => {
                let addr = self.read_u16()?;
                self.ip = addr as usize;
                Ok(Step::Executed)
            },
            OpCode::JumpIf => self.exec_jump_if(true, ip0, answers),
            OpCode::JumpIfNot => self.exec_jump_if(false, ip0, answers),
            OpCode::Call => {
                let addr = self.read_u16()?;
                self.call_stack.push(self.ip);
                self.ip = addr as usize;
                Ok(Step::Executed)
            },
            OpCode::Return => {
                match self.call_stack.pop() {
                    Some(ret) => {
                        self.ip = ret;
                    },
                    None => {
                        self.halted = true;
                    },
                }
                Ok(Step::Executed)
            },
            OpCode::Load => {
                let addr = self.read_u8()?;
                let v = self.memory[addr as usize].duplicate();
                self.push_value(v);
                Ok(Step::Executed)
            },
            OpCode::Store => self.exec_store(),
            OpCode::Print => {
                let n = self.stack.len();
                if n == 0 {
                    Err(VmError::StackUnderflow)
                } else {
                    let v = self.stack[n - 1].duplicate();
                    self.pop_value();
                    Ok(Step::Print(v))
                }
            },
            OpCode::Input => self.exec_input(ip0, answers),
            OpCode::Halt => {
                self.halted = true;
                Ok(Step::Executed)
            },
        }
    }

    /// Runs the machine, as [`run_spec`] says: step after step while it
    /// runs, for at most `fuel` steps, until a step prints, asks, or fails.
    pub fn run(&mut self, fuel: usize) -> (r: Result<Stop, VmError>)
        requires
            old(self)@.wf(),
        ensures
            final(self)@.wf(),
            (final(self)@, result_model(r)) == run_spec(old(self)@, fuel as nat),
    {
        let no_answers: Vec<Answer> = Vec::new();
        let mut remaining = fuel;
        loop
            invariant
                self@.wf(),
                no_answers@.len() == 0,
                run_spec(self@, remaining as nat) == run_spec(old(self)@, fuel as nat),
            decreases remaining,
        {
            if !self.is_running() {
                return Ok(Stop::Finished);
            }
            if remaining == 0 {
                return Ok(Stop::OutOfFuel);
            }
            assert(answers_model(no_answers@) =~= seq![]);
            match self.step(no_answers.as_slice()) {
                Err(e) => return Err(e),
                Ok(Step::Executed) => {},
                Ok(Step::Print(v)) => return Ok(Stop::Print(v)),
                Ok(Step::Ask(q)) => return Ok(Stop::Ask(q)),
            }
            remaining = remaining - 1;
        }
    }
}

/// Why [`VM::run`] stopped.
pub enum Stop {
    /// The machine halted or ran past the end of its code.
    Finished,
    /// A `PRINT` took this value off the stack, for the caller to print.
    Print(Value),
    /// An instruction waits for the answer to this query: the caller steps
    /// with the answers, then runs on.
    Ask(Query),
    /// The fuel ran out while the machine was still running.
    OutOfFuel,
}

/// The model of a [`Stop`].
pub enum StopModel {
    Finished,
    Print(ValueModel),
    Ask(Query),
    OutOfFuel,
}

impl View for Stop {
    type V = StopModel;

    open spec fn view(&self) -> StopModel {
        match self {
            Stop::Finished => StopModel::Finished,
            Stop::Print(v) => StopModel::Print(v@),
            Stop::Ask(q) => StopModel::Ask(*q),
            Stop::OutOfFuel => StopModel::OutOfFuel,
        }
    }
}

/// Steps without answers while the machine runs, for at most `fuel` steps,
/// and stops at the first step that prints, asks or fails.
pub open spec fn run_spec(s: VmState, fuel: nat) -> (VmState, Result<StopModel, ErrorModel>)
    decreases fuel,
{
    if !s.running() {
        (s, Ok(StopModel::Finished))
    } else if fuel == 0 {
        (s, Ok(StopModel::OutOfFuel))
    } else {
        let (s2, r) = step_spec(s, seq![]);
        match r {
            Err(e) => (s2, Err(e)),
            Ok(StepModel::Executed) => run_spec(s2, (fuel - 1) as nat),
            Ok(StepModel::Print(v)) => (s2, Ok(StopModel::Print(v))),
            Ok(StepModel::Ask(q)) => (s2, Ok(StopModel::Ask(q))),
        }
    }
}

} // verus!
