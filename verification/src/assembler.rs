use vstd::prelude::*;
use vstd::utf8::encode_utf8;

use crate::bytes::{be_bytes, be_encode};
use crate::opcode::{OpCode, opcode_byte};
use crate::text::{
    CharClass, chars_equal, chars_of, contains_char, copy_range, find_in_class, first_in_class,
    lines_of,
    split_lines, split_words, strip_bounds, strip_end, strip_end_bound, string_from_chars,
    texts_view, trim, trim_char, words,
};

verus! {

/// Why an integer literal does not parse, as Rust's `IntErrorKind` says.
#[derive(Debug, Clone, Copy, PartialEq, Eq, Structural)]
pub enum IntErrorKind {
    /// The text is empty.
    Empty,
    /// The text holds a char that is not a digit where a digit belongs.
    InvalidDigit,
    /// The number is too large for its type.
    PosOverflow,
    /// The number is too small for its type.
    NegOverflow,
}

/// The errors of the assembler.
#[derive(Debug)]
pub enum AsmError {
    /// A string literal without its closing quote.
    UnterminatedString,
    /// An instruction name that is no instruction.
    UnknownInstruction(String),
    /// A `PUSH` without an argument, found while sizing the program.
    PushRequiresArgument,
    /// A `PUSH` without an argument on this line.
    PushArgumentMissing(usize),
    /// A jump or call without a label on this line.
    LabelRequired(usize, String),
    /// A `LOAD` or `STORE` without an address on this line.
    AddressRequired(usize, String),
    /// An address that is no `u8`, on this line.
    InvalidAddress(usize, IntErrorKind),
    /// A float literal that does not parse.
    InvalidFloat,
    /// An integer literal that does not parse as an `i64`.
    InvalidInteger(IntErrorKind),
    /// A jump to a label that is nowhere defined.
    UndefinedLabel(String),
    /// A program whose size does not fit in a `usize`.
    ProgramTooLarge,
}

/// The model of an [`AsmError`].
pub enum AsmErrorModel {
    UnterminatedString,
    UnknownInstruction(Seq<char>),
    PushRequiresArgument,
    PushArgumentMissing(usize),
    LabelRequired(usize, Seq<char>),
    AddressRequired(usize, Seq<char>),
    InvalidAddress(usize, IntErrorKind),
    InvalidFloat,
    InvalidInteger(IntErrorKind),
    UndefinedLabel(Seq<char>),
    ProgramTooLarge,
}

impl View for AsmError {
    type V = AsmErrorModel;

    open spec fn view(&self) -> AsmErrorModel {
        match self {
            AsmError::UnterminatedString => AsmErrorModel::UnterminatedString,
            AsmError::UnknownInstruction(s) => AsmErrorModel::UnknownInstruction(s@),
            AsmError::PushRequiresArgument => AsmErrorModel::PushRequiresArgument,
            AsmError::PushArgumentMissing(n) => AsmErrorModel::PushArgumentMissing(*n),
            AsmError::LabelRequired(n, s) => AsmErrorModel::LabelRequired(*n, s@),
            AsmError::AddressRequired(n, s) => AsmErrorModel::AddressRequired(*n, s@),
            AsmError::InvalidAddress(n, k) => AsmErrorModel::InvalidAddress(*n, *k),
            AsmError::InvalidFloat => AsmErrorModel::InvalidFloat,
            AsmError::InvalidInteger(k) => AsmErrorModel::InvalidInteger(*k),
            AsmError::UndefinedLabel(s) => AsmErrorModel::UndefinedLabel(s@),
            AsmError::ProgramTooLarge => AsmErrorModel::ProgramTooLarge,
        }
    }
}

/// What an assembly gives: the bytecode, or the text of a float literal whose
/// bits the caller is to supply.
pub enum Assembled {
    Bytecode(Vec<u8>),
    /// The float literal, as `str::parse::<f64>` reads it, that comes after
    /// the floats given.
    NeedsFloat(String),
}

/// The model of an [`Assembled`].
pub enum AssembledModel {
    Bytecode(Seq<u8>),
    NeedsFloat(Seq<char>),
}

impl View for Assembled {
    type V = AssembledModel;

    open spec fn view(&self) -> AssembledModel {
        match self {
            Assembled::Bytecode(b) => AssembledModel::Bytecode(b@),
            Assembled::NeedsFloat(s) => AssembledModel::NeedsFloat(s@),
        }
    }
}

/// The uppercase mapping of a text: what `str::to_uppercase` returns for
/// it.
pub uninterp spec fn uppercase(s: Seq<char>) -> Seq<char>;

/// Whether every char of a text is ASCII.
pub open spec fn is_ascii_text(s: Seq<char>) -> bool {
    forall|i: int| 0 <= i < s.len() ==> (#[trigger] s[i] as u32) < 128
}

/// The ASCII uppercase of a char: `a` to `z` become `A` to `Z`; any other
/// char stays.
pub open spec fn ascii_upper_char(c: char) -> char {
    if 'a' <= c <= 'z' {
        ((c as u32) - 32) as char
    } else {
        c
    }
}

/// The ASCII uppercase of a text, char by char.
pub open spec fn ascii_upper(s: Seq<char>) -> Seq<char> {
    s.map_values(|c: char| ascii_upper_char(c))
}

/// The uppercase of a text as `str::to_uppercase` gives it: on ASCII text
/// its ASCII uppercase, else the Unicode mapping [`uppercase`].
pub open spec fn upper_text(s: Seq<char>) -> Seq<char> {
    if is_ascii_text(s) {
        ascii_upper(s)
    } else {
        uppercase(s)
    }
}

/// `str::to_uppercase`. Its result is named [`uppercase`]; on ASCII text
/// (where Unicode's uppercase mapping is that of `char::to_ascii_uppercase`)
/// it maps `a` to `z` to `A` to `Z` and keeps every other char. What it
/// gives on other text is left to the name.
#[verifier::external_body]
fn to_uppercase(s: &str) -> (r: String)
    ensures
        r@ == uppercase(s@),
        is_ascii_text(s@) ==> r@ == ascii_upper(s@),
{
    s.to_uppercase()
}

/// The instruction that an uppercase instruction name stands for.
pub open spec fn keyword_op(w: Seq<char>) -> Option<OpCode> {
    if w == "PUSH"@ {
        Some(OpCode::Push)
    } else if w == "POP"@ {
        Some(OpCode::Pop)
    } else if w == "DUP"@ {
        Some(OpCode::Dup)
    } else if w == "SWAP"@ {
        Some(OpCode::Swap)
    } else if w == "ADD"@ {
        Some(OpCode::Add)
    } else if w == "SUB"@ {
        Some(OpCode::Sub)
    } else if w == "MUL"@ {
        Some(OpCode::Mul)
    } else if w == "DIV"@ {
        Some(OpCode::Div)
    } else if w == "MOD"@ {
        Some(OpCode::Mod)
    } else if w == "NEG"@ {
        Some(OpCode::Neg)
    } else if w == "EQ"@ {
        Some(OpCode::Eq)
    } else if w == "NE"@ {
        Some(OpCode::Ne)
    } else if w == "LT"@ {
        Some(OpCode::Lt)
    } else if w == "LE"@ {
        Some(OpCode::Le)
    } else if w == "GT"@ {
        Some(OpCode::Gt)
    } else if w == "GE"@ {
        Some(OpCode::Ge)
    } else if w == "AND"@ {
        Some(OpCode::And)
    } else if w == "OR"@ {
        Some(OpCode::Or)
    } else if w == "NOT"@ {
        Some(OpCode::Not)
    } else if w == "JUMP"@ {
        Some(OpCode::Jump)
    } else if w == "JUMPIF"@ {
        Some(OpCode::JumpIf)
    } else if w == "JUMPIFNOT"@ {
        Some(OpCode::JumpIfNot)
    } else if w == "CALL"@ {
        Some(OpCode::Call)
    } else if w == "RETURN"@ {
        Some(OpCode::Return)
    } else if w == "LOAD"@ {
        Some(OpCode::Load)
    } else if w == "STORE"@ {
        Some(OpCode::Store)
    } else if w == "PRINT"@ {
        Some(OpCode::Print)
    } else if w == "INPUT"@ {
        Some(OpCode::Input)
    } else if w == "HALT"@ {
        Some(OpCode::Halt)
    } else {
        None
    }
}

/// The instruction that a name stands for, whatever its case.
pub open spec fn parse_opcode_spec(instr: Seq<char>) -> Result<OpCode, AsmErrorModel> {
    match keyword_op(upper_text(instr)) {
        Some(op) => Ok(op),
        None => Err(AsmErrorModel::UnknownInstruction(instr)),
    }
}

/// An instruction line, trimmed, split into the instruction name (up to the
/// first white space) and its arguments: when the rest of the line, trimmed,
/// starts with a quote, the one string literal up to the closing quote (what
/// follows it is dropped); else the words of the rest.
pub open spec fn parse_line_spec(line: Seq<char>) -> Result<(Seq<char>, Seq<Seq<char>>), AsmErrorModel> {
    let t = trim(line);
    let p = first_in_class(t, CharClass::Whitespace);
    if p >= t.len() {
        Ok((t, seq![]))
    } else {
        let instr = t.take(p);
        let rest = trim(t.skip(p));
        if rest.len() > 0 && rest[0] == '"' {
            let q = first_in_class(rest.drop_first(), CharClass::Exactly('"'));
            if q >= rest.len() - 1 {
                Err(AsmErrorModel::UnterminatedString)
            } else {
                Ok((instr, seq![rest.take(q + 2)]))
            }
        } else {
            Ok((instr, words(rest)))
        }
    }
}

/// The size that the first pass reserves for a value literal: a string its
/// UTF-8 bytes and three more, a boolean two bytes, `null` one, a number
/// (float or integer) nine.
pub open spec fn estimate_value_size_spec(v: Seq<char>) -> nat {
    if v.len() > 0 && v[0] == '"' {
        3 + encode_utf8(trim_char(v, '"')).len()
    } else if v == "true"@ || v == "false"@ {
        2
    } else if v == "null"@ {
        1
    } else {
        9
    }
}

/// The size that the first pass reserves for an instruction.
pub open spec fn estimate_size_spec(instr: Seq<char>, args: Seq<Seq<char>>) -> Result<
    nat,
    AsmErrorModel,
> {
    match parse_opcode_spec(instr) {
        Err(e) => Err(e),
        Ok(op) => match op {
            OpCode::Push => if args.len() == 0 {
                Err(AsmErrorModel::PushRequiresArgument)
            } else {
                Ok(1 + estimate_value_size_spec(args[0]))
            },
            OpCode::Jump | OpCode::JumpIf | OpCode::JumpIfNot | OpCode::Call => Ok(3),
            OpCode::Load | OpCode::Store => Ok(2),
            _ => Ok(1),
        },
    }
}

/// Whether a trimmed line is skipped: empty, or a comment.
pub open spec fn is_skipped(t: Seq<char>) -> bool {
    t.len() == 0 || t[0] == ';'
}

/// Whether a trimmed line defines a label.
pub open spec fn is_label_line(t: Seq<char>) -> bool {
    t.len() > 0 && t.last() == ':'
}

/// The label that a label line defines: the line without its trailing colons.
pub open spec fn label_name(t: Seq<char>) -> Seq<char> {
    strip_end(t, CharClass::Exactly(':'))
}

/// The value of a label: the last definition wins.
pub open spec fn lookup(labels: Seq<(Seq<char>, usize)>, name: Seq<char>) -> Option<usize>
    decreases labels.len(),
{
    if labels.len() == 0 {
        None
    } else if labels.last().0 == name {
        Some(labels.last().1)
    } else {
        lookup(labels.drop_last(), name)
    }
}

/// The first pass, from line `i`: records each label with the size of the
/// program before it; gives the labels and the program's size.
pub open spec fn pass1_spec(
    lines: Seq<Seq<char>>,
    i: nat,
    labels: Seq<(Seq<char>, usize)>,
    len: nat,
) -> (Seq<(Seq<char>, usize)>, Result<nat, AsmErrorModel>)
    decreases lines.len() - i,
{
    if i >= lines.len() {
        (labels, Ok(len))
    } else {
        let t = trim(lines[i as int]);
        if is_skipped(t) {
            pass1_spec(lines, i + 1, labels, len)
        } else if is_label_line(t) {
            pass1_spec(lines, i + 1, labels.push((label_name(t), len as usize)), len)
        } else {
            match parse_line_spec(t) {
                Err(e) => (labels, Err(e)),
                Ok((instr, args)) => match estimate_size_spec(instr, args) {
                    Err(e) => (labels, Err(e)),
                    Ok(n) => {
                        if len + n > usize::MAX {
                            (labels, Err(AsmErrorModel::ProgramTooLarge))
                        } else {
                            pass1_spec(lines, i + 1, labels, len + n)
                        }
                    },
                },
            }
        }
    }
}

/// How the second pass stops early.
pub enum Interrupt {
    Failed(AsmErrorModel),
    /// The `k`-th float literal was reached with fewer than `k + 1` floats.
    NeedsFloat(Seq<char>),
}

/// Parses a run of decimal digits onto `acc`, failing past `max`.
pub open spec fn parse_digits(d: Seq<char>, acc: int, max: int, neg: bool) -> Result<int, IntErrorKind>
    decreases d.len(),
{
    if d.len() == 0 {
        Ok(acc)
    } else if !('0' <= d[0] <= '9') {
        Err(IntErrorKind::InvalidDigit)
    } else {
        let a = acc * 10 + (d[0] as int - '0' as int);
        if a > max {
            Err(
                if neg {
                    IntErrorKind::NegOverflow
                } else {
                    IntErrorKind::PosOverflow
                },
            )
        } else {
            parse_digits(d.drop_first(), a, max, neg)
        }
    }
}

/// Parses a decimal integer as `str::parse` does for an integer type whose
/// largest value is `max_pos` and whose smallest is `-max_neg` (`signed`)
/// or `0`: an optional sign, then one or more ASCII digits.
pub open spec fn parse_int_spec(s: Seq<char>, signed: bool, max_pos: int, max_neg: int) -> Result<
    int,
    IntErrorKind,
> {
    if s.len() == 0 {
        Err(IntErrorKind::Empty)
    } else if (s[0] == '+' || s[0] == '-') && s.len() == 1 {
        Err(IntErrorKind::InvalidDigit)
    } else if s[0] == '+' {
        parse_digits(s.drop_first(), 0, max_pos, false)
    } else if s[0] == '-' && signed {
        match parse_digits(s.drop_first(), 0, max_neg, true) {
            Ok(m) => Ok(-m),
            Err(e) => Err(e),
        }
    } else {
        parse_digits(s, 0, max_pos, false)
    }
}

pub open spec fn parse_i64_spec(s: Seq<char>) -> Result<int, IntErrorKind> {
    parse_int_spec(s, true, i64::MAX as int, -(i64::MIN as int))
}

pub open spec fn parse_u8_spec(s: Seq<char>) -> Result<int, IntErrorKind> {
    parse_int_spec(s, false, u8::MAX as int, 0)
}

/// Whether a value literal is a string literal: quoted at both ends.
pub open spec fn is_string_literal(v: Seq<char>) -> bool {
    v.len() > 0 && v[0] == '"' && v.last() == '"'
}

/// Whether a value literal is a float literal.
pub open spec fn is_float_literal(v: Seq<char>) -> bool {
    &&& !is_string_literal(v)
    &&& v != "true"@
    &&& v != "false"@
    &&& v != "null"@
    &&& v.contains('.')
}

/// The bytecode of a value literal, with the index of the next float to use:
/// a string is its type byte, its big-endian 16-bit UTF-8 length (truncated)
/// and its UTF-8 bytes; `true`, `false` and `null` are themselves; a literal
/// with a `.` is a float, whose bits are `floats[k]`; anything else is an
/// `i64`, both in eight big-endian bytes.
pub open spec fn encode_value_spec(v: Seq<char>, floats: Seq<Option<u64>>, k: nat) -> Result<
    (Seq<u8>, nat),
    Interrupt,
> {
    if is_string_literal(v) {
        let b = encode_utf8(trim_char(v, '"'));
        Ok(
            (
                seq![0x04u8, ((b.len() / 256) % 256) as u8, (b.len() % 256) as u8] + b,
                k,
            ),
        )
    } else if v == "true"@ {
        Ok((seq![0x03u8, 1u8], k))
    } else if v == "false"@ {
        Ok((seq![0x03u8, 0u8], k))
    } else if v == "null"@ {
        Ok((seq![0x00u8], k))
    } else if v.contains('.') {
        if k < floats.len() {
            match floats[k as int] {
                Some(bits) => Ok((seq![0x02u8] + be_bytes(bits as nat, 8), k + 1)),
                None => Err(Interrupt::Failed(AsmErrorModel::InvalidFloat)),
            }
        } else {
            Err(Interrupt::NeedsFloat(v))
        }
    } else {
        match parse_i64_spec(v) {
            Ok(i) => Ok((seq![0x01u8] + be_bytes(((i as i64) as u64) as nat, 8), k)),
            Err(e) => Err(Interrupt::Failed(AsmErrorModel::InvalidInteger(e))),
        }
    }
}

/// The two big-endian bytes of an address, truncated to 16 bits.
pub open spec fn address_bytes(addr: usize) -> Seq<u8> {
    seq![((addr / 256) % 256) as u8, (addr % 256) as u8]
}

/// Whether an instruction jumps or calls to a label.
pub open spec fn is_jump(op: OpCode) -> bool {
    op == OpCode::Jump || op == OpCode::JumpIf || op == OpCode::JumpIfNot || op == OpCode::Call
}

/// The second pass on one instruction line (number `line_num`): its opcode
/// byte and operand appended to the bytecode; a jump to a label not yet
/// known leaves two zero bytes and a pending jump.
pub open spec fn assemble_line_spec(
    t: Seq<char>,
    line_num: nat,
    labels: Seq<(Seq<char>, usize)>,
    pending: Seq<(usize, Seq<char>)>,
    code: Seq<u8>,
    floats: Seq<Option<u64>>,
    k: nat,
) -> (Seq<(usize, Seq<char>)>, Result<(Seq<u8>, nat), Interrupt>) {
    match parse_line_spec(t) {
        Err(e) => (pending, Err(Interrupt::Failed(e))),
        Ok((instr, args)) => match parse_opcode_spec(instr) {
            Err(e) => (pending, Err(Interrupt::Failed(e))),
            Ok(op) => {
                let code1 = code.push(opcode_byte(op));
                let arg = if args.len() == 0 {
                    None
                } else {
                    Some(args[0])
                };
                if op == OpCode::Push {
                    match arg {
                        None => (
                            pending,
                            Err(
                                Interrupt::Failed(
                                    AsmErrorModel::PushArgumentMissing(line_num as usize),
                                ),
                            ),
                        ),
                        Some(v) => match encode_value_spec(v, floats, k) {
                            Err(i) => (pending, Err(i)),
                            Ok((b, k2)) => (pending, Ok((code1 + b, k2))),
                        },
                    }
                } else if is_jump(op) {
                    match arg {
                        None => (
                            pending,
                            Err(
                                Interrupt::Failed(
                                    AsmErrorModel::LabelRequired(line_num as usize, instr),
                                ),
                            ),
                        ),
                        Some(l) => match lookup(labels, l) {
                            Some(addr) => (pending, Ok((code1 + address_bytes(addr), k))),
                            None => (
                                pending.push((code1.len() as usize, l)),
                                Ok((code1 + seq![0u8, 0u8], k)),
                            ),
                        },
                    }
                } else if op == OpCode::Load || op == OpCode::Store {
                    match arg {
                        None => (
                            pending,
                            Err(
                                Interrupt::Failed(
                                    AsmErrorModel::AddressRequired(line_num as usize, instr),
                                ),
                            ),
                        ),
                        Some(a) => match parse_u8_spec(a) {
                            Err(e) => (
                                pending,
                                Err(
                                    Interrupt::Failed(
                                        AsmErrorModel::InvalidAddress(line_num as usize, e),
                                    ),
                                ),
                            ),
                            Ok(b) => (pending, Ok((code1.push(b as u8), k))),
                        },
                    }
                } else {
                    (pending, Ok((code1, k)))
                }
            },
        },
    }
}

/// The second pass, from line `i`: assembles each instruction line.
pub open spec fn pass2_spec(
    lines: Seq<Seq<char>>,
    i: nat,
    labels: Seq<(Seq<char>, usize)>,
    pending: Seq<(usize, Seq<char>)>,
    code: Seq<u8>,
    floats: Seq<Option<u64>>,
    k: nat,
) -> (Seq<(usize, Seq<char>)>, Result<Seq<u8>, Interrupt>)
    decreases lines.len() - i,
{
    if i >= lines.len() {
        (pending, Ok(code))
    } else {
        let t = trim(lines[i as int]);
        if is_skipped(t) || is_label_line(t) {
            pass2_spec(lines, i + 1, labels, pending, code, floats, k)
        } else {
            let (p2, r) = assemble_line_spec(t, i + 1, labels, pending, code, floats, k);
            match r {
                Err(e) => (p2, Err(e)),
                Ok((code2, k2)) => pass2_spec(lines, i + 1, labels, p2, code2, floats, k2),
            }
        }
    }
}

/// Writes the address of each pending jump, from the `i`-th, into its
/// operand.
pub open spec fn resolve_spec(
    pending: Seq<(usize, Seq<char>)>,
    i: nat,
    labels: Seq<(Seq<char>, usize)>,
    code: Seq<u8>,
) -> Result<Seq<u8>, AsmErrorModel>
    decreases pending.len() - i,
{
    if i >= pending.len() {
        Ok(code)
    } else {
        let (off, l) = pending[i as int];
        match lookup(labels, l) {
            None => Err(AsmErrorModel::UndefinedLabel(l)),
            Some(addr) => {
                let b = address_bytes(addr);
                resolve_spec(
                    pending,
                    i + 1,
                    labels,
                    code.update(off as int, b[0]).update(off + 1, b[1]),
                )
            },
        }
    }
}

/// The model of an assembler: the labels and the pending jumps (operand
/// offset and label) of its latest assembly.
pub struct AsmModel {
    pub labels: Seq<(Seq<char>, usize)>,
    pub pending: Seq<(usize, Seq<char>)>,
}

/// An assembly, which starts from no label and no pending jump: a first
/// pass over the lines that records the labels, a second that emits the
/// bytecode, then the writing of the pending jumps. A float literal beyond
/// the given floats stops it and is returned. The result depends on the
/// source and the floats alone.
pub open spec fn assemble_spec(source: Seq<char>, floats: Seq<Option<u64>>) -> (
    AsmModel,
    Result<AssembledModel, AsmErrorModel>,
) {
    let lines = split_lines(source);
    let (labels1, r1) = pass1_spec(lines, 0, seq![], 0);
    match r1 {
        Err(e) => (AsmModel { labels: labels1, pending: seq![] }, Err(e)),
        Ok(_) => {
            let (pending2, r2) = pass2_spec(lines, 0, labels1, seq![], seq![], floats, 0);
            let st = AsmModel { labels: labels1, pending: pending2 };
            match r2 {
                Err(Interrupt::NeedsFloat(v)) => (st, Ok(AssembledModel::NeedsFloat(v))),
                Err(Interrupt::Failed(e)) => (st, Err(e)),
                Ok(code) => (
                    st,
                    match resolve_spec(pending2, 0, labels1, code) {
                        Ok(b) => Ok(AssembledModel::Bytecode(b)),
                        Err(e) => Err(e),
                    },
                ),
            }
        },
    }
}

/// Whether every pending jump's two operand bytes lie within the bytecode.
pub open spec fn operands_within(pending: Seq<(usize, Seq<char>)>, len: nat) -> bool {
    forall|j: int| 0 <= j < pending.len() ==> #[trigger] pending[j].0 + 2 <= len
}

/// Assembling a line keeps every pending jump's operand within the
/// bytecode, the new one too.
pub proof fn lemma_line_keeps_operands_within(
    t: Seq<char>,
    line_num: nat,
    labels: Seq<(Seq<char>, usize)>,
    pending: Seq<(usize, Seq<char>)>,
    code: Seq<u8>,
    floats: Seq<Option<u64>>,
    k: nat,
)
    requires
        operands_within(pending, code.len()),
    ensures
        ({
            let (p2, r) = assemble_line_spec(t, line_num, labels, pending, code, floats, k);
            r matches Ok((c2, _)) ==> c2.len() >= code.len() && operands_within(p2, c2.len())
        }),
{
    let (p2, r) = assemble_line_spec(t, line_num, labels, pending, code, floats, k);
    if r is Ok {
        let c2 = r->Ok_0.0;
        assert forall|j: int| 0 <= j < p2.len() implies #[trigger] p2[j].0 + 2 <= c2.len() by {
            if j < pending.len() {
                assert(p2[j] == pending[j]);
            }
        }
    }
}

/// The second pass keeps every pending jump's operand within the bytecode.
pub proof fn lemma_pass2_keeps_operands_within(
    lines: Seq<Seq<char>>,
    i: nat,
    labels: Seq<(Seq<char>, usize)>,
    pending: Seq<(usize, Seq<char>)>,
    code: Seq<u8>,
    floats: Seq<Option<u64>>,
    k: nat,
)
    requires
        operands_within(pending, code.len()),
    ensures
        ({
            let (p2, r) = pass2_spec(lines, i, labels, pending, code, floats, k);
            r matches Ok(c2) ==> operands_within(p2, c2.len())
        }),
    decreases lines.len() - i,
{
    if i < lines.len() {
        let t = trim(lines[i as int]);
        if is_skipped(t) || is_label_line(t) {
            lemma_pass2_keeps_operands_within(lines, i + 1, labels, pending, code, floats, k);
        } else {
            lemma_line_keeps_operands_within(t, i + 1, labels, pending, code, floats, k);
            let (p2, r) = assemble_line_spec(t, i + 1, labels, pending, code, floats, k);
            if r is Ok {
                let (c2, k2) = r->Ok_0;
                lemma_pass2_keeps_operands_within(lines, i + 1, labels, p2, c2, floats, k2);
            }
        }
    }
}


fn parse_digits_exec(d: &Vec<char>, from: usize, max: u128, neg: bool) -> (r: Result<
    u128,
    IntErrorKind,
>)
    requires
        from <= d@.len(),
        max < 0x1_0000_0000_0000_0000,
    ensures
        r matches Ok(m) ==> m <= max,
        match r {
            Ok(m) => parse_digits(d@.skip(from as int), 0, max as int, neg) == Ok::<int, IntErrorKind>(m as int),
            Err(e) => parse_digits(d@.skip(from as int), 0, max as int, neg) == Err::<int, IntErrorKind>(e),
        },
{
    let mut acc: u128 = 0;
    let mut i = from;
    while i < d.len()
        invariant
            from <= i <= d@.len(),
            acc <= max < 0x1_0000_0000_0000_0000,
            parse_digits(d@.skip(i as int), acc as int, max as int, neg) == parse_digits(
                d@.skip(from as int),
                0,
                max as int,
                neg,
            ),
        decreases d@.len() - i,
    {
        let c = d[i];
        assert(d@.skip(i as int)[0] == c);
        assert(d@.skip(i as int).drop_first() =~= d@.skip(i + 1));
        if !('0' <= c && c <= '9') {
            return Err(IntErrorKind::InvalidDigit);
        }
        let digit = (c as u32 - '0' as u32) as u128;
        let a = acc * 10 + digit;
        if a > max {
            return Err(
                if neg {
                    IntErrorKind::NegOverflow
                } else {
                    IntErrorKind::PosOverflow
                },
            );
        }
        acc = a;
        i = i + 1;
    }
    assert(d@.skip(i as int).len() == 0);
    Ok(acc)
}

/// Parses a decimal integer, as [`parse_int_spec`] says.
fn parse_int(s: &Vec<char>, signed: bool, max_pos: u128, max_neg: u128) -> (r: Result<
    i128,
    IntErrorKind,
>)
    requires
        max_pos < 0x1_0000_0000_0000_0000,
        max_neg < 0x1_0000_0000_0000_0000,
    ensures
        match r {
            Ok(v) => parse_int_spec(s@, signed, max_pos as int, max_neg as int) == Ok::<int, IntErrorKind>(v as int),
            Err(e) => parse_int_spec(s@, signed, max_pos as int, max_neg as int) == Err::<int, IntErrorKind>(e),
        },
{
    let n = s.len();
    if n == 0 {
        return Err(IntErrorKind::Empty);
    }
    let c = s[0];
    if (c == '+' || c == '-') && n == 1 {
        return Err(IntErrorKind::InvalidDigit);
    }
    assert(s@.skip(1) =~= s@.drop_first());
    assert(s@.skip(0) =~= s@);
    if c == '+' {
        match parse_digits_exec(s, 1, max_pos, false) {
            Ok(m) => Ok(m as i128),
            Err(e) => Err(e),
        }
    } else if c == '-' && signed {
        match parse_digits_exec(s, 1, max_neg, true) {
            Ok(m) => Ok(0i128 - m as i128),
            Err(e) => Err(e),
        }
    } else {
        match parse_digits_exec(s, 0, max_pos, false) {
            Ok(m) => Ok(m as i128),
            Err(e) => Err(e),
        }
    }
}

/// Parses an `i64` literal, as `str::parse::<i64>` does.
fn parse_i64(s: &Vec<char>) -> (r: Result<i64, IntErrorKind>)
    ensures
        match r {
            Ok(v) => parse_i64_spec(s@) == Ok::<int, IntErrorKind>(v as int),
            Err(e) => parse_i64_spec(s@) == Err::<int, IntErrorKind>(e),
        },
{
    proof {
        lemma_parse_int_range(s@, true, i64::MAX as int, -(i64::MIN as int));
    }
    match parse_int(s, true, 0x7fff_ffff_ffff_ffff, 0x8000_0000_0000_0000) {
        Ok(v) => Ok(v as i64),
        Err(e) => Err(e),
    }
}

/// Parses a `u8` literal, as `str::parse::<u8>` does.
fn parse_u8(s: &Vec<char>) -> (r: Result<u8, IntErrorKind>)
    ensures
        match r {
            Ok(v) => parse_u8_spec(s@) == Ok::<int, IntErrorKind>(v as int),
            Err(e) => parse_u8_spec(s@) == Err::<int, IntErrorKind>(e),
        },
{
    proof {
        lemma_parse_int_range(s@, false, 255, 0);
    }
    match parse_int(s, false, 255, 0) {
        Ok(v) => Ok(v as u8),
        Err(e) => Err(e),
    }
}

proof fn lemma_parse_digits_range(d: Seq<char>, acc: int, max: int, neg: bool)
    requires
        0 <= acc <= max,
    ensures
        parse_digits(d, acc, max, neg) matches Ok(m) ==> 0 <= m <= max,
    decreases d.len(),
{
    if d.len() > 0 && '0' <= d[0] <= '9' {
        let a = acc * 10 + (d[0] as int - '0' as int);
        if a <= max {
            lemma_parse_digits_range(d.drop_first(), a, max, neg);
        }
    }
}

/// A parsed integer lies between the bounds of its type.
pub proof fn lemma_parse_int_range(s: Seq<char>, signed: bool, max_pos: int, max_neg: int)
    requires
        max_pos >= 0,
        max_neg >= 0,
    ensures
        parse_int_spec(s, signed, max_pos, max_neg) matches Ok(v) ==> -max_neg <= v <= max_pos,
        !signed ==> (parse_int_spec(s, signed, max_pos, max_neg) matches Ok(v) ==> v >= 0),
{
    if s.len() > 0 {
        lemma_parse_digits_range(s.drop_first(), 0, max_pos, false);
        lemma_parse_digits_range(s.drop_first(), 0, max_neg, true);
        lemma_parse_digits_range(s, 0, max_pos, false);
    }
}


/// The instruction that an uppercase name stands for, as [`keyword_op`]
/// says.
pub fn keyword_opcode(w: &Vec<char>) -> (r: Option<OpCode>)
    ensures
        r == keyword_op(w@),
{
    if chars_equal(w, &chars_of("PUSH")) {
        return Some(OpCode::Push);
    }
    if chars_equal(w, &chars_of("POP")) {
        return Some(OpCode::Pop);
    }
    if chars_equal(w, &chars_of("DUP")) {
        return Some(OpCode::Dup);
    }
    if chars_equal(w, &chars_of("SWAP")) {
        return Some(OpCode::Swap);
    }
    if chars_equal(w, &chars_of("ADD")) {
        return Some(OpCode::Add);
    }
    if chars_equal(w, &chars_of("SUB")) {
        return Some(OpCode::Sub);
    }
    if chars_equal(w, &chars_of("MUL")) {
        return Some(OpCode::Mul);
    }
    if chars_equal(w, &chars_of("DIV")) {
        return Some(OpCode::Div);
    }
    if chars_equal(w, &chars_of("MOD")) {
        return Some(OpCode::Mod);
    }
    if chars_equal(w, &chars_of("NEG")) {
        return Some(OpCode::Neg);
    }
    if chars_equal(w, &chars_of("EQ")) {
        return Some(OpCode::Eq);
    }
    if chars_equal(w, &chars_of("NE")) {
        return Some(OpCode::Ne);
    }
    if chars_equal(w, &chars_of("LT")) {
        return Some(OpCode::Lt);
    }
    if chars_equal(w, &chars_of("LE")) {
        return Some(OpCode::Le);
    }
    if chars_equal(w, &chars_of("GT")) {
        return Some(OpCode::Gt);
    }
    if chars_equal(w, &chars_of("GE")) {
        return Some(OpCode::Ge);
    }
    if chars_equal(w, &chars_of("AND")) {
        return Some(OpCode::And);
    }
    if chars_equal(w, &chars_of("OR")) {
        return Some(OpCode::Or);
    }
    if chars_equal(w, &chars_of("NOT")) {
        return Some(OpCode::Not);
    }
    if chars_equal(w, &chars_of("JUMP")) {
        return Some(OpCode::Jump);
    }
    if chars_equal(w, &chars_of("JUMPIF")) {
        return Some(OpCode::JumpIf);
    }
    if chars_equal(w, &chars_of("JUMPIFNOT")) {
        return Some(OpCode::JumpIfNot);
    }
    if chars_equal(w, &chars_of("CALL")) {
        return Some(OpCode::Call);
    }
    if chars_equal(w, &chars_of("RETURN")) {
        return Some(OpCode::Return);
    }
    if chars_equal(w, &chars_of("LOAD")) {
        return Some(OpCode::Load);
    }
    if chars_equal(w, &chars_of("STORE")) {
        return Some(OpCode::Store);
    }
    if chars_equal(w, &chars_of("PRINT")) {
        return Some(OpCode::Print);
    }
    if chars_equal(w, &chars_of("INPUT")) {
        return Some(OpCode::Input);
    }
    if chars_equal(w, &chars_of("HALT")) {
        return Some(OpCode::Halt);
    }
    None
}

/// The instruction that a name stands for, whatever its case.
fn parse_opcode(instr: &Vec<char>) -> (r: Result<OpCode, AsmError>)
    ensures
        match r {
            Ok(op) => parse_opcode_spec(instr@) == Ok::<OpCode, AsmErrorModel>(op),
            Err(e) => parse_opcode_spec(instr@) == Err::<OpCode, AsmErrorModel>(e@),
        },
{
    let s = string_from_chars(instr, 0, instr.len());
    assert(s@ =~= instr@);
    let up = to_uppercase(s.as_str());
    let upc = chars_of(up.as_str());
    match keyword_opcode(&upc) {
        Some(op) => Ok(op),
        None => Err(AsmError::UnknownInstruction(s)),
    }
}

/// Splits an instruction line into its name and its arguments, as
/// [`parse_line_spec`] says.
fn parse_instruction_line(line: &Vec<char>) -> (r: Result<(Vec<char>, Vec<Vec<char>>), AsmError>)
    ensures
        match (r, parse_line_spec(line@)) {
            (Ok((i, a)), Ok((si, sa))) => i@ == si && texts_view(a@) == sa,
            (Err(e), Err(se)) => e@ == se,
            _ => false,
        },
{
    let t = trimmed_line(line);
    let n = t.len();
    assert(t@.subrange(0, n as int) =~= t@);
    let p = find_in_class(&t, 0, CharClass::Whitespace);
    if p == n {
        let args: Vec<Vec<char>> = Vec::new();
        assert(texts_view(args@) =~= Seq::<Seq<char>>::empty());
        return Ok((t, args));
    }
    let instr = copy_range(&t, 0, p);
    let tail = copy_range(&t, p, n);
    assert(tail@ =~= t@.skip(p as int));
    assert(instr@ =~= t@.take(p as int));
    let (a, b) = strip_bounds(&tail, CharClass::Whitespace);
    let rest = copy_range(&tail, a, b);
    let m = rest.len();
    if m > 0 && rest[0] == '"' {
        let q = find_in_class(&rest, 1, CharClass::Exactly('"'));
        assert(rest@.subrange(1, m as int) =~= rest@.drop_first());
        if q == m {
            Err(AsmError::UnterminatedString)
        } else {
            let arg = copy_range(&rest, 0, q + 1);
            assert(arg@ =~= rest@.take(q - 1 + 2));
            let mut args: Vec<Vec<char>> = Vec::new();
            args.push(arg);
            assert(texts_view(args@) =~= seq![arg@]);
            Ok((instr, args))
        }
    } else {
        let args = split_words(&rest);
        Ok((instr, args))
    }
}

/// The UTF-8 bytes of a range of chars.
fn utf8_bytes(v: &Vec<char>, start: usize, end: usize) -> (r: Vec<u8>)
    requires
        start <= end <= v@.len(),
    ensures
        r@ == encode_utf8(v@.subrange(start as int, end as int)),
{
    let s = string_from_chars(v, start, end);
    let b = s.as_str().as_bytes();
    let mut r: Vec<u8> = Vec::new();
    append_bytes(&mut r, b);
    assert(r@ =~= b@);
    r
}

/// Appends bytes.
fn append_bytes(code: &mut Vec<u8>, b: &[u8])
    ensures
        final(code)@ == old(code)@ + b@,
{
    let mut i: usize = 0;
    while i < b.len()
        invariant
            i <= b@.len(),
            code@ == old(code)@ + b@.take(i as int),
        decreases b@.len() - i,
    {
        code.push(b[i]);
        i = i + 1;
        assert(code@ =~= old(code)@ + b@.take(i as int));
    }
    assert(b@.take(b@.len() as int) =~= b@);
}

/// Whether a text is a given string literal.
fn is_word(v: &Vec<char>, w: &str) -> (r: bool)
    ensures
        r == (v@ == w@),
{
    chars_equal(v, &chars_of(w))
}

/// The size that the first pass reserves for a value literal.
fn estimate_value_size(v: &Vec<char>) -> (r: u128)
    ensures
        r == estimate_value_size_spec(v@),
        r <= usize::MAX as u128 + 9,
{
    if v.len() > 0 && v[0] == '"' {
        let (a, b) = strip_bounds(v, CharClass::Exactly('"'));
        let bytes = utf8_bytes(v, a, b);
        3 + bytes.len() as u128
    } else if is_word(v, "true") || is_word(v, "false") {
        2
    } else if is_word(v, "null") {
        1
    } else {
        9
    }
}

/// The size that the first pass reserves for an instruction.
fn estimate_instruction_size(instr: &Vec<char>, args: &Vec<Vec<char>>) -> (r: Result<
    u128,
    AsmError,
>)
    ensures
        r matches Ok(n) ==> n <= usize::MAX as u128 + 10,
        match r {
            Ok(n) => estimate_size_spec(instr@, texts_view(args@)) == Ok::<nat, AsmErrorModel>(
                n as nat,
            ),
            Err(e) => estimate_size_spec(instr@, texts_view(args@)) == Err::<nat, AsmErrorModel>(
                e@,
            ),
        },
{
    let op = parse_opcode(instr)?;
    match op {
        OpCode::Push => if args.len() == 0 {
            Err(AsmError::PushRequiresArgument)
        } else {
            Ok(1 + estimate_value_size(&args[0]))
        },
        OpCode::Jump | OpCode::JumpIf | OpCode::JumpIfNot | OpCode::Call => Ok(3),
        OpCode::Load | OpCode::Store => Ok(2),
        _ => Ok(1),
    }
}

/// How the second pass stops early.
enum Interruption {
    Failed(AsmError),
    NeedsFloat(Vec<char>),
}

impl View for Interruption {
    type V = Interrupt;

    closed spec fn view(&self) -> Interrupt {
        match self {
            Interruption::Failed(e) => Interrupt::Failed(e@),
            Interruption::NeedsFloat(v) => Interrupt::NeedsFloat(v@),
        }
    }
}

/// Appends the bytecode of a value literal, as [`encode_value_spec`] says.
fn encode_value(v: &Vec<char>, code: &mut Vec<u8>, floats: &[Option<u64>], k: usize) -> (r: Result<
    usize,
    Interruption,
>)
    ensures
        r is Err ==> final(code)@ == old(code)@,
        match (r, encode_value_spec(v@, floats@, k as nat)) {
            (Ok(k2), Ok((b, sk))) => final(code)@ == old(code)@ + b && k2 == sk,
            (Err(i), Err(si)) => i@ == si,
            _ => false,
        },
{
    let n = v.len();
    if n > 0 && v[0] == '"' && v[n - 1] == '"' {
        let (a, b) = strip_bounds(v, CharClass::Exactly('"'));
        let bytes = utf8_bytes(v, a, b);
        let len = bytes.len();
        code.push(0x04);
        code.push(((len / 256) % 256) as u8);
        code.push((len % 256) as u8);
        append_bytes(code, bytes.as_slice());
        proof {
            let ghost b = encode_utf8(trim_char(v@, '"'));
            assert(final(code)@ =~= old(code)@ + (seq![0x04u8, ((b.len() / 256) % 256) as u8, (b.len() % 256) as u8] + b));
        }
        Ok(k)
    } else if is_word(v, "true") {
        code.push(0x03);
        code.push(1);
        assert(final(code)@ =~= old(code)@ + seq![0x03u8, 1u8]);
        Ok(k)
    } else if is_word(v, "false") {
        code.push(0x03);
        code.push(0);
        assert(final(code)@ =~= old(code)@ + seq![0x03u8, 0u8]);
        Ok(k)
    } else if is_word(v, "null") {
        code.push(0x00);
        assert(final(code)@ =~= old(code)@ + seq![0x00u8]);
        Ok(k)
    } else if contains_char(v, '.') {
        if k < floats.len() {
            match floats[k] {
                Some(bits) => {
                    code.push(0x02);
                    let b = be_encode(bits, 8);
                    append_bytes(code, b.as_slice());
                    assert(final(code)@ =~= old(code)@ + (seq![0x02u8] + be_bytes(bits as nat, 8)));
                    Ok(k + 1)
                },
                None => Err(Interruption::Failed(AsmError::InvalidFloat)),
            }
        } else {
            let c = copy_range(v, 0, n);
            assert(c@ =~= v@);
            Err(Interruption::NeedsFloat(c))
        }
    } else {
        match parse_i64(v) {
            Ok(i) => {
                code.push(0x01);
                let b = be_encode(#[verifier::truncate] (i as u64), 8);
                append_bytes(code, b.as_slice());
                assert(final(code)@ =~= old(code)@ + (seq![0x01u8] + be_bytes(((i as int as i64) as u64) as nat, 8)));
                Ok(k)
            },
            Err(e) => Err(Interruption::Failed(AsmError::InvalidInteger(e))),
        }
    }
}


/// The model of a label table.
pub open spec fn labels_view(v: Seq<(Vec<char>, usize)>) -> Seq<(Seq<char>, usize)> {
    v.map_values(|p: (Vec<char>, usize)| (p.0@, p.1))
}

/// The model of a list of pending jumps.
pub open spec fn pending_view(v: Seq<(usize, Vec<char>)>) -> Seq<(usize, Seq<char>)> {
    v.map_values(|p: (usize, Vec<char>)| (p.0, p.1@))
}

/// The model of an assembly's result.
pub open spec fn assembled_model(r: Result<Assembled, AsmError>) -> Result<
    AssembledModel,
    AsmErrorModel,
> {
    match r {
        Ok(a) => Ok(a@),
        Err(e) => Err(e@),
    }
}

/// The value of a label, as [`lookup`] says.
fn lookup_label(labels: &Vec<(Vec<char>, usize)>, name: &Vec<char>) -> (r: Option<usize>)
    ensures
        r == lookup(labels_view(labels@), name@),
{
    let mut i = labels.len();
    assert(labels@.take(i as int) =~= labels@);
    while i > 0
        invariant
            i <= labels@.len(),
            lookup(labels_view(labels@), name@) == lookup(labels_view(labels@.take(i as int)), name@),
        decreases i,
    {
        let ghost t = labels_view(labels@.take(i as int));
        assert(t.last() == (labels@[i - 1].0@, labels@[i - 1].1));
        assert(t.drop_last() =~= labels_view(labels@.take(i - 1)));
        if chars_equal(&labels[i - 1].0, name) {
            return Some(labels[i - 1].1);
        }
        i = i - 1;
    }
    None
}

/// A line without its leading and trailing white space.
fn trimmed_line(line: &Vec<char>) -> (t: Vec<char>)
    ensures
        t@ == trim(line@),
{
    let (a, b) = strip_bounds(line, CharClass::Whitespace);
    copy_range(line, a, b)
}

/// The RustCode assembler: turns assembly text into bytecode.
///
/// It holds the labels and the pending jumps of its latest assembly; each
/// assembly starts from none, so it depends on its source alone.
pub struct Assembler {
    labels: Vec<(Vec<char>, usize)>,
    unresolved_jumps: Vec<(usize, Vec<char>)>,
}

impl View for Assembler {
    type V = AsmModel;

    closed spec fn view(&self) -> AsmModel {
        AsmModel {
            labels: labels_view(self.labels@),
            pending: pending_view(self.unresolved_jumps@),
        }
    }
}

impl Assembler {
    /// An assembler that knows no label and has no pending jump.
    pub fn new() -> (a: Assembler)
        ensures
            a@.labels == Seq::<(Seq<char>, usize)>::empty(),
            a@.pending == Seq::<(usize, Seq<char>)>::empty(),
    {
        let a = Assembler { labels: Vec::new(), unresolved_jumps: Vec::new() };
        assert(a@.labels =~= Seq::<(Seq<char>, usize)>::empty());
        assert(a@.pending =~= Seq::<(usize, Seq<char>)>::empty());
        a
    }

    fn first_pass(&mut self, lines: &Vec<Vec<char>>) -> (r: Result<usize, AsmError>)
        ensures
            final(self).unresolved_jumps == old(self).unresolved_jumps,
            final(self).labels@.len() >= old(self).labels@.len(),
            final(self).labels@.take(old(self).labels@.len() as int) == old(self).labels@,
            match (r, pass1_spec(texts_view(lines@), 0, old(self)@.labels, 0)) {
                (Ok(n), (l, Ok(sn))) => final(self)@.labels == l && n == sn,
                (Err(e), (l, Err(se))) => final(self)@.labels == l && e@ == se,
                _ => false,
            },
    {
        let ghost lv = texts_view(lines@);
        let mut len: usize = 0;
        let mut i: usize = 0;
        assert(self.labels@.take(old(self).labels@.len() as int) =~= old(self).labels@);
        while i < lines.len()
            invariant
                i <= lines@.len(),
                lv == texts_view(lines@),
                self.unresolved_jumps == old(self).unresolved_jumps,
                self.labels@.len() >= old(self).labels@.len(),
                self.labels@.take(old(self).labels@.len() as int) == old(self).labels@,
                pass1_spec(lv, i as nat, self@.labels, len as nat) == pass1_spec(
                    lv,
                    0,
                    old(self)@.labels,
                    0,
                ),
            decreases lines@.len() - i,
        {
            let t = trimmed_line(&lines[i]);
            assert(lv[i as int] == lines@[i as int]@);
            let n = t.len();
            if n == 0 || t[0] == ';' {
            } else if t[n - 1] == ':' {
                let end = strip_end_bound(&t, CharClass::Exactly(':'));
                let name = copy_range(&t, 0, end);
                let ghost before = self.labels@;
                self.labels.push((name, len));
                assert(self@.labels =~= labels_view(before).push((name@, len)));
                assert(self.labels@.take(old(self).labels@.len() as int) =~= before.take(
                    old(self).labels@.len() as int,
                ));
            } else {
                let (instr, args) = match parse_instruction_line(&t) {
                    Ok(p) => p,
                    Err(e) => return Err(e),
                };
                let size = match estimate_instruction_size(&instr, &args) {
                    Ok(size) => size,
                    Err(e) => return Err(e),
                };
                if len as u128 + size > usize::MAX as u128 {
                    return Err(AsmError::ProgramTooLarge);
                }
                len = (len as u128 + size) as usize;
            }
            i = i + 1;
        }
        Ok(len)
    }

    fn assemble_instruction(
        &mut self,
        t: &Vec<char>,
        line_num: usize,
        code: &mut Vec<u8>,
        floats: &[Option<u64>],
        k: usize,
    ) -> (r: Result<usize, Interruption>)
        ensures
            final(code)@.len() >= old(code)@.len(),
            final(code)@.take(old(code)@.len() as int) == old(code)@,
            final(self).labels == old(self).labels,
            final(self).unresolved_jumps@.len() >= old(self).unresolved_jumps@.len(),
            final(self).unresolved_jumps@.take(old(self).unresolved_jumps@.len() as int)
                == old(self).unresolved_jumps@,
            final(self)@.pending == assemble_line_spec(
                t@,
                line_num as nat,
                old(self)@.labels,
                old(self)@.pending,
                old(code)@,
                floats@,
                k as nat,
            ).0,
            match (
                r,
                assemble_line_spec(
                    t@,
                    line_num as nat,
                    old(self)@.labels,
                    old(self)@.pending,
                    old(code)@,
                    floats@,
                    k as nat,
                ).1,
            ) {
                (Ok(k2), Ok((c, sk))) => final(code)@ == c && k2 == sk,
                (Err(i), Err(si)) => i@ == si,
                _ => false,
            },
    {
        assert(self.unresolved_jumps@.take(self.unresolved_jumps@.len() as int)
            =~= self.unresolved_jumps@);
        let (instr, args) = match parse_instruction_line(t) {
            Ok(p) => p,
            Err(e) => return Err(Interruption::Failed(e)),
        };
        let op = match parse_opcode(&instr) {
            Ok(op) => op,
            Err(e) => return Err(Interruption::Failed(e)),
        };
        code.push(op.to_byte());
        let arg = if args.len() == 0 {
            None
        } else {
            Some(copy_range(&args[0], 0, args[0].len()))
        };
        assert(arg matches Some(a) ==> a@ == texts_view(args@)[0]) by {
            if args.len() > 0 {
                assert(args@[0]@.subrange(0, args@[0]@.len() as int) =~= args@[0]@);
            }
        }
        assert(instr@.subrange(0, instr@.len() as int) =~= instr@);
        match op {
            OpCode::Push => match &arg {
                None => Err(Interruption::Failed(AsmError::PushArgumentMissing(line_num))),
                Some(v) => encode_value(v, code, floats, k),
            },
            OpCode::Jump | OpCode::JumpIf | OpCode::JumpIfNot | OpCode::Call => match arg {
                None => Err(
                    Interruption::Failed(
                        AsmError::LabelRequired(line_num, string_from_chars(&instr, 0, instr.len())),
                    ),
                ),
                Some(l) => {
                    let ghost c1 = code@;
                    match lookup_label(&self.labels, &l) {
                        Some(addr) => {
                            code.push(((addr / 256) % 256) as u8);
                            code.push((addr % 256) as u8);
                            assert(code@ =~= c1 + address_bytes(addr));
                        },
                        None => {
                            let ghost before = self.unresolved_jumps@;
                            self.unresolved_jumps.push((code.len(), l));
                            assert(self@.pending =~= pending_view(before).push(
                                (final(self).unresolved_jumps@.last().0, l@),
                            ));
                            code.push(0);
                            code.push(0);
                            assert(code@ =~= c1 + seq![0u8, 0u8]);
                        },
                    }
                    Ok(k)
                },
            },
            OpCode::Load | OpCode::Store => match &arg {
                None => Err(
                    Interruption::Failed(
                        AsmError::AddressRequired(
                            line_num,
                            string_from_chars(&instr, 0, instr.len()),
                        ),
                    ),
                ),
                Some(a) => match parse_u8(a) {
                    Ok(b) => {
                        code.push(b);
                        Ok(k)
                    },
                    Err(e) => Err(Interruption::Failed(AsmError::InvalidAddress(line_num, e))),
                },
            },
            _ => Ok(k),
        }
    }

    fn second_pass(&mut self, lines: &Vec<Vec<char>>, floats: &[Option<u64>]) -> (r: Result<
        Vec<u8>,
        Interruption,
    >)
        ensures
            final(self).labels == old(self).labels,
            final(self).unresolved_jumps@.len() >= old(self).unresolved_jumps@.len(),
            final(self).unresolved_jumps@.take(old(self).unresolved_jumps@.len() as int)
                == old(self).unresolved_jumps@,
            final(self)@.pending == pass2_spec(
                texts_view(lines@),
                0,
                old(self)@.labels,
                old(self)@.pending,
                seq![],
                floats@,
                0,
            ).0,
            match (
                r,
                pass2_spec(
                    texts_view(lines@),
                    0,
                    old(self)@.labels,
                    old(self)@.pending,
                    seq![],
                    floats@,
                    0,
                ).1,
            ) {
                (Ok(c), Ok(sc)) => c@ == sc,
                (Err(i), Err(si)) => i@ == si,
                _ => false,
            },
    {
        let ghost lv = texts_view(lines@);
        let mut code: Vec<u8> = Vec::new();
        let mut k: usize = 0;
        let mut i: usize = 0;
        assert(self.unresolved_jumps@.take(old(self).unresolved_jumps@.len() as int)
            =~= old(self).unresolved_jumps@);
        while i < lines.len()
            invariant
                i <= lines@.len(),
                lv == texts_view(lines@),
                self.labels == old(self).labels,
                self.unresolved_jumps@.len() >= old(self).unresolved_jumps@.len(),
                self.unresolved_jumps@.take(old(self).unresolved_jumps@.len() as int)
                    == old(self).unresolved_jumps@,
                pass2_spec(lv, i as nat, self@.labels, self@.pending, code@, floats@, k as nat)
                    == pass2_spec(lv, 0, old(self)@.labels, old(self)@.pending, seq![], floats@, 0),
            decreases lines@.len() - i,
        {
            let t = trimmed_line(&lines[i]);
            assert(lv[i as int] == lines@[i as int]@);
            let n = t.len();
            if n == 0 || t[0] == ';' || t[n - 1] == ':' {
            } else {
                let ghost before = self.unresolved_jumps@;
                match self.assemble_instruction(&t, i + 1, &mut code, floats, k) {
                    Ok(k2) => {
                        k = k2;
                    },
                    Err(e) => {
                        return Err(e);
                    },
                }
                assert(self.unresolved_jumps@.take(old(self).unresolved_jumps@.len() as int)
                    =~= before.take(old(self).unresolved_jumps@.len() as int)) by {
                    assert(self.unresolved_jumps@.take(before.len() as int) == before);
                }
            }
            i = i + 1;
        }
        Ok(code)
    }

    fn resolve_jumps(&self, code: &mut Vec<u8>) -> (r: Result<(), AsmError>)
        requires
            operands_within(self@.pending, old(code)@.len()),
        ensures
            match (r, resolve_spec(self@.pending, 0, self@.labels, old(code)@)) {
                (Ok(_), Ok(c)) => final(code)@ == c,
                (Err(e), Err(se)) => e@ == se,
                _ => false,
            },
    {
        let mut i: usize = 0;
        while i < self.unresolved_jumps.len()
            invariant
                i <= self.unresolved_jumps@.len(),
                code@.len() == old(code)@.len(),
                operands_within(self@.pending, old(code)@.len()),
                resolve_spec(self@.pending, i as nat, self@.labels, code@) == resolve_spec(
                    self@.pending,
                    0,
                    self@.labels,
                    old(code)@,
                ),
            decreases self.unresolved_jumps@.len() - i,
        {
            let offset = self.unresolved_jumps[i].0;
            let label = &self.unresolved_jumps[i].1;
            assert(self@.pending[i as int] == (offset, label@));
            match lookup_label(&self.labels, label) {
                None => {
                    let name = string_from_chars(label, 0, label.len());
                    assert(name@ =~= label@);
                    return Err(AsmError::UndefinedLabel(name));
                },
                Some(addr) => {
                    assert(self@.pending[i as int].0 + 2 <= old(code)@.len());
                    assert(offset + 2 <= code.len());
                    code.set(offset, ((addr / 256) % 256) as u8);
                    code.set(offset + 1, (addr % 256) as u8);
                },
            }
            i = i + 1;
        }
        Ok(())
    }

    /// Assembles source text into bytecode, as [`assemble_spec`] says: from
    /// no label and no pending jump, whatever earlier assemblies left.
    ///
    /// `floats` holds, in the order of the float literals in the text, the
    /// bits that each parses to (`None` for one that does not parse); when
    /// a float literal comes after them, the assembly returns it, so that
    /// the caller can parse it and assemble again.
    pub fn assemble(&mut self, source: &str, floats: &[Option<u64>]) -> (r: Result<
        Assembled,
        AsmError,
    >)
        ensures
            (final(self)@, assembled_model(r)) == assemble_spec(source@, floats@),
    {
        let chars = chars_of(source);
        let lines = lines_of(&chars);
        assert(texts_view(lines@) == split_lines(source@));
        self.labels = Vec::new();
        self.unresolved_jumps = Vec::new();
        assert(self@.labels =~= Seq::<(Seq<char>, usize)>::empty());
        assert(self@.pending =~= Seq::<(usize, Seq<char>)>::empty());
        match self.first_pass(&lines) {
            Ok(_) => {},
            Err(e) => return Err(e),
        }
        let ghost labels1 = self@.labels;
        proof {
            lemma_pass2_keeps_operands_within(
                split_lines(source@),
                0,
                labels1,
                seq![],
                seq![],
                floats@,
                0,
            );
        }
        match self.second_pass(&lines, floats) {
            Err(Interruption::NeedsFloat(v)) => {
                let s = string_from_chars(&v, 0, v.len());
                assert(s@ =~= v@);
                Ok(Assembled::NeedsFloat(s))
            },
            Err(Interruption::Failed(e)) => Err(e),
            Ok(code) => {
                let mut code = code;
                match self.resolve_jumps(&mut code) {
                    Ok(_) => Ok(Assembled::Bytecode(code)),
                    Err(e) => Err(e),
                }
            },
        }
    }
}


impl Default for Assembler {
    fn default() -> (a: Assembler)
        ensures
            a@.labels == Seq::<(Seq<char>, usize)>::empty(),
            a@.pending == Seq::<(usize, Seq<char>)>::empty(),
    {
        Assembler::new()
    }
}

} // verus!
