use vstd::prelude::*;

verus! {

/// A runtime value of the virtual machine.
///
/// A float is held as the bit pattern of an IEEE-754 double (`f64::to_bits`);
/// the library never interprets those bits itself: whatever depends on the
/// value of a float is asked of the caller as a [`FloatQuery`].
///
/// The derived `==` compares float bit patterns; the machine's own `EQ`
/// instruction compares floats as floats, through a [`FloatQuery::Equal`].
#[derive(Debug, Clone, PartialEq)]
pub enum Value {
    Integer(i64),
    Float(u64),
    Boolean(bool),
    String(String),
    Null,
}

/// The mathematical model of a [`Value`]: a string is its sequence of chars.
pub enum ValueModel {
    Integer(i64),
    Float(u64),
    Boolean(bool),
    Str(Seq<char>),
    Null,
}

impl View for Value {
    type V = ValueModel;

    open spec fn view(&self) -> ValueModel {
        match self {
            Value::Integer(i) => ValueModel::Integer(*i),
            Value::Float(f) => ValueModel::Float(*f),
            Value::Boolean(b) => ValueModel::Boolean(*b),
            Value::String(s) => ValueModel::Str(s@),
            Value::Null => ValueModel::Null,
        }
    }
}

/// The models of a sequence of values.
pub open spec fn models(values: Seq<Value>) -> Seq<ValueModel> {
    values.map_values(|v: Value| v@)
}

/// A number handed to the caller to be taken as a float: an integer, to be
/// converted as `i as f64` is, or the bits of a float.
#[derive(Debug, Clone, Copy, PartialEq, Eq, Structural)]
pub enum FloatOperand {
    Int(i64),
    Bits(u64),
}

impl View for FloatOperand {
    type V = FloatOperand;

    open spec fn view(&self) -> FloatOperand {
        *self
    }
}

/// A float arithmetic operation.
#[derive(Debug, Clone, Copy, PartialEq, Eq, Structural)]
pub enum ArithOp {
    Add,
    Sub,
    Mul,
    Div,
}

/// A comparison of two numbers taken as floats.
#[derive(Debug, Clone, Copy, PartialEq, Eq, Structural)]
pub enum CmpOp {
    Lt,
    Le,
    Gt,
    Ge,
}

/// Work on floats that the library leaves to its caller, with the kind of
/// [`Answer`](crate::vm::Answer) that it expects back.
#[derive(Debug, Clone, Copy, PartialEq, Eq, Structural)]
pub enum FloatQuery {
    /// `a op b` on the two operands taken as floats: the bits of the result,
    /// or, for a division by a float zero, `DivisionByZero`.
    Arith(ArithOp, FloatOperand, FloatOperand),
    /// `f as i64` for the float with these bits.
    ToInteger(u64),
    /// `f != 0.0` for the float with these bits.
    IsNonZero(u64),
    /// The bits of `-f` for the float with these bits.
    Negate(u64),
    /// `f == g` for the two floats with these bits.
    Equal(u64, u64),
    /// `a op b` on the two operands taken as floats.
    Compare(CmpOp, FloatOperand, FloatOperand),
}

/// A result that is either known or that waits for the answer to a
/// [`FloatQuery`].
#[derive(Debug, Clone, PartialEq)]
pub enum Eval<T> {
    Ready(T),
    NeedsFloat(FloatQuery),
}

impl<T: View> View for Eval<T> {
    type V = Eval<T::V>;

    open spec fn view(&self) -> Eval<T::V> {
        match self {
            Eval::Ready(t) => Eval::Ready(t@),
            Eval::NeedsFloat(q) => Eval::NeedsFloat(*q),
        }
    }
}

/// An integer operation whose overflow the machine reports.
#[derive(Debug, Clone, Copy, PartialEq, Eq, Structural)]
pub enum IntOp {
    Add,
    Sub,
    Mul,
    Div,
    Rem,
    Neg,
}

/// The errors of values and of the machine.
#[derive(Debug, Clone)]
pub enum VmError {
    /// Instruction pointer out of bounds.
    IpOutOfBounds,
    /// Invalid opcode, with the byte found.
    InvalidOpcode(u8),
    /// Unexpected end of code while reading an operand.
    UnexpectedEndOfCode,
    /// Unknown value type, with the type byte found.
    UnknownValueType(u8),
    /// A string operand whose bytes are not UTF-8.
    InvalidUtf8(Vec<u8>),
    /// A pop from an empty stack.
    StackUnderflow,
    /// A look at the top of an empty stack.
    StackEmpty,
    CannotConvertToInteger(Value),
    CannotConvertToFloat(Value),
    CannotAdd(Value, Value),
    CannotSubtract(Value, Value),
    CannotMultiply(Value, Value),
    CannotDivide(Value, Value),
    DivisionByZero,
    ModuloByZero,
    CannotNegate,
    /// An integer operation whose result does not fit in an `i64`, on which
    /// Rust's own arithmetic panics.
    Overflow(IntOp),
    /// An answer of the wrong kind for the pending query.
    UnexpectedAnswer,
}

/// The model of a [`VmError`].
pub enum ErrorModel {
    IpOutOfBounds,
    InvalidOpcode(u8),
    UnexpectedEndOfCode,
    UnknownValueType(u8),
    InvalidUtf8(Seq<u8>),
    StackUnderflow,
    StackEmpty,
    CannotConvertToInteger(ValueModel),
    CannotConvertToFloat(ValueModel),
    CannotAdd(ValueModel, ValueModel),
    CannotSubtract(ValueModel, ValueModel),
    CannotMultiply(ValueModel, ValueModel),
    CannotDivide(ValueModel, ValueModel),
    DivisionByZero,
    ModuloByZero,
    CannotNegate,
    Overflow(IntOp),
    UnexpectedAnswer,
}

impl View for VmError {
    type V = ErrorModel;

    open spec fn view(&self) -> ErrorModel {
        match self {
            VmError::IpOutOfBounds => ErrorModel::IpOutOfBounds,
            VmError::InvalidOpcode(b) => ErrorModel::InvalidOpcode(*b),
            VmError::UnexpectedEndOfCode => ErrorModel::UnexpectedEndOfCode,
            VmError::UnknownValueType(b) => ErrorModel::UnknownValueType(*b),
            VmError::InvalidUtf8(bytes) => ErrorModel::InvalidUtf8(bytes@),
            VmError::StackUnderflow => ErrorModel::StackUnderflow,
            VmError::StackEmpty => ErrorModel::StackEmpty,
            VmError::CannotConvertToInteger(v) => ErrorModel::CannotConvertToInteger(v@),
            VmError::CannotConvertToFloat(v) => ErrorModel::CannotConvertToFloat(v@),
            VmError::CannotAdd(a, b) => ErrorModel::CannotAdd(a@, b@),
            VmError::CannotSubtract(a, b) => ErrorModel::CannotSubtract(a@, b@),
            VmError::CannotMultiply(a, b) => ErrorModel::CannotMultiply(a@, b@),
            VmError::CannotDivide(a, b) => ErrorModel::CannotDivide(a@, b@),
            VmError::DivisionByZero => ErrorModel::DivisionByZero,
            VmError::ModuloByZero => ErrorModel::ModuloByZero,
            VmError::CannotNegate => ErrorModel::CannotNegate,
            VmError::Overflow(op) => ErrorModel::Overflow(*op),
            VmError::UnexpectedAnswer => ErrorModel::UnexpectedAnswer,
        }
    }
}

/// The model of a result whose error is a [`VmError`].
pub open spec fn result_model<T: View>(r: Result<T, VmError>) -> Result<T::V, ErrorModel> {
    match r {
        Ok(t) => Ok(t@),
        Err(e) => Err(e@),
    }
}

/// Rust's `/` on integers: the quotient rounded toward zero.
pub open spec fn div_toward_zero(x: int, d: int) -> int {
    if x == 0 {
        0
    } else if x > 0 && d > 0 {
        x / d
    } else if x < 0 && d < 0 {
        (x * -1) / (d * -1)
    } else if x < 0 {
        ((x * -1) / d) * -1
    } else {
        (x / (d * -1)) * -1
    }
}

/// Rust's `%` on integers: the remainder of the division rounded toward
/// zero, with the sign of the dividend.
pub open spec fn rem_toward_zero(x: int, d: int) -> int {
    if x == 0 {
        0
    } else if x > 0 && d > 0 {
        x % d
    } else if x < 0 && d < 0 {
        ((x * -1) % (d * -1)) * -1
    } else if x < 0 {
        ((x * -1) % d) * -1
    } else {
        x % (d * -1)
    }
}

/// Whether an integer fits in an `i64`.
pub open spec fn fits_i64(x: int) -> bool {
    i64::MIN <= x <= i64::MAX
}

/// Integers of at most this magnitude are exactly representable as doubles,
/// so that comparing them as floats is comparing them as integers.
pub open spec fn exact_float_bound() -> int {
    0x20_0000_0000_0000
}

pub open spec fn is_numeric(v: ValueModel) -> bool {
    v is Integer || v is Float
}

/// The float operand of a number: an integer to convert, or float bits.
pub open spec fn float_operand_of(v: ValueModel) -> FloatOperand {
    match v {
        ValueModel::Float(f) => FloatOperand::Bits(f),
        ValueModel::Integer(i) => FloatOperand::Int(i),
        _ => FloatOperand::Int(0),
    }
}

/// What `as_integer` gives for a value.
pub open spec fn spec_as_integer(v: ValueModel) -> Result<Eval<i64>, ErrorModel> {
    match v {
        ValueModel::Integer(i) => Ok(Eval::Ready(i)),
        ValueModel::Float(f) => Ok(Eval::NeedsFloat(FloatQuery::ToInteger(f))),
        ValueModel::Boolean(b) => Ok(Eval::Ready(if b { 1 } else { 0 })),
        _ => Err(ErrorModel::CannotConvertToInteger(v)),
    }
}

/// What `as_float` gives for a value: the operand that it stands for as a
/// float (a boolean stands for `1.0` or `0.0`).
pub open spec fn spec_as_float(v: ValueModel) -> Result<FloatOperand, ErrorModel> {
    match v {
        ValueModel::Float(f) => Ok(FloatOperand::Bits(f)),
        ValueModel::Integer(i) => Ok(FloatOperand::Int(i)),
        ValueModel::Boolean(b) => Ok(FloatOperand::Int(if b { 1 } else { 0 })),
        _ => Err(ErrorModel::CannotConvertToFloat(v)),
    }
}

/// What `as_bool` gives for a value: its truthiness.
pub open spec fn spec_as_bool(v: ValueModel) -> Eval<bool> {
    match v {
        ValueModel::Boolean(b) => Eval::Ready(b),
        ValueModel::Integer(i) => Eval::Ready(i != 0),
        ValueModel::Float(f) => Eval::NeedsFloat(FloatQuery::IsNonZero(f)),
        ValueModel::Str(s) => Eval::Ready(s.len() != 0),
        ValueModel::Null => Eval::Ready(false),
    }
}

/// Whether an arithmetic operation on two values overflows `i64`.
pub open spec fn arith_overflows(op: ArithOp, a: ValueModel, b: ValueModel) -> bool {
    match (a, b) {
        (ValueModel::Integer(x), ValueModel::Integer(y)) => match op {
            ArithOp::Add => !fits_i64(x + y),
            ArithOp::Sub => !fits_i64(x - y),
            ArithOp::Mul => !fits_i64(x * y),
            ArithOp::Div => y != 0 && !fits_i64(div_toward_zero(x as int, y as int)),
        },
        _ => false,
    }
}

/// The integer result of an arithmetic operation on integers.
pub open spec fn int_arith(op: ArithOp, x: i64, y: i64) -> i64 {
    match op {
        ArithOp::Add => (x + y) as i64,
        ArithOp::Sub => (x - y) as i64,
        ArithOp::Mul => (x * y) as i64,
        ArithOp::Div => div_toward_zero(x as int, y as int) as i64,
    }
}

/// The error of an arithmetic operation on values that it does not apply to.
pub open spec fn arith_type_error(op: ArithOp, a: ValueModel, b: ValueModel) -> ErrorModel {
    match op {
        ArithOp::Add => ErrorModel::CannotAdd(a, b),
        ArithOp::Sub => ErrorModel::CannotSubtract(a, b),
        ArithOp::Mul => ErrorModel::CannotMultiply(a, b),
        ArithOp::Div => ErrorModel::CannotDivide(a, b),
    }
}

/// What `add`, `sub`, `mul` and `div` give for two values.
pub open spec fn spec_arith(op: ArithOp, a: ValueModel, b: ValueModel) -> Result<
    Eval<ValueModel>,
    ErrorModel,
> {
    match (a, b) {
        (ValueModel::Integer(x), ValueModel::Integer(y)) => {
            if op == ArithOp::Div && y == 0 {
                Err(ErrorModel::DivisionByZero)
            } else {
                Ok(Eval::Ready(ValueModel::Integer(int_arith(op, x, y))))
            }
        },
        (ValueModel::Str(x), ValueModel::Str(y)) => {
            if op == ArithOp::Add {
                Ok(Eval::Ready(ValueModel::Str(x + y)))
            } else {
                Err(arith_type_error(op, a, b))
            }
        },
        (ValueModel::Float(_), ValueModel::Integer(0)) => {
            if op == ArithOp::Div {
                Err(ErrorModel::DivisionByZero)
            } else {
                Ok(
                    Eval::NeedsFloat(
                        FloatQuery::Arith(op, float_operand_of(a), float_operand_of(b)),
                    ),
                )
            }
        },
        _ => {
            if is_numeric(a) && is_numeric(b) {
                Ok(
                    Eval::NeedsFloat(
                        FloatQuery::Arith(op, float_operand_of(a), float_operand_of(b)),
                    ),
                )
            } else {
                Err(arith_type_error(op, a, b))
            }
        },
    }
}

/// How `==` on values compares two values: by variant and contents, floats as
/// floats.
pub open spec fn spec_values_equal(a: ValueModel, b: ValueModel) -> Eval<bool> {
    match (a, b) {
        (ValueModel::Float(x), ValueModel::Float(y)) => Eval::NeedsFloat(FloatQuery::Equal(x, y)),
        _ => Eval::Ready(a == b),
    }
}

/// Integer comparison.
pub open spec fn int_compare(op: CmpOp, x: int, y: int) -> bool {
    match op {
        CmpOp::Lt => x < y,
        CmpOp::Le => x <= y,
        CmpOp::Gt => x > y,
        CmpOp::Ge => x >= y,
    }
}

/// How two float operands compare: integers of magnitude at most
/// [`exact_float_bound`] compare as integers; anything else is asked.
pub open spec fn spec_compare(op: CmpOp, a: FloatOperand, b: FloatOperand) -> Eval<bool> {
    match (a, b) {
        (FloatOperand::Int(x), FloatOperand::Int(y)) => {
            if -exact_float_bound() <= x <= exact_float_bound() && -exact_float_bound() <= y
                <= exact_float_bound() {
                Eval::Ready(int_compare(op, x as int, y as int))
            } else {
                Eval::NeedsFloat(FloatQuery::Compare(op, a, b))
            }
        },
        _ => Eval::NeedsFloat(FloatQuery::Compare(op, a, b)),
    }
}

/// Compares two float operands, as [`spec_compare`] says.
pub fn compare_operands(op: CmpOp, a: FloatOperand, b: FloatOperand) -> (r: Eval<bool>)
    ensures
        r == spec_compare(op, a, b),
{
    match (a, b) {
        (FloatOperand::Int(x), FloatOperand::Int(y)) => {
            let bound: i64 = 0x20_0000_0000_0000;
            if -bound <= x && x <= bound && -bound <= y && y <= bound {
                let r = match op {
                    CmpOp::Lt => x < y,
                    CmpOp::Le => x <= y,
                    CmpOp::Gt => x > y,
                    CmpOp::Ge => x >= y,
                };
                Eval::Ready(r)
            } else {
                Eval::NeedsFloat(FloatQuery::Compare(op, a, b))
            }
        },
        _ => Eval::NeedsFloat(FloatQuery::Compare(op, a, b)),
    }
}

/// Builds a string whose chars are those of two strings in turn.
fn concat_strings(a: &String, b: &String) -> (r: String)
    ensures
        r@ == a@ + b@,
{
    let mut r = a.clone();
    r.append(b.as_str());
    r
}

impl Value {
    /// A copy of this value.
    pub fn duplicate(&self) -> (r: Value)
        ensures
            r == *self,
            r@ == self@,
    {
        match self {
            Value::Integer(i) => Value::Integer(*i),
            Value::Float(f) => Value::Float(*f),
            Value::Boolean(b) => Value::Boolean(*b),
            Value::String(s) => Value::String(s.clone()),
            Value::Null => Value::Null,
        }
    }

    /// The float operand of a number.
    pub fn float_operand(&self) -> (r: FloatOperand)
        requires
            is_numeric(self@),
        ensures
            r == float_operand_of(self@),
    {
        match self {
            Value::Float(f) => FloatOperand::Bits(*f),
            Value::Integer(i) => FloatOperand::Int(*i),
            _ => FloatOperand::Int(0),
        }
    }

    /// Converts the value to an integer: an integer is itself, a boolean is
    /// `1` or `0`, a float is truncated (asked as [`FloatQuery::ToInteger`]);
    /// strings and null do not convert.
    pub fn as_integer(&self) -> (r: Result<Eval<i64>, VmError>)
        ensures
            result_model(r) == spec_as_integer(self@),
    {
        match self {
            Value::Integer(i) => Ok(Eval::Ready(*i)),
            Value::Float(f) => Ok(Eval::NeedsFloat(FloatQuery::ToInteger(*f))),
            Value::Boolean(b) => Ok(Eval::Ready(if *b { 1 } else { 0 })),
            _ => Err(VmError::CannotConvertToInteger(self.duplicate())),
        }
    }

    /// Converts the value to a float, given as the operand that stands for
    /// it: a float is its bits, an integer converts as `i as f64` does, a
    /// boolean is `1.0` or `0.0`; strings and null do not convert.
    pub fn as_float(&self) -> (r: Result<FloatOperand, VmError>)
        ensures
            result_model(r) == spec_as_float(self@),
    {
        match self {
            Value::Float(f) => Ok(FloatOperand::Bits(*f)),
            Value::Integer(i) => Ok(FloatOperand::Int(*i)),
            Value::Boolean(b) => Ok(FloatOperand::Int(if *b { 1 } else { 0 })),
            _ => Err(VmError::CannotConvertToFloat(self.duplicate())),
        }
    }

    /// The truthiness of the value: a boolean is itself, a number is true
    /// when it is not zero (for a float, asked as
    /// [`FloatQuery::IsNonZero`]), a string when it is not empty, and null is
    /// false.
    pub fn as_bool(&self) -> (r: Eval<bool>)
        ensures
            r == spec_as_bool(self@),
    {
        match self {
            Value::Boolean(b) => Eval::Ready(*b),
            Value::Integer(i) => Eval::Ready(*i != 0),
            Value::Float(f) => Eval::NeedsFloat(FloatQuery::IsNonZero(*f)),
            Value::String(s) => Eval::Ready(!s.as_str().is_empty()),
            Value::Null => Eval::Ready(false),
        }
    }

    pub(crate) fn arith(&self, op: ArithOp, other: &Value) -> (r: Result<Eval<Value>, VmError>)
        requires
            !arith_overflows(op, self@, other@),
        ensures
            result_model(r) == spec_arith(op, self@, other@),
    {
        match (self, other) {
            (Value::Integer(x), Value::Integer(y)) => {
                let x = *x;
                let y = *y;
                match op {
                    ArithOp::Add => Ok(Eval::Ready(Value::Integer(x + y))),
                    ArithOp::Sub => Ok(Eval::Ready(Value::Integer(x - y))),
                    ArithOp::Mul => Ok(Eval::Ready(Value::Integer(x * y))),
                    ArithOp::Div => {
                        if y == 0 {
                            Err(VmError::DivisionByZero)
                        } else {
                            match x.checked_div(y) {
                                Some(q) => Ok(Eval::Ready(Value::Integer(q))),
                                None => Err(VmError::DivisionByZero),
                            }
                        }
                    },
                }
            },
            (Value::String(x), Value::String(y)) => {
                if op == ArithOp::Add {
                    Ok(Eval::Ready(Value::String(concat_strings(x, y))))
                } else {
                    Err(arith_error(op, self, other))
                }
            },
            (Value::Float(_), Value::Integer(0)) => {
                if op == ArithOp::Div {
                    Err(VmError::DivisionByZero)
                } else {
                    Ok(Eval::NeedsFloat(FloatQuery::Arith(op, self.float_operand(), other.float_operand())))
                }
            },
            _ => {
                if self.is_number() && other.is_number() {
                    Ok(Eval::NeedsFloat(FloatQuery::Arith(op, self.float_operand(), other.float_operand())))
                } else {
                    Err(arith_error(op, self, other))
                }
            },
        }
    }

    fn is_number(&self) -> (r: bool)
        ensures
            r == is_numeric(self@),
    {
        match self {
            Value::Integer(_) | Value::Float(_) => true,
            _ => false,
        }
    }

    /// Adds two values: integers as integers, strings by concatenation, and
    /// any other pair of numbers as floats (asked as [`FloatQuery::Arith`]).
    pub fn add(&self, other: &Value) -> (r: Result<Eval<Value>, VmError>)
        requires
            !arith_overflows(ArithOp::Add, self@, other@),
        ensures
            result_model(r) == spec_arith(ArithOp::Add, self@, other@),
    {
        self.arith(ArithOp::Add, other)
    }

    /// Subtracts two values: integers as integers, any other pair of numbers
    /// as floats.
    pub fn sub(&self, other: &Value) -> (r: Result<Eval<Value>, VmError>)
        requires
            !arith_overflows(ArithOp::Sub, self@, other@),
        ensures
            result_model(r) == spec_arith(ArithOp::Sub, self@, other@),
    {
        self.arith(ArithOp::Sub, other)
    }

    /// Multiplies two values: integers as integers, any other pair of numbers
    /// as floats.
    pub fn mul(&self, other: &Value) -> (r: Result<Eval<Value>, VmError>)
        requires
            !arith_overflows(ArithOp::Mul, self@, other@),
        ensures
            result_model(r) == spec_arith(ArithOp::Mul, self@, other@),
    {
        self.arith(ArithOp::Mul, other)
    }

    /// Divides two values: integers with the quotient rounded toward zero,
    /// any other pair of numbers as floats; a zero integer divisor is a
    /// division by zero, and so is a float zero divisor, which the answer to
    /// the query reports.
    pub fn div(&self, other: &Value) -> (r: Result<Eval<Value>, VmError>)
        requires
            !arith_overflows(ArithOp::Div, self@, other@),
        ensures
            result_model(r) == spec_arith(ArithOp::Div, self@, other@),
    {
        self.arith(ArithOp::Div, other)
    }
}

fn arith_error(op: ArithOp, a: &Value, b: &Value) -> (e: VmError)
    ensures
        e@ == arith_type_error(op, a@, b@),
{
    match op {
        ArithOp::Add => VmError::CannotAdd(a.duplicate(), b.duplicate()),
        ArithOp::Sub => VmError::CannotSubtract(a.duplicate(), b.duplicate()),
        ArithOp::Mul => VmError::CannotMultiply(a.duplicate(), b.duplicate()),
        ArithOp::Div => VmError::CannotDivide(a.duplicate(), b.duplicate()),
    }
}

/// Compares two values as `==` on values does: floats as floats (asked as
/// [`FloatQuery::Equal`]), anything else by variant and contents.
pub fn values_equal(a: &Value, b: &Value) -> (r: Eval<bool>)
    ensures
        r == spec_values_equal(a@, b@),
{
    match (a, b) {
        (Value::Float(x), Value::Float(y)) => Eval::NeedsFloat(FloatQuery::Equal(*x, *y)),
        (Value::Integer(x), Value::Integer(y)) => Eval::Ready(*x == *y),
        (Value::Boolean(x), Value::Boolean(y)) => Eval::Ready(*x == *y),
        (Value::String(x), Value::String(y)) => {
            Eval::Ready(String::eq(x, y))
        },
        (Value::Null, Value::Null) => Eval::Ready(true),
        _ => Eval::Ready(false),
    }
}

} // verus!
