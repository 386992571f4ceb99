//! Runtime values, runtime errors, and the value-level operations of the
//! evaluator: truthiness, equality, arithmetic, ordering and rendering.
//!
//! Numbers are 64-bit signed integers. An arithmetic operation whose result
//! is not representable (overflow, division by zero) degrades to `Nil`, the
//! same way an arithmetic operation on non-numeric operands does.

use vstd::prelude::*;

use crate::ast::Operator;
use crate::ast::Type;

verus! {

/// A runtime value. Values are owned by copy at use sites; there is no
/// sharing.
#[derive(Debug)]
pub enum Value {
    StringLiteral(String),
    NumberLiteral(i64),
    BooleanLiteral(bool),
    Nil,
}

/// Mathematical counterpart of `Value`.
pub enum ValueView {
    StringLiteral(Seq<char>),
    NumberLiteral(int),
    BooleanLiteral(bool),
    Nil,
}

impl View for Value {
    type V = ValueView;

    open spec fn view(&self) -> ValueView {
        match self {
            Value::StringLiteral(s) => ValueView::StringLiteral(s@),
            Value::NumberLiteral(n) => ValueView::NumberLiteral(*n as int),
            Value::BooleanLiteral(b) => ValueView::BooleanLiteral(*b),
            Value::Nil => ValueView::Nil,
        }
    }
}

/// An error that aborts the remainder of an interpretation run.
#[derive(Debug)]
pub enum RuntimeError {
    /// Assignment to, or lookup of, a name with no binding.
    UndeclaredVariable(String),
    /// Assignment of a value whose variant does not match the declared type
    /// of the binding.
    TypeMismatch(String),
    /// An ordering comparison on operands that are not both numbers.
    InvalidComparison,
}

/// Mathematical counterpart of `RuntimeError`.
pub enum ErrorView {
    UndeclaredVariable(Seq<char>),
    TypeMismatch(Seq<char>),
    InvalidComparison,
}

impl View for RuntimeError {
    type V = ErrorView;

    open spec fn view(&self) -> ErrorView {
        match self {
            RuntimeError::UndeclaredVariable(n) => ErrorView::UndeclaredVariable(n@),
            RuntimeError::TypeMismatch(n) => ErrorView::TypeMismatch(n@),
            RuntimeError::InvalidComparison => ErrorView::InvalidComparison,
        }
    }
}

/// Truthiness: a number is truthy iff nonzero, a string iff nonempty, a
/// boolean is itself, and `nil` is always falsy.
pub open spec fn truthy(v: ValueView) -> bool {
    match v {
        ValueView::StringLiteral(s) => s.len() != 0,
        ValueView::NumberLiteral(n) => n != 0,
        ValueView::BooleanLiteral(b) => b,
        ValueView::Nil => false,
    }
}

/// Value equality: by content within one variant; values of different
/// variants are unequal; `nil` equals `nil`.
pub open spec fn vals_equal(a: ValueView, b: ValueView) -> bool {
    match (a, b) {
        (ValueView::StringLiteral(x), ValueView::StringLiteral(y)) => x == y,
        (ValueView::NumberLiteral(x), ValueView::NumberLiteral(y)) => x == y,
        (ValueView::BooleanLiteral(x), ValueView::BooleanLiteral(y)) => x == y,
        (ValueView::Nil, ValueView::Nil) => true,
        _ => false,
    }
}

/// Whether a value's variant matches a declared type. `Nil` matches nothing.
pub open spec fn type_matches(v: ValueView, t: Type) -> bool {
    match (v, t) {
        (ValueView::StringLiteral(_), Type::String) => true,
        (ValueView::NumberLiteral(_), Type::Int) => true,
        (ValueView::BooleanLiteral(_), Type::Boolean) => true,
        _ => false,
    }
}

pub open spec fn fits_i64(n: int) -> bool {
    i64::MIN <= n <= i64::MAX
}

/// The number holding `n` when `n` is representable, `Nil` otherwise.
pub open spec fn num_or_nil(n: int) -> ValueView {
    if fits_i64(n) {
        ValueView::NumberLiteral(n)
    } else {
        ValueView::Nil
    }
}

/// Truncating (round-toward-zero) division, as `/` behaves on machine
/// integers; defined for `b != 0`.
pub open spec fn trunc_div(a: int, b: int) -> int {
    let q = abs_int(a) / abs_int(b);
    if (a < 0) <==> (b < 0) {
        q
    } else {
        -q
    }
}

/// The remainder matching `trunc_div`: it takes the sign of the dividend;
/// defined for `b != 0`.
pub open spec fn trunc_rem(a: int, b: int) -> int {
    let r = abs_int(a) % abs_int(b);
    if a < 0 {
        -r
    } else {
        r
    }
}

pub open spec fn abs_int(n: int) -> int {
    if n < 0 {
        -n
    } else {
        n
    }
}

/// Checked integer power: `base` multiplied into an accumulator `exp` times,
/// `None` as soon as a partial product leaves the representable range.
pub open spec fn pow_value(base: int, exp: int) -> Option<int>
    decreases exp,
{
    if exp <= 0 {
        Some(1)
    } else {
        match pow_value(base, exp - 1) {
            Some(p) => if fits_i64(p * base) {
                Some(p * base)
            } else {
                None
            },
            None => None,
        }
    }
}

/// The result of an arithmetic operator. Defined only over number pairs;
/// any other operand combination, and any result that is not representable,
/// yields `Nil` rather than failing.
pub open spec fn arith_value(op: Operator, a: ValueView, b: ValueView) -> ValueView {
    match (a, b) {
        (ValueView::NumberLiteral(x), ValueView::NumberLiteral(y)) => match op {
            Operator::Plus => num_or_nil(x + y),
            Operator::Minus => num_or_nil(x - y),
            Operator::Star => num_or_nil(x * y),
            Operator::Slash => if y == 0 {
                ValueView::Nil
            } else {
                num_or_nil(trunc_div(x, y))
            },
            Operator::Percent => if y == 0 || (x == i64::MIN && y == -1) {
                ValueView::Nil
            } else {
                num_or_nil(trunc_rem(x, y))
            },
            Operator::Pow => if y < 0 {
                ValueView::Nil
            } else {
                match pow_value(x, y) {
                    Some(p) => ValueView::NumberLiteral(p),
                    None => ValueView::Nil,
                }
            },
            _ => ValueView::Nil,
        },
        _ => ValueView::Nil,
    }
}

/// The result of a comparison operator. Equality is defined on every pair of
/// values; ordering is defined only on number pairs and is otherwise an
/// error.
pub open spec fn compare_value(op: Operator, a: ValueView, b: ValueView) -> Result<
    ValueView,
    ErrorView,
> {
    match op {
        Operator::EqualEqual => Ok(ValueView::BooleanLiteral(vals_equal(a, b))),
        Operator::NotEqual => Ok(ValueView::BooleanLiteral(!vals_equal(a, b))),
        _ => match (a, b) {
            (ValueView::NumberLiteral(x), ValueView::NumberLiteral(y)) => Ok(
                ValueView::BooleanLiteral(
                    match op {
                        Operator::LessThan => x < y,
                        Operator::LessThanEqual => x <= y,
                        Operator::GreaterThan => x > y,
                        Operator::GreaterThanEqual => x >= y,
                        _ => false,
                    },
                ),
            ),
            _ => Err(ErrorView::InvalidComparison),
        },
    }
}

impl Value {
    /// Coerce this value to a boolean, as conditionals and logical operators
    /// do.
    pub fn is_truthy(&self) -> (b: bool)
        ensures
            b == truthy(self@),
    {
        match self {
            Value::NumberLiteral(n) => *n != 0,
            Value::StringLiteral(s) => s.as_str().unicode_len() != 0,
            Value::BooleanLiteral(b) => *b,
            Value::Nil => false,
        }
    }

    /// Floating `**` in spirit: the power operator over number values;
    /// non-numeric operands or a result out of range yield `Nil`.
    pub fn pow(&self, other: &Value) -> (r: Value)
        ensures
            r@ == arith_value(Operator::Pow, self@, other@),
    {
        apply_arithmetic(Operator::Pow, self, other)
    }
}

impl Clone for Value {
    /// A clone is equal to the original, including string contents.
    fn clone(&self) -> (r: Value)
        ensures
            r@ == self@,
    {
        match self {
            Value::StringLiteral(s) => Value::StringLiteral(s.clone()),
            Value::NumberLiteral(n) => Value::NumberLiteral(*n),
            Value::BooleanLiteral(b) => Value::BooleanLiteral(*b),
            Value::Nil => Value::Nil,
        }
    }
}

impl PartialEq for Value {
    /// Value equality: content within one variant, `nil == nil`,
    /// cross-variant unequal.
    fn eq(&self, other: &Self) -> (r: bool) {
        match (self, other) {
            (Value::StringLiteral(x), Value::StringLiteral(y)) => x.eq(y),
            (Value::NumberLiteral(x), Value::NumberLiteral(y)) => *x == *y,
            (Value::BooleanLiteral(x), Value::BooleanLiteral(y)) => *x == *y,
            (Value::Nil, Value::Nil) => true,
            _ => false,
        }
    }
}

impl vstd::std_specs::cmp::PartialEqSpecImpl for Value {
    open spec fn obeys_eq_spec() -> bool {
        true
    }

    open spec fn eq_spec(&self, other: &Value) -> bool {
        vals_equal(self@, other@)
    }
}

/// The result of an arithmetic operator on two values: a number when both
/// operands are numbers and the result is representable, `Nil` otherwise.
pub fn apply_arithmetic(op: Operator, left: &Value, right: &Value) -> (r: Value)
    ensures
        r@ == arith_value(op, left@, right@),
{
    match (left, right) {
        (Value::NumberLiteral(x), Value::NumberLiteral(y)) => {
            let xv = *x;
            let yv = *y;
            match op {
                Operator::Plus => opt_to_value(xv.checked_add(yv)),
                Operator::Minus => opt_to_value(xv.checked_sub(yv)),
                Operator::Star => opt_to_value(xv.checked_mul(yv)),
                Operator::Slash => {
                    if yv == 0 {
                        Value::Nil
                    } else {
                        opt_to_value(xv.checked_div(yv))
                    }
                },
                Operator::Percent => {
                    if yv == 0 || (xv == i64::MIN && yv == -1) {
                        Value::Nil
                    } else {
                        opt_to_value(xv.checked_rem(yv))
                    }
                },
                Operator::Pow => {
                    if yv < 0 {
                        Value::Nil
                    } else {
                        opt_to_value(pow_i64(xv, yv))
                    }
                },
                _ => Value::Nil,
            }
        },
        _ => Value::Nil,
    }
}

/// The result of a comparison operator on two values.
pub fn apply_comparison(op: Operator, left: &Value, right: &Value) -> (r: Result<
    Value,
    RuntimeError,
>)
    ensures
        match r {
            Ok(v) => compare_value(op, left@, right@) == Ok::<ValueView, ErrorView>(v@),
            Err(e) => compare_value(op, left@, right@) == Err::<ValueView, ErrorView>(e@),
        },
{
    match op {
        Operator::EqualEqual => Ok(Value::BooleanLiteral(left == right)),
        Operator::NotEqual => Ok(Value::BooleanLiteral(!(left == right))),
        _ => match (left, right) {
            (Value::NumberLiteral(x), Value::NumberLiteral(y)) => Ok(
                Value::BooleanLiteral(
                    match op {
                        Operator::LessThan => *x < *y,
                        Operator::LessThanEqual => *x <= *y,
                        Operator::GreaterThan => *x > *y,
                        Operator::GreaterThanEqual => *x >= *y,
                        _ => false,
                    },
                ),
            ),
            _ => Err(RuntimeError::InvalidComparison),
        },
    }
}

fn opt_to_value(o: Option<i64>) -> (r: Value)
    ensures
        r@ == match o {
            Some(n) => ValueView::NumberLiteral(n as int),
            None => ValueView::Nil,
        },
{
    match o {
        Some(n) => Value::NumberLiteral(n),
        None => Value::Nil,
    }
}

/// Arithmetic identity: adding the numbers `a` and `b` yields the number
/// holding `a + b`, for every pair whose sum is representable.
pub proof fn lemma_arithmetic_identity(a: int, b: int)
    requires
        fits_i64(a + b),
    ensures
        arith_value(
            Operator::Plus,
            ValueView::NumberLiteral(a),
            ValueView::NumberLiteral(b),
        ) == ValueView::NumberLiteral(a + b),
{
}

/// Truthiness: zero, the empty string, `false` and `nil` are falsy; every
/// other number (negative ones included), every nonempty string and `true`
/// are truthy.
pub proof fn lemma_truthiness(n: int, s: Seq<char>, b: bool)
    ensures
        truthy(ValueView::NumberLiteral(n)) <==> n != 0,
        truthy(ValueView::StringLiteral(s)) <==> s.len() != 0,
        truthy(ValueView::BooleanLiteral(b)) <==> b,
        !truthy(ValueView::Nil),
{
}

/// Once a partial product leaves the representable range, the whole power
/// does.
proof fn lemma_pow_none_persists(base: int, e1: int, e2: int)
    requires
        0 <= e1 <= e2,
        pow_value(base, e1) is None,
    ensures
        pow_value(base, e2) is None,
    decreases e2,
{
    if e2 > e1 {
        lemma_pow_none_persists(base, e1, e2 - 1);
    }
}

proof fn lemma_pow_zero(e: int)
    requires
        e > 0,
    ensures
        pow_value(0, e) == Some(0int),
    decreases e,
{
    if e > 1 {
        lemma_pow_zero(e - 1);
    } else {
        assert(pow_value(0, 0) == Some(1int));
    }
}

proof fn lemma_pow_one(e: int)
    requires
        e >= 0,
    ensures
        pow_value(1, e) == Some(1int),
    decreases e,
{
    if e > 0 {
        lemma_pow_one(e - 1);
    }
}

proof fn lemma_pow_neg_one(e: int)
    requires
        e >= 0,
    ensures
        pow_value(-1, e) == Some(if e % 2 == 0 { 1int } else { -1int }),
    decreases e,
{
    if e > 0 {
        lemma_pow_neg_one(e - 1);
    }
}

/// The decimal digit character for `d` in `0 ..= 9`.
pub open spec fn digit_char(d: int) -> char {
    if d == 0 {
        '0'
    } else if d == 1 {
        '1'
    } else if d == 2 {
        '2'
    } else if d == 3 {
        '3'
    } else if d == 4 {
        '4'
    } else if d == 5 {
        '5'
    } else if d == 6 {
        '6'
    } else if d == 7 {
        '7'
    } else if d == 8 {
        '8'
    } else {
        '9'
    }
}

/// The decimal digits of a nonnegative integer, most significant first,
/// without leading zeros (a single `'0'` for zero).
pub open spec fn dec_digits(n: int) -> Seq<char>
    decreases n,
{
    if n < 10 {
        seq![digit_char(n)]
    } else {
        dec_digits(n / 10).push(digit_char(n % 10))
    }
}

/// The decimal rendering of an integer: a leading `'-'` for negatives.
pub open spec fn dec_str(n: int) -> Seq<char> {
    if n < 0 {
        seq!['-'] + dec_digits(-n)
    } else {
        dec_digits(n)
    }
}

/// The default textual form of a value: a string as itself, a number in
/// decimal, a boolean as `true`/`false`, and `nil` as the text `nil`.
pub open spec fn render_view(v: ValueView) -> Seq<char> {
    match v {
        ValueView::StringLiteral(s) => s,
        ValueView::NumberLiteral(n) => dec_str(n),
        ValueView::BooleanLiteral(b) => if b {
            seq!['t', 'r', 'u', 'e']
        } else {
            seq!['f', 'a', 'l', 's', 'e']
        },
        ValueView::Nil => seq!['n', 'i', 'l'],
    }
}

fn digit_str(d: u64) -> (r: &'static str)
    requires
        d < 10,
    ensures
        r@ == seq![digit_char(d as int)],
{
    proof {
        reveal_strlit("0");
        reveal_strlit("1");
        reveal_strlit("2");
        reveal_strlit("3");
        reveal_strlit("4");
        reveal_strlit("5");
        reveal_strlit("6");
        reveal_strlit("7");
        reveal_strlit("8");
        reveal_strlit("9");
    }
    let r: &'static str = if d == 0 {
        "0"
    } else if d == 1 {
        "1"
    } else if d == 2 {
        "2"
    } else if d == 3 {
        "3"
    } else if d == 4 {
        "4"
    } else if d == 5 {
        "5"
    } else if d == 6 {
        "6"
    } else if d == 7 {
        "7"
    } else if d == 8 {
        "8"
    } else {
        "9"
    };
    proof {
        assert(r@ =~= seq![digit_char(d as int)]);
    }
    r
}

fn render_u64(n: u64) -> (s: String)
    ensures
        s@ == dec_digits(n as int),
    decreases n,
{
    if n < 10 {
        let s = String::from_str(digit_str(n));
        proof {
            assert(s@ =~= seq![digit_char(n as int)]);
        }
        s
    } else {
        let mut s = render_u64(n / 10);
        s.append(digit_str(n % 10));
        proof {
            assert(s@ =~= dec_digits(n as int / 10).push(digit_char(n as int % 10)));
        }
        s
    }
}

impl Value {
    /// Render this value to its default textual form.
    pub fn render(&self) -> (s: String)
        ensures
            s@ == render_view(self@),
    {
        match self {
            Value::StringLiteral(s) => s.clone(),
            Value::NumberLiteral(n) => {
                let nv = *n;
                if nv >= 0 {
                    render_u64(nv as u64)
                } else {
                    let m: u64 = ((nv as i128) * -1) as u64;
                    let mut s = String::from_str("-");
                    let digits = render_u64(m);
                    s.append(digits.as_str());
                    proof {
                        reveal_strlit("-");
                        assert(s@ =~= seq!['-'] + dec_digits(-(nv as int)));
                    }
                    s
                }
            },
            Value::BooleanLiteral(b) => {
                if *b {
                    let s = String::from_str("true");
                    proof {
                        reveal_strlit("true");
                        assert(s@ =~= seq!['t', 'r', 'u', 'e']);
                    }
                    s
                } else {
                    let s = String::from_str("false");
                    proof {
                        reveal_strlit("false");
                        assert(s@ =~= seq!['f', 'a', 'l', 's', 'e']);
                    }
                    s
                }
            },
            Value::Nil => {
                let s = String::from_str("nil");
                proof {
                    reveal_strlit("nil");
                    assert(s@ =~= seq!['n', 'i', 'l']);
                }
                s
            },
        }
    }
}

/// Checked power over machine integers: `Some` exactly when every partial
/// product is representable.
fn pow_i64(base: i64, exp: i64) -> (r: Option<i64>)
    requires
        exp >= 0,
    ensures
        pow_value(base as int, exp as int) == match r {
            Some(p) => Some(p as int),
            None => None::<int>,
        },
{
    if base == 0 {
        if exp == 0 {
            Some(1)
        } else {
            proof { lemma_pow_zero(exp as int); }
            Some(0)
        }
    } else if base == 1 {
        proof { lemma_pow_one(exp as int); }
        Some(1)
    } else if base == -1 {
        proof { lemma_pow_neg_one(exp as int); }
        if exp % 2 == 0 {
            Some(1)
        } else {
            Some(-1)
        }
    } else {
        let mut acc: i64 = 1;
        let mut i: i64 = 0;
        while i < exp
            invariant
                0 <= i <= exp,
                pow_value(base as int, i as int) == Some(acc as int),
            decreases exp - i,
        {
            match acc.checked_mul(base) {
                Some(v) => {
                    acc = v;
                },
                None => {
                    proof { lemma_pow_none_persists(base as int, i as int + 1, exp as int); }
                    return None;
                },
            }
            i = i + 1;
        }
        Some(acc)
    }
}

} // verus!
