//! The operators on values.

use vstd::prelude::*;
use vstd::wrapping::i64_specs;
use crate::ast::{BinaryOperator, UnaryOperator};
use crate::errors::{RuntimeError, ErrSpec};
use crate::heap::{HeapObject, display, display_box, DISPLAY_DEPTH};
use crate::text::{repeat_text, repeat_string, text_less, string_less};
use crate::value::{NyashBox, BoxSpec, box_type_name_spec};

verus! {

/// Division rounding toward zero, as Rust divides integers.
pub open spec fn trunc_div(a: int, b: int) -> int {
    let q = (if a < 0 { -a } else { a }) / (if b < 0 { -b } else { b });
    if (a < 0) != (b < 0) { -q } else { q }
}

/// The remainder that goes with `trunc_div`; it has the sign of `a`.
pub open spec fn trunc_rem(a: int, b: int) -> int {
    a - b * trunc_div(a, b)
}

/// Integer division rounding toward zero, as Rust's `/` on `i64`.
pub fn div_i64(a: i64, b: i64) -> (r: i64)
    requires
        b != 0,
        !(a == i64::MIN && b == -1),
    ensures
        r == trunc_div(a as int, b as int),
{
    if b > 0 {
        let r = a / b;
        assert(a >= 0 ==> r == a as int / b as int);
        assert(a < 0 ==> r == -((-a) as int / b as int));
        r
    } else if b == i64::MIN {
        if a != i64::MIN {
            assert((if a < 0 { -(a as int) } else { a as int }) / (-(b as int)) == 0) by (nonlinear_arith)
                requires b == i64::MIN, a > i64::MIN, a <= i64::MAX;
        }
        if a == i64::MIN { 1 } else { 0 }
    } else {
        let nb: i64 = -b;
        let q = a / nb;
        assert(a >= 0 ==> q == a as int / nb as int);
        assert(a < 0 ==> q == -((-a) as int / nb as int));
        if a < 0 {
            assert(q > i64::MIN) by (nonlinear_arith)
                requires nb >= 1, a < 0, a >= i64::MIN, q == -((-a) as int / nb as int), !(a == i64::MIN && nb == 1);
        }
        -q
    }
}

proof fn lemma_trunc_bounds(a: int, b: int)
    requires
        b != 0,
    ensures
        0 <= (if b * trunc_div(a, b) < 0 { -(b * trunc_div(a, b)) } else { b * trunc_div(a, b) })
            <= (if a < 0 { -a } else { a }),
        (a >= 0 ==> b * trunc_div(a, b) >= 0) && (a < 0 ==> b * trunc_div(a, b) <= 0),
{
    let aa = if a < 0 { -a } else { a };
    let bb = if b < 0 { -b } else { b };
    let q = aa / bb;
    assert(0 <= bb * q <= aa) by (nonlinear_arith)
        requires aa >= 0, bb > 0, q == aa / bb;
    if (a < 0) != (b < 0) {
        assert(trunc_div(a, b) == -q);
        assert(b * (-q) == -(b * q)) by (nonlinear_arith);
        if a < 0 {
            assert(b * q == bb * q);
        } else {
            assert(b * q == -(bb * q)) by (nonlinear_arith) requires b == -bb;
        }
    } else {
        assert(trunc_div(a, b) == q);
        if a < 0 {
            assert(b * q == -(bb * q)) by (nonlinear_arith) requires b == -bb;
        } else {
            assert(b * q == bb * q);
        }
    }
}

/// The remainder of `div_i64`, as Rust's `%` on `i64`: it has the sign of `a`.
pub fn rem_i64(a: i64, b: i64) -> (r: i64)
    requires
        b != 0,
        !(a == i64::MIN && b == -1),
    ensures
        r == trunc_rem(a as int, b as int),
{
    let q = div_i64(a, b);
    proof { lemma_trunc_bounds(a as int, b as int); }
    let bq = b * q;
    a - bq
}


/// What a computation that may fail gives back.
pub open spec fn outcome(r: Result<NyashBox, RuntimeError>) -> Result<BoxSpec, ErrSpec> {
    match r {
        Ok(v) => Ok(v@),
        Err(e) => Err(e@),
    }
}

/// Whether a value counts as true: false, 0, "" and void do not.
pub open spec fn truthy(v: BoxSpec) -> bool {
    match v {
        BoxSpec::BoolBox(b) => b,
        BoxSpec::IntegerBox(i) => i != 0,
        BoxSpec::StringBox(s) => s.len() > 0,
        BoxSpec::VoidBox => false,
        _ => true,
    }
}

/// Whether a value counts as true: false, 0, "" and void do not.
pub fn is_truthy(value: &NyashBox) -> (b: bool)
    ensures
        b == truthy(value@),
{
    match value {
        NyashBox::BoolBox(b) => *b,
        NyashBox::IntegerBox(i) => *i != 0,
        NyashBox::StringBox(s) => !s.as_str().is_empty(),
        NyashBox::VoidBox => false,
        _ => true,
    }
}

pub open spec fn bool_int(b: bool) -> i64 {
    if b { 1 } else { 0 }
}

/// How a value reads in operators and messages.
pub open spec fn text_spec(heap: Seq<HeapObject>, v: BoxSpec) -> Seq<char> {
    display(heap, v, DISPLAY_DEPTH as nat)
}

/// Addition on the types that have it directly: integers, a string and
/// anything (concatenation), and two booleans (counted as 0 and 1).
pub open spec fn try_add_spec(heap: Seq<HeapObject>, l: BoxSpec, r: BoxSpec) -> Option<BoxSpec> {
    match (l, r) {
        (BoxSpec::IntegerBox(a), BoxSpec::IntegerBox(b)) => Some(BoxSpec::IntegerBox(i64_specs::wrapping_add(a, b))),
        (BoxSpec::StringBox(a), _) => Some(BoxSpec::StringBox(a + text_spec(heap, r))),
        (BoxSpec::BoolBox(a), BoxSpec::BoolBox(b)) => Some(BoxSpec::IntegerBox((bool_int(a) + bool_int(b)) as i64)),
        _ => None,
    }
}

/// Addition on the types that have it directly.
pub fn try_add_operation(heap: &Vec<HeapObject>, left: &NyashBox, right: &NyashBox) -> (r: Option<NyashBox>)
    ensures
        match r {
            Some(v) => try_add_spec(heap@, left@, right@) == Some(v@),
            None => try_add_spec(heap@, left@, right@) is None,
        },
{
    match (left, right) {
        (NyashBox::IntegerBox(a), NyashBox::IntegerBox(b)) => Some(NyashBox::IntegerBox(a.wrapping_add(*b))),
        (NyashBox::StringBox(a), _) => {
            let mut t = a.clone();
            let rt = display_box(heap, right, DISPLAY_DEPTH);
            t.append(rt.as_str());
            Some(NyashBox::StringBox(t))
        },
        (NyashBox::BoolBox(a), NyashBox::BoolBox(b)) => {
            let x: i64 = if *a { 1 } else { 0 };
            let y: i64 = if *b { 1 } else { 0 };
            Some(NyashBox::IntegerBox(x + y))
        },
        _ => None,
    }
}

/// Subtraction: integers only.
pub open spec fn try_sub_spec(l: BoxSpec, r: BoxSpec) -> Option<BoxSpec> {
    match (l, r) {
        (BoxSpec::IntegerBox(a), BoxSpec::IntegerBox(b)) => Some(BoxSpec::IntegerBox(i64_specs::wrapping_sub(a, b))),
        _ => None,
    }
}

/// Subtraction: integers only.
pub fn try_sub_operation(left: &NyashBox, right: &NyashBox) -> (r: Option<NyashBox>)
    ensures
        match r {
            Some(v) => try_sub_spec(left@, right@) == Some(v@),
            None => try_sub_spec(left@, right@) is None,
        },
{
    match (left, right) {
        (NyashBox::IntegerBox(a), NyashBox::IntegerBox(b)) => Some(NyashBox::IntegerBox(a.wrapping_sub(*b))),
        _ => None,
    }
}

/// Multiplication: integers, and a string times a count (repetition).
pub open spec fn try_mul_spec(l: BoxSpec, r: BoxSpec) -> Option<BoxSpec> {
    match (l, r) {
        (BoxSpec::IntegerBox(a), BoxSpec::IntegerBox(b)) => Some(BoxSpec::IntegerBox(i64_specs::wrapping_mul(a, b))),
        (BoxSpec::StringBox(s), BoxSpec::IntegerBox(n)) => Some(BoxSpec::StringBox(repeat_text(s, n as nat))),
        _ => None,
    }
}

/// Multiplication: integers, and a string times a count (repetition). The
/// count must not be negative.
pub fn try_mul_operation(left: &NyashBox, right: &NyashBox) -> (r: Option<NyashBox>)
    requires
        left@ is StringBox && right@ is IntegerBox ==> right@->IntegerBox_0 >= 0,
    ensures
        match r {
            Some(v) => try_mul_spec(left@, right@) == Some(v@),
            None => try_mul_spec(left@, right@) is None,
        },
{
    match (left, right) {
        (NyashBox::IntegerBox(a), NyashBox::IntegerBox(b)) => Some(NyashBox::IntegerBox(a.wrapping_mul(*b))),
        (NyashBox::StringBox(s), NyashBox::IntegerBox(n)) => Some(NyashBox::StringBox(repeat_string(s, *n as u64))),
        _ => None,
    }
}

/// "<word> not supported between <left type> and <right type>".
pub open spec fn unsupported_text(word: Seq<char>, l: BoxSpec, r: BoxSpec) -> Seq<char> {
    word + " not supported between "@ + box_type_name_spec(l) + " and "@ + box_type_name_spec(r)
}

fn unsupported_message(word: &str, left: &NyashBox, right: &NyashBox) -> (m: String)
    ensures
        m@ == unsupported_text(word@, left@, right@),
{
    let mut m = String::from_str(word);
    m.append(" not supported between ");
    m.append(left.box_type_name().as_str());
    m.append(" and ");
    m.append(right.box_type_name().as_str());
    m
}

/// Division of integers, rounding toward zero. The one overflowing case,
/// the least integer divided by -1, is left out.
pub open spec fn div_spec(l: BoxSpec, r: BoxSpec) -> Result<BoxSpec, Seq<char>> {
    match (l, r) {
        (BoxSpec::IntegerBox(a), BoxSpec::IntegerBox(b)) => if b == 0 {
            Err("Division by zero"@)
        } else {
            Ok(BoxSpec::IntegerBox(trunc_div(a as int, b as int) as i64))
        },
        _ => Err(unsupported_text("Division"@, l, r)),
    }
}

/// Division of integers, rounding toward zero.
pub fn try_div_operation(left: &NyashBox, right: &NyashBox) -> (r: Result<NyashBox, String>)
    requires
        !(left@ == BoxSpec::IntegerBox(i64::MIN) && right@ == BoxSpec::IntegerBox(-1i64)),
    ensures
        match r {
            Ok(v) => div_spec(left@, right@) == Ok::<BoxSpec, Seq<char>>(v@),
            Err(m) => div_spec(left@, right@) == Err::<BoxSpec, Seq<char>>(m@),
        },
{
    match (left, right) {
        (NyashBox::IntegerBox(a), NyashBox::IntegerBox(b)) => {
            if *b == 0 {
                Err(String::from_str("Division by zero"))
            } else {
                Ok(NyashBox::IntegerBox(div_i64(*a, *b)))
            }
        },
        _ => Err(unsupported_message("Division", left, right)),
    }
}

/// The remainder of integer division; it has the sign of the dividend.
pub open spec fn mod_spec(l: BoxSpec, r: BoxSpec) -> Result<BoxSpec, Seq<char>> {
    match (l, r) {
        (BoxSpec::IntegerBox(a), BoxSpec::IntegerBox(b)) => if b == 0 {
            Err("Modulo by zero"@)
        } else {
            Ok(BoxSpec::IntegerBox(trunc_rem(a as int, b as int) as i64))
        },
        _ => Err(unsupported_text("Modulo"@, l, r)),
    }
}

/// The remainder of integer division.
pub fn try_mod_operation(left: &NyashBox, right: &NyashBox) -> (r: Result<NyashBox, String>)
    requires
        !(left@ == BoxSpec::IntegerBox(i64::MIN) && right@ == BoxSpec::IntegerBox(-1i64)),
    ensures
        match r {
            Ok(v) => mod_spec(left@, right@) == Ok::<BoxSpec, Seq<char>>(v@),
            Err(m) => mod_spec(left@, right@) == Err::<BoxSpec, Seq<char>>(m@),
        },
{
    match (left, right) {
        (NyashBox::IntegerBox(a), NyashBox::IntegerBox(b)) => {
            if *b == 0 {
                Err(String::from_str("Modulo by zero"))
            } else {
                Ok(NyashBox::IntegerBox(rem_i64(*a, *b)))
            }
        },
        _ => Err(unsupported_message("Modulo", left, right)),
    }
}

/// Equality: two integers, two strings or two booleans with the same value,
/// and two nulls, are equal; anything else is not.
pub open spec fn values_equal(l: BoxSpec, r: BoxSpec) -> bool {
    match (l, r) {
        (BoxSpec::IntegerBox(a), BoxSpec::IntegerBox(b)) => a == b,
        (BoxSpec::StringBox(a), BoxSpec::StringBox(b)) => a == b,
        (BoxSpec::BoolBox(a), BoxSpec::BoolBox(b)) => a == b,
        (BoxSpec::NullBox, BoxSpec::NullBox) => true,
        _ => false,
    }
}

/// Whether two values are equal.
pub fn compare_values(left: &NyashBox, right: &NyashBox) -> (b: bool)
    ensures
        b == values_equal(left@, right@),
{
    match (left, right) {
        (NyashBox::IntegerBox(a), NyashBox::IntegerBox(b)) => *a == *b,
        (NyashBox::StringBox(a), NyashBox::StringBox(b)) => *a == *b,
        (NyashBox::BoolBox(a), NyashBox::BoolBox(b)) => *a == *b,
        (NyashBox::NullBox, NyashBox::NullBox) => true,
        _ => false,
    }
}

/// "Cannot compare <left type> and <right type>".
pub open spec fn compare_error_text(l: BoxSpec, r: BoxSpec) -> Seq<char> {
    "Cannot compare "@ + box_type_name_spec(l) + " and "@ + box_type_name_spec(r)
}

/// `l < r`: integers by value and strings by their characters; no other
/// types are ordered.
pub open spec fn less_spec(l: BoxSpec, r: BoxSpec) -> Option<bool> {
    match (l, r) {
        (BoxSpec::IntegerBox(a), BoxSpec::IntegerBox(b)) => Some(a < b),
        (BoxSpec::StringBox(a), BoxSpec::StringBox(b)) => Some(text_less(a, b)),
        _ => None,
    }
}

/// Whether `left < right`.
pub fn less_than_values(left: &NyashBox, right: &NyashBox) -> (r: Result<bool, RuntimeError>)
    ensures
        match r {
            Ok(b) => less_spec(left@, right@) == Some(b),
            Err(e) => less_spec(left@, right@) is None && e@ == ErrSpec::InvalidOperation(
                compare_error_text(left@, right@),
            ),
        },
{
    match (left, right) {
        (NyashBox::IntegerBox(a), NyashBox::IntegerBox(b)) => Ok(*a < *b),
        (NyashBox::StringBox(a), NyashBox::StringBox(b)) => Ok(string_less(a, b)),
        _ => {
            let mut m = String::from_str("Cannot compare ");
            m.append(left.box_type_name().as_str());
            m.append(" and ");
            m.append(right.box_type_name().as_str());
            Err(RuntimeError::InvalidOperation { message: m })
        },
    }
}


/// The shift distance that a shift uses: the low six bits of the count.
pub open spec fn shift_amount(n: i64) -> u32 {
    (n as u32) & 63u32
}

/// "<what> requires integers (got <left type> and <right type>)".
pub open spec fn integers_text(what: Seq<char>, l: BoxSpec, r: BoxSpec) -> Seq<char> {
    what + " requires integers (got "@ + box_type_name_spec(l) + " and "@ + box_type_name_spec(r) + ")"@
}

/// The message for a string repeated a negative number of times.
pub open spec fn negative_repeat_text() -> Seq<char> {
    "Cannot repeat a string a negative number of times"@
}

/// What a binary operator gives on two evaluated operands.
pub open spec fn binary_op_spec(heap: Seq<HeapObject>, op: BinaryOperator, l: BoxSpec, r: BoxSpec) -> Result<BoxSpec, ErrSpec> {
    match op {
        BinaryOperator::Add => match try_add_spec(heap, l, r) {
            Some(v) => Ok(v),
            None => match r {
                BoxSpec::StringBox(b) => Ok(BoxSpec::StringBox(text_spec(heap, l) + b)),
                _ => Err(ErrSpec::InvalidOperation(unsupported_text("Addition"@, l, r))),
            },
        },
        BinaryOperator::Subtract => match try_sub_spec(l, r) {
            Some(v) => Ok(v),
            None => Err(ErrSpec::InvalidOperation(unsupported_text("Subtraction"@, l, r))),
        },
        BinaryOperator::Multiply => if l is StringBox && r is IntegerBox && r->IntegerBox_0 < 0 {
            Err(ErrSpec::InvalidOperation(negative_repeat_text()))
        } else {
            match try_mul_spec(l, r) {
                Some(v) => Ok(v),
                None => Err(ErrSpec::InvalidOperation(unsupported_text("Multiplication"@, l, r))),
            }
        },
        BinaryOperator::Divide => if l == BoxSpec::IntegerBox(i64::MIN) && r == BoxSpec::IntegerBox(-1i64) {
            Err(ErrSpec::InvalidOperation("attempt to divide with overflow"@))
        } else {
            match div_spec(l, r) {
                Ok(v) => Ok(v),
                Err(m) => Err(ErrSpec::InvalidOperation(m)),
            }
        },
        BinaryOperator::Modulo => if l == BoxSpec::IntegerBox(i64::MIN) && r == BoxSpec::IntegerBox(-1i64) {
            Err(ErrSpec::InvalidOperation("attempt to calculate the remainder with overflow"@))
        } else {
            match mod_spec(l, r) {
                Ok(v) => Ok(v),
                Err(m) => Err(ErrSpec::InvalidOperation(m)),
            }
        },
        BinaryOperator::Equal => Ok(BoxSpec::BoolBox(values_equal(l, r))),
        BinaryOperator::NotEqual => Ok(BoxSpec::BoolBox(!values_equal(l, r))),
        BinaryOperator::Less => match less_spec(l, r) {
            Some(b) => Ok(BoxSpec::BoolBox(b)),
            None => Err(ErrSpec::InvalidOperation(compare_error_text(l, r))),
        },
        BinaryOperator::Greater => match less_spec(l, r) {
            Some(b) => Ok(BoxSpec::BoolBox(!b && !values_equal(l, r))),
            None => Err(ErrSpec::InvalidOperation(compare_error_text(l, r))),
        },
        BinaryOperator::LessEqual => match less_spec(l, r) {
            Some(b) => Ok(BoxSpec::BoolBox(b || values_equal(l, r))),
            None => Err(ErrSpec::InvalidOperation(compare_error_text(l, r))),
        },
        BinaryOperator::GreaterEqual => match less_spec(l, r) {
            Some(b) => Ok(BoxSpec::BoolBox(!b)),
            None => Err(ErrSpec::InvalidOperation(compare_error_text(l, r))),
        },
        BinaryOperator::And => Ok(BoxSpec::BoolBox(truthy(l) && truthy(r))),
        BinaryOperator::Or => Ok(BoxSpec::BoolBox(truthy(l) || truthy(r))),
        BinaryOperator::Shl => match (l, r) {
            (BoxSpec::IntegerBox(a), BoxSpec::IntegerBox(b)) => Ok(BoxSpec::IntegerBox(i64_specs::wrapping_shl(a, shift_amount(b)))),
            _ => Err(ErrSpec::TypeError(integers_text("Shift-left '<<'"@, l, r))),
        },
        BinaryOperator::Shr => match (l, r) {
            (BoxSpec::IntegerBox(a), BoxSpec::IntegerBox(b)) => Ok(BoxSpec::IntegerBox(((a as u64) >> shift_amount(b)) as i64)),
            _ => Err(ErrSpec::TypeError(integers_text("Shift-right '>>'"@, l, r))),
        },
        BinaryOperator::BitAnd => match (l, r) {
            (BoxSpec::IntegerBox(a), BoxSpec::IntegerBox(b)) => Ok(BoxSpec::IntegerBox(a & b)),
            _ => Err(ErrSpec::TypeError(integers_text("Bitwise '&'"@, l, r))),
        },
        BinaryOperator::BitOr => match (l, r) {
            (BoxSpec::IntegerBox(a), BoxSpec::IntegerBox(b)) => Ok(BoxSpec::IntegerBox(a | b)),
            _ => Err(ErrSpec::TypeError(integers_text("Bitwise '|'"@, l, r))),
        },
        BinaryOperator::BitXor => match (l, r) {
            (BoxSpec::IntegerBox(a), BoxSpec::IntegerBox(b)) => Ok(BoxSpec::IntegerBox(a ^ b)),
            _ => Err(ErrSpec::TypeError(integers_text("Bitwise '^'"@, l, r))),
        },
    }
}

fn integers_message(what: &str, left: &NyashBox, right: &NyashBox) -> (m: String)
    ensures
        m@ == integers_text(what@, left@, right@),
{
    let mut m = String::from_str(what);
    m.append(" requires integers (got ");
    m.append(left.box_type_name().as_str());
    m.append(" and ");
    m.append(right.box_type_name().as_str());
    m.append(")");
    m
}

fn invalid(message: String) -> (e: RuntimeError)
    ensures
        e@ == ErrSpec::InvalidOperation(message@),
{
    RuntimeError::InvalidOperation { message }
}

/// Applies a binary operator to two evaluated operands.
pub fn binary_op_values(heap: &Vec<HeapObject>, op: &BinaryOperator, left: &NyashBox, right: &NyashBox)
    -> (r: Result<NyashBox, RuntimeError>)
    ensures
        outcome(r) == binary_op_spec(heap@, *op, left@, right@),
{
    match op {
        BinaryOperator::Add => match try_add_operation(heap, left, right) {
            Some(v) => Ok(v),
            None => match right {
                NyashBox::StringBox(b) => {
                    let mut t = display_box(heap, left, DISPLAY_DEPTH);
                    t.append(b.as_str());
                    Ok(NyashBox::StringBox(t))
                },
                _ => Err(invalid(unsupported_message("Addition", left, right))),
            },
        },
        BinaryOperator::Subtract => match try_sub_operation(left, right) {
            Some(v) => Ok(v),
            None => Err(invalid(unsupported_message("Subtraction", left, right))),
        },
        BinaryOperator::Multiply => {
            if let (NyashBox::StringBox(_), NyashBox::IntegerBox(n)) = (left, right) {
                if *n < 0 {
                    return Err(invalid(String::from_str("Cannot repeat a string a negative number of times")));
                }
            }
            match try_mul_operation(left, right) {
                Some(v) => Ok(v),
                None => Err(invalid(unsupported_message("Multiplication", left, right))),
            }
        },
        BinaryOperator::Divide => {
            if let (NyashBox::IntegerBox(a), NyashBox::IntegerBox(b)) = (left, right) {
                if *a == i64::MIN && *b == -1 {
                    return Err(invalid(String::from_str("attempt to divide with overflow")));
                }
            }
            match try_div_operation(left, right) {
                Ok(v) => Ok(v),
                Err(m) => Err(invalid(m)),
            }
        },
        BinaryOperator::Modulo => {
            if let (NyashBox::IntegerBox(a), NyashBox::IntegerBox(b)) = (left, right) {
                if *a == i64::MIN && *b == -1 {
                    return Err(invalid(String::from_str("attempt to calculate the remainder with overflow")));
                }
            }
            match try_mod_operation(left, right) {
                Ok(v) => Ok(v),
                Err(m) => Err(invalid(m)),
            }
        },
        BinaryOperator::Equal => Ok(NyashBox::BoolBox(compare_values(left, right))),
        BinaryOperator::NotEqual => Ok(NyashBox::BoolBox(!compare_values(left, right))),
        BinaryOperator::Less => {
            let less = less_than_values(left, right)?;
            Ok(NyashBox::BoolBox(less))
        },
        BinaryOperator::Greater => {
            let less = less_than_values(left, right)?;
            let equal = compare_values(left, right);
            Ok(NyashBox::BoolBox(!less && !equal))
        },
        BinaryOperator::LessEqual => {
            let less = less_than_values(left, right)?;
            let equal = compare_values(left, right);
            Ok(NyashBox::BoolBox(less || equal))
        },
        BinaryOperator::GreaterEqual => {
            let less = less_than_values(left, right)?;
            Ok(NyashBox::BoolBox(!less))
        },
        BinaryOperator::And => {
            if !is_truthy(left) {
                Ok(NyashBox::BoolBox(false))
            } else {
                Ok(NyashBox::BoolBox(is_truthy(right)))
            }
        },
        BinaryOperator::Or => {
            if is_truthy(left) {
                Ok(NyashBox::BoolBox(true))
            } else {
                Ok(NyashBox::BoolBox(is_truthy(right)))
            }
        },
        BinaryOperator::Shl => match (left, right) {
            (NyashBox::IntegerBox(a), NyashBox::IntegerBox(b)) => {
                let sh: u32 = (*b as u32) & 63;
                Ok(NyashBox::IntegerBox(a.wrapping_shl(sh)))
            },
            _ => Err(RuntimeError::TypeError { message: integers_message("Shift-left '<<'", left, right) }),
        },
        BinaryOperator::Shr => match (left, right) {
            (NyashBox::IntegerBox(a), NyashBox::IntegerBox(b)) => {
                let sh: u32 = (*b as u32) & 63;
                assert(sh < 64) by (bit_vector)
                    requires sh == (*b as u32) & 63u32;
                Ok(NyashBox::IntegerBox(((*a as u64) >> sh) as i64))
            },
            _ => Err(RuntimeError::TypeError { message: integers_message("Shift-right '>>'", left, right) }),
        },
        BinaryOperator::BitAnd => match (left, right) {
            (NyashBox::IntegerBox(a), NyashBox::IntegerBox(b)) => Ok(NyashBox::IntegerBox(*a & *b)),
            _ => Err(RuntimeError::TypeError { message: integers_message("Bitwise '&'", left, right) }),
        },
        BinaryOperator::BitOr => match (left, right) {
            (NyashBox::IntegerBox(a), NyashBox::IntegerBox(b)) => Ok(NyashBox::IntegerBox(*a | *b)),
            _ => Err(RuntimeError::TypeError { message: integers_message("Bitwise '|'", left, right) }),
        },
        BinaryOperator::BitXor => match (left, right) {
            (NyashBox::IntegerBox(a), NyashBox::IntegerBox(b)) => Ok(NyashBox::IntegerBox(*a ^ *b)),
            _ => Err(RuntimeError::TypeError { message: integers_message("Bitwise '^'", left, right) }),
        },
    }
}

/// What a unary operator gives on an evaluated operand.
pub open spec fn unary_op_spec(op: UnaryOperator, v: BoxSpec) -> Result<BoxSpec, ErrSpec> {
    match op {
        UnaryOperator::Minus => match v {
            BoxSpec::IntegerBox(i) => Ok(BoxSpec::IntegerBox(i64_specs::wrapping_sub(0, i))),
            _ => Err(ErrSpec::TypeError("Unary minus can only be applied to Integer or Float"@)),
        },
        UnaryOperator::Not => Ok(BoxSpec::BoolBox(!truthy(v))),
    }
}

/// Applies a unary operator to an evaluated operand.
pub fn unary_op_value(op: &UnaryOperator, value: &NyashBox) -> (r: Result<NyashBox, RuntimeError>)
    ensures
        outcome(r) == unary_op_spec(*op, value@),
{
    match op {
        UnaryOperator::Minus => match value {
            NyashBox::IntegerBox(i) => Ok(NyashBox::IntegerBox(0i64.wrapping_sub(*i))),
            _ => Err(RuntimeError::TypeError {
                message: String::from_str("Unary minus can only be applied to Integer or Float"),
            }),
        },
        UnaryOperator::Not => match value {
            NyashBox::BoolBox(b) => Ok(NyashBox::BoolBox(!*b)),
            _ => Ok(NyashBox::BoolBox(!is_truthy(value))),
        },
    }
}

} // verus!
