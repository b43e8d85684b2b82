//! What the operators of the language make of evaluated operands, and how
//! values are written.

use vstd::prelude::*;
use crate::backend::value::{DataType, Value};
use crate::common::number::Num;
use crate::common::pakhi_error::{PakhiErr, PakhiErrView};
use crate::common::platform::Platform;
use crate::common::text::chars_of;
use crate::frontend::lexer::TokenKind;

verus! {

/// The text of a truth value.
pub open spec fn bool_text(b: bool) -> Seq<char> {
    if b {
        "সত্য"@
    } else {
        "মিথ্যা"@
    }
}

/// The text of a truth value.
pub fn to_bn_bool(b: bool) -> (r: String)
    ensures
        r@ == bool_text(b),
{
    match b {
        true => String::from_str("সত্য"),
        false => String::from_str("মিথ্যা"),
    }
}

/// Whether `c` may stand in the decimal text of a number: a sign, a point
/// or an ASCII digit.
pub open spec fn is_number_char(c: char) -> bool {
    c == '-' || c == '.' || crate::backend::built_ins::is_en_digit(c)
}

/// The first position of `text` that holds no character of a number, or the
/// length of `text` where there is none.
pub open spec fn first_foreign(text: Seq<char>) -> int
    decreases text.len(),
{
    if text.len() == 0 {
        0
    } else if !is_number_char(text[0]) {
        0
    } else {
        1 + first_foreign(text.drop_first())
    }
}

/// A decimal text in Bangla digits, or the first character of it that is
/// neither a sign, a point nor a digit.
pub fn bn_num_text(text: &str) -> (r: Result<String, char>)
    ensures
        first_foreign(text@) == text@.len() ==> (r matches Ok(s) && s@
            == crate::backend::built_ins::text_en_to_bn(text@)),
        first_foreign(text@) < text@.len() ==> (r matches Err(c) && c == text@[first_foreign(
            text@,
        )]),
{
    let n_chars = chars_of(text);
    let mut bangla_num_string = String::new();
    let mut i: usize = 0;
    proof {
        lemma_first_foreign_bounds(text@);
        assert(text@.subrange(0, text@.len() as int) =~= text@);
        assert(bangla_num_string@ =~= crate::backend::built_ins::text_en_to_bn(
            text@.subrange(0, 0),
        ));
    }
    while i < n_chars.len()
        invariant
            i <= n_chars@.len(),
            n_chars@ == text@,
            bangla_num_string@ == crate::backend::built_ins::text_en_to_bn(
                text@.subrange(0, i as int),
            ),
            first_foreign(text@) == i + first_foreign(text@.subrange(i as int, text@.len() as int)),
        decreases n_chars.len() - i,
    {
        let digit = n_chars[i];
        let ghost rest = text@.subrange(i as int, text@.len() as int);
        proof {
            assert(rest[0] == digit);
            assert(rest.drop_first() =~= text@.subrange(i + 1, text@.len() as int));
            lemma_first_foreign_bounds(rest.drop_first());
        }
        let mapped = match digit {
            '-' => '-',
            '.' => '.',
            '0' => '০',
            '1' => '১',
            '2' => '২',
            '3' => '৩',
            '4' => '৪',
            '5' => '৫',
            '6' => '৬',
            '7' => '৭',
            '8' => '৮',
            '9' => '৯',
            _ => {
                return Err(digit);
            },
        };
        bangla_num_string.push(mapped);
        i += 1;
        assert(bangla_num_string@ =~= crate::backend::built_ins::text_en_to_bn(
            text@.subrange(0, i as int),
        ));
    }
    assert(text@.subrange(0, i as int) =~= text@);
    assert(text@.subrange(i as int, text@.len() as int).len() == 0);
    Ok(bangla_num_string)
}

/// Whether `c` may stand in the text of a number in Bangla digits: a sign,
/// a point or a Bangla digit.
pub open spec fn is_bn_number_char(c: char) -> bool {
    c == '-' || c == '.' || crate::backend::built_ins::is_bn_digit(c)
}

/// A decimal text without a foreign character holds, in Bangla digits,
/// signs, points and Bangla digits only.
pub proof fn lemma_number_chars(text: Seq<char>)
    requires
        first_foreign(text) == text.len(),
    ensures
        forall|i: int|
            0 <= i < text.len() ==> is_number_char(#[trigger] text[i]) && is_bn_number_char(
                crate::backend::built_ins::text_en_to_bn(text)[i],
            ),
    decreases text.len(),
{
    if text.len() > 0 {
        lemma_first_foreign_bounds(text.drop_first());
        lemma_number_chars(text.drop_first());
        assert forall|i: int| 0 <= i < text.len() implies is_number_char(#[trigger] text[i])
            && is_bn_number_char(crate::backend::built_ins::text_en_to_bn(text)[i]) by {
            if i > 0 {
                assert(text.drop_first()[i - 1] == text[i]);
                assert(is_number_char(text.drop_first()[i - 1]));
            }
        }
    }
}

/// The first foreign position lies within the text or at its end.
pub proof fn lemma_first_foreign_bounds(text: Seq<char>)
    ensures
        0 <= first_foreign(text) <= text.len(),
    decreases text.len(),
{
    if text.len() > 0 && is_number_char(text[0]) {
        lemma_first_foreign_bounds(text.drop_first());
    }
}

/// The strings put together.
pub fn concat(left: &String, right: &String) -> (r: String)
    ensures
        r@ == left@ + right@,
{
    let mut r = left.clone();
    r.append(right.as_str());
    r
}

/// The elements of two lists, those of the first list first.
pub fn concat_lists(left: &Vec<DataType>, right: &Vec<DataType>) -> (r: Vec<DataType>)
    ensures
        r@.len() == left@.len() + right@.len(),
        forall|k: int| 0 <= k < left@.len() ==> (#[trigger] r@[k])@ == left@[k]@,
        forall|k: int| 0 <= k < right@.len() ==> (#[trigger] r@[left@.len() + k])@ == right@[k]@,
{
    let mut concatted_arr: Vec<DataType> = Vec::new();
    let mut i: usize = 0;
    while i < left.len()
        invariant
            i <= left@.len(),
            concatted_arr@.len() == i,
            forall|k: int| 0 <= k < i ==> (#[trigger] concatted_arr@[k])@ == left@[k]@,
        decreases left.len() - i,
    {
        concatted_arr.push(left[i].clone());
        i += 1;
    }
    let mut j: usize = 0;
    while j < right.len()
        invariant
            j <= right@.len(),
            concatted_arr@.len() == left@.len() + j,
            forall|k: int| 0 <= k < left@.len() ==> (#[trigger] concatted_arr@[k])@ == left@[k]@,
            forall|k: int|
                0 <= k < j ==> (#[trigger] concatted_arr@[left@.len() + k])@ == right@[k]@,
        decreases right.len() - j,
    {
        concatted_arr.push(right[j].clone());
        j += 1;
    }
    concatted_arr
}

/// What `&` and `|` make of two values: `None` unless both are truth
/// values.
pub open spec fn logical(is_and: bool, left: Value, right: Value) -> Option<bool> {
    match (left, right) {
        (Value::Bool(l), Value::Bool(r)) => Some(
            if is_and {
                l && r
            } else {
                l || r
            },
        ),
        _ => None,
    }
}

/// `left & right`.
pub fn apply_and(left: &DataType, right: &DataType, line: u32, file_name: &String) -> (r: Result<
    DataType,
    PakhiErr,
>)
    ensures
        match logical(true, left@, right@) {
            Some(b) => r matches Ok(v) && v@ == Value::Bool(b),
            None => r matches Err(e) && e@ == PakhiErrView::TypeError(
                line,
                file_name@,
                "Datatype doesn't support and operation"@,
            ),
        },
{
    match (left, right) {
        (DataType::Bool(l), DataType::Bool(r)) => Ok(DataType::Bool(*l && *r)),
        _ => Err(PakhiErr::type_error(line, file_name, "Datatype doesn't support and operation")),
    }
}

/// `left | right`.
pub fn apply_or(left: &DataType, right: &DataType, line: u32, file_name: &String) -> (r: Result<
    DataType,
    PakhiErr,
>)
    ensures
        match logical(false, left@, right@) {
            Some(b) => r matches Ok(v) && v@ == Value::Bool(b),
            None => r matches Err(e) && e@ == PakhiErrView::TypeError(
                line,
                file_name@,
                "Datatype doesn't support or operation"@,
            ),
        },
{
    match (left, right) {
        (DataType::Bool(l), DataType::Bool(r)) => Ok(DataType::Bool(*l || *r)),
        _ => Err(PakhiErr::type_error(line, file_name, "Datatype doesn't support or operation")),
    }
}

/// What `==` and `!=` make of two values: `None` for any other operator.
pub open spec fn equality(operator: TokenKind, left: Value, right: Value) -> Option<bool> {
    match operator {
        TokenKind::EqualEqual => Some(left.equals(right)),
        TokenKind::NotEqual => Some(!left.equals(right)),
        _ => None,
    }
}

/// `left == right` and `left != right`.
pub fn apply_equality(
    operator: &TokenKind,
    left: &DataType,
    right: &DataType,
    line: u32,
    file_name: &String,
) -> (r: Result<DataType, PakhiErr>)
    ensures
        match equality(*operator, left@, right@) {
            Some(b) => r matches Ok(v) && v@ == Value::Bool(b),
            None => r matches Err(e) && e@ == PakhiErrView::TypeError(
                line,
                file_name@,
                "Type doesn't support operation"@,
            ),
        },
{
    match operator {
        TokenKind::EqualEqual => Ok(DataType::Bool(left.equals(right))),
        TokenKind::NotEqual => Ok(DataType::Bool(!left.equals(right))),
        _ => Err(PakhiErr::type_error(line, file_name, "Type doesn't support operation")),
    }
}

/// What `<`, `<=`, `>` and `>=` make of two values: `None` unless both are
/// numbers and the operator is one of the four.
pub open spec fn comparison(operator: TokenKind, left: Value, right: Value) -> Option<bool> {
    match (left, right) {
        (Value::Num(l), Value::Num(r)) => match operator {
            TokenKind::GreaterThan => Some(r.num_lt(l)),
            TokenKind::GreaterThanOrEqual => Some(r.num_le(l)),
            TokenKind::LessThan => Some(l.num_lt(r)),
            TokenKind::LessThanOrEqual => Some(l.num_le(r)),
            _ => None,
        },
        _ => None,
    }
}

/// The four order comparisons.
pub fn apply_comparison(
    operator: &TokenKind,
    left: &DataType,
    right: &DataType,
    line: u32,
    file_name: &String,
) -> (r: Result<DataType, PakhiErr>)
    ensures
        match comparison(*operator, left@, right@) {
            Some(b) => r matches Ok(v) && v@ == Value::Bool(b),
            None => r matches Err(e) && e@ == PakhiErrView::TypeError(
                line,
                file_name@,
                "Type doesn't support operation"@,
            ),
        },
{
    match (left, right) {
        (DataType::Num(l), DataType::Num(r)) => match operator {
            TokenKind::GreaterThan => Ok(DataType::Bool(r.is_lt(l))),
            TokenKind::GreaterThanOrEqual => Ok(DataType::Bool(r.is_le(l))),
            TokenKind::LessThan => Ok(DataType::Bool(l.is_lt(r))),
            TokenKind::LessThanOrEqual => Ok(DataType::Bool(l.is_le(r))),
            _ => Err(PakhiErr::type_error(line, file_name, "Type doesn't support operation")),
        },
        _ => Err(PakhiErr::type_error(line, file_name, "Type doesn't support operation")),
    }
}

/// Whether `*`, `/` and `%` accept the operands: both are numbers and the
/// operator is one of the three.
pub open spec fn is_product(operator: TokenKind, left: Value, right: Value) -> bool {
    left is Num && right is Num && (operator is Multiply || operator is Division
        || operator is Remainder)
}

/// `left * right`, `left / right` and `left % right`, computed by the
/// platform. A zero divisor is no error: the quotient is an infinity or a
/// NaN.
pub fn apply_muldiv<P: Platform>(
    operator: &TokenKind,
    left: &DataType,
    right: &DataType,
    pf: &P,
    line: u32,
    file_name: &String,
) -> (r: Result<DataType, PakhiErr>)
    ensures
        is_product(*operator, left@, right@) ==> (r matches Ok(v) && v is Num),
        !is_product(*operator, left@, right@) ==> (r matches Err(e) && e@
            == PakhiErrView::TypeError(line, file_name@, "Type doesn't support operation"@)),
{
    match (left, right) {
        (DataType::Num(l), DataType::Num(r)) => match operator {
            TokenKind::Multiply => Ok(DataType::Num(pf.mul(*l, *r))),
            TokenKind::Division => Ok(DataType::Num(pf.div(*l, *r))),
            TokenKind::Remainder => Ok(DataType::Num(pf.rem(*l, *r))),
            _ => Err(PakhiErr::type_error(line, file_name, "Type doesn't support operation")),
        },
        _ => Err(PakhiErr::type_error(line, file_name, "Type doesn't support operation")),
    }
}

/// Whether unary `-` and `!` accept the operand.
pub open spec fn is_negation(operator: TokenKind, operand: Value) -> bool {
    (operand is Num && operator is Minus) || (operand is Bool && operator is Not)
}

/// `-operand` and `!operand`. The negative of a number is its product with
/// minus one, computed by the platform.
pub fn apply_unary<P: Platform>(
    operator: &TokenKind,
    operand: &DataType,
    pf: &P,
    line: u32,
    file_name: &String,
) -> (r: Result<DataType, PakhiErr>)
    ensures
        operand@ is Num && operator is Minus ==> (r matches Ok(v) && v is Num),
        operand@ is Bool && operator is Not ==> (r matches Ok(v) && v@ == Value::Bool(
            !operand@->Bool_0,
        )),
        !is_negation(*operator, operand@) ==> (r matches Err(e) && e@ is TypeError),
{
    match operand {
        DataType::Num(n) => {
            if let TokenKind::Minus = operator {
                Ok(DataType::Num(pf.mul(*n, Num::minus_one())))
            } else {
                Err(PakhiErr::type_error(line, file_name,
                    "Unsupported '-' unary operation on type"))
            }
        },
        DataType::Bool(b) => {
            if let TokenKind::Not = operator {
                Ok(DataType::Bool(!*b))
            } else {
                Err(PakhiErr::type_error(line, file_name,
                    "Unsupported '!' unary operation on type"))
            }
        },
        _ => Err(PakhiErr::type_error(line, file_name, "Datatype doesn't support unary operation")),
    }
}

} // verus!
