//! What the operators make of their operands.
use crate::ast::{BinaryOp, UnaryOp};
use crate::constant::{ConstantV, FloatValue};
use crate::error::{ErrorKindV, ErrorV, FailureV, Location};
use crate::laws;
use crate::semantics;
use std::rc::Rc;
use vstd::prelude::*;

verus! {

/// What the unary operators make of an integer: its negative, unless that overflows, its
/// complement, and whether it is zero.
pub proof fn law_unary_of_integers(location: Location, n: i32)
    ensures
        n == i32::MIN ==> semantics::apply_unary(location, UnaryOp::Neg, ConstantV::Int(n)) == Err::<
            ConstantV,
            FailureV,
        >(FailureV::Arithmetic),
        n != i32::MIN ==> (semantics::apply_unary(location, UnaryOp::Neg, ConstantV::Int(n)) matches
            Ok(ConstantV::Int(m)) && m + n == 0),
        semantics::apply_unary(location, UnaryOp::BitNot, ConstantV::Int(n)) matches Ok(
            ConstantV::Int(m),
        ) && m + n == -1,
        semantics::apply_unary(location, UnaryOp::Not, ConstantV::Int(n)) matches Ok(
            ConstantV::Int(m),
        ) && (n == 0 ==> m == 1) && (n != 0 ==> m == 0),
{
}

/// Negating a number gives a number, the negative of it in whatever way numbers are worked out.
pub proof fn law_unary_of_numbers<N>(
    location: Location,
    number: spec_fn(FloatValue) -> N,
    neg: spec_fn(N) -> N,
    value: FloatValue,
)
    requires
        forall|inner: FloatValue|
            #[trigger] number(FloatValue::Neg(Rc::new(inner))) == neg(number(inner)),
    ensures
        semantics::apply_unary(location, UnaryOp::Neg, ConstantV::Float(value)) matches Ok(
            ConstantV::Float(result),
        ) && number(result) == neg(number(value)),
{
    assert(number(FloatValue::Neg(Rc::new(value))) == neg(number(value)));
}

/// Every other use of a unary operator is refused, and the error names operator and operand.
pub proof fn law_unary_refusals(location: Location, op: UnaryOp, term: ConstantV)
    requires
        term is Int ==> op is PreIncr || op is PostIncr || op is PreDecr || op is PostDecr,
        term is Float ==> op !is Neg,
    ensures
        semantics::apply_unary(location, op, term) == Err::<ConstantV, FailureV>(
            FailureV::Error(ErrorV { location, kind: ErrorKindV::UnaryOperation(op, term) }),
        ),
{
}

/// Operators before a term are applied one after the other, the last first: if each of the
/// `steps` is what the next operator makes of the step before it, then the last step is the
/// outcome, or the first failure is.
pub proof fn law_operators_last_first(
    location: Location,
    ops: Seq<UnaryOp>,
    steps: Seq<ConstantV>,
)
    requires
        1 <= steps.len() <= ops.len() + 1,
        forall|j: int|
            0 <= j < steps.len() - 1 ==> semantics::apply_unary(
                location,
                ops[ops.len() - 1 - j],
                #[trigger] steps[j],
            ) == Ok::<ConstantV, FailureV>(steps[j + 1]),
    ensures
        steps.len() == ops.len() + 1 ==> semantics::apply_unaries(location, ops, steps[0]) == Ok::<
            ConstantV,
            FailureV,
        >(steps.last()),
        steps.len() <= ops.len() ==> (semantics::apply_unary(
            location,
            ops[ops.len() - steps.len()],
            steps.last(),
        ) matches Err(failure) ==> semantics::apply_unaries(location, ops, steps[0]) == Err::<
            ConstantV,
            FailureV,
        >(failure)),
    decreases ops.len(),
{
    if steps.len() > 1 {
        let fewer = ops.drop_last();
        let rest = steps.skip(1);
        assert(semantics::apply_unary(location, ops[ops.len() - 1], steps[0]) == Ok::<
            ConstantV,
            FailureV,
        >(steps[1]));
        assert forall|j: int| 0 <= j < rest.len() - 1 implies semantics::apply_unary(
            location,
            fewer[fewer.len() - 1 - j],
            #[trigger] rest[j],
        ) == Ok::<ConstantV, FailureV>(rest[j + 1]) by {
            assert(rest[j] == steps[j + 1]);
        }
        law_operators_last_first(location, fewer, rest);
        assert(rest.last() == steps.last());
        assert(rest[0] == steps[1]);
        if steps.len() <= ops.len() {
            assert(fewer[fewer.len() - rest.len()] == ops[ops.len() - steps.len()]);
        }
    }
}

/// Operators in two groups: those behind are applied first, and those in front to what they made.
pub proof fn law_operators_compose(
    location: Location,
    front: Seq<UnaryOp>,
    behind: Seq<UnaryOp>,
    term: ConstantV,
)
    ensures
        semantics::apply_unaries(location, front + behind, term) == (
        match semantics::apply_unaries(location, behind, term) {
            Ok(value) => semantics::apply_unaries(location, front, value),
            Err(failure) => Err::<ConstantV, FailureV>(failure),
        }),
    decreases behind.len(),
{
    if behind.len() == 0 {
        assert(front + behind =~= front);
    } else {
        assert((front + behind).drop_last() =~= front + behind.drop_last());
        if let Ok(value) = semantics::apply_unary(location, behind.last(), term) {
            law_operators_compose(location, front, behind.drop_last(), value);
        }
    }
}

/// Sum, difference and product of two integers are exact, or fail where they do not fit.
pub proof fn law_integer_arithmetic(location: Location, l: i32, r: i32)
    ensures
        ({
            let out = semantics::apply_binary(
                location,
                ConstantV::Int(l),
                ConstantV::Int(r),
                BinaryOp::Add,
            );
            if i32::MIN <= l + r <= i32::MAX {
                out matches Ok(ConstantV::Int(m)) && m == l + r
            } else {
                out == Err::<ConstantV, FailureV>(FailureV::Arithmetic)
            }
        }),
        ({
            let out = semantics::apply_binary(
                location,
                ConstantV::Int(l),
                ConstantV::Int(r),
                BinaryOp::Sub,
            );
            if i32::MIN <= l - r <= i32::MAX {
                out matches Ok(ConstantV::Int(m)) && m == l - r
            } else {
                out == Err::<ConstantV, FailureV>(FailureV::Arithmetic)
            }
        }),
        ({
            let out = semantics::apply_binary(
                location,
                ConstantV::Int(l),
                ConstantV::Int(r),
                BinaryOp::Mul,
            );
            if i32::MIN <= l * r <= i32::MAX {
                out matches Ok(ConstantV::Int(m)) && m == l * r
            } else {
                out == Err::<ConstantV, FailureV>(FailureV::Arithmetic)
            }
        }),
{
}

/// The quotient of two integers is rounded towards zero: what it leaves over is smaller than the
/// divisor and has the sign of the dividend. Division by zero fails, and so does the one quotient
/// that does not fit.
pub proof fn law_integer_division(location: Location, l: i32, r: i32)
    ensures
        ({
            let out = semantics::apply_binary(
                location,
                ConstantV::Int(l),
                ConstantV::Int(r),
                BinaryOp::Div,
            );
            if r == 0 || (l == i32::MIN && r == -1) {
                out == Err::<ConstantV, FailureV>(FailureV::Arithmetic)
            } else {
                out matches Ok(ConstantV::Int(q)) && {
                    let rest = l - q * r;
                    &&& r > 0 ==> -r < rest < r
                    &&& r < 0 ==> r < rest < -r
                    &&& rest > 0 ==> l > 0
                    &&& rest < 0 ==> l < 0
                }
            }
        }),
{
    if r != 0 {
        let q = semantics::quotient(l as int, r as int);
        laws::law_division_rounds_towards_zero(l as int, r as int);
        let rest = l - q * r;
        if r == -1 {
            assert(q == -l);
        } else if r == 1 {
            assert(q == l);
        } else {
            assert(i32::MIN <= q <= i32::MAX) by (nonlinear_arith)
                requires
                    rest == l - q * r,
                    r > 1 || r < -1,
                    r > 0 ==> -r < rest < r,
                    r < 0 ==> r < rest < -r,
                    i32::MIN <= l <= i32::MAX,
            ;
        }
    }
}

/// Or, and, and the shifts of two integers are those of their bits; a shift by a negative amount,
/// or by all bits and more, fails.
pub proof fn law_integer_bits(location: Location, l: i32, r: i32)
    ensures
        semantics::apply_binary(location, ConstantV::Int(l), ConstantV::Int(r), BinaryOp::BitOr)
            == Ok::<ConstantV, FailureV>(ConstantV::Int(l | r)),
        semantics::apply_binary(location, ConstantV::Int(l), ConstantV::Int(r), BinaryOp::BitAnd)
            == Ok::<ConstantV, FailureV>(ConstantV::Int(l & r)),
        0 <= r < 32 ==> semantics::apply_binary(
            location,
            ConstantV::Int(l),
            ConstantV::Int(r),
            BinaryOp::LShift,
        ) == Ok::<ConstantV, FailureV>(ConstantV::Int(l << r)),
        0 <= r < 32 ==> semantics::apply_binary(
            location,
            ConstantV::Int(l),
            ConstantV::Int(r),
            BinaryOp::RShift,
        ) == Ok::<ConstantV, FailureV>(ConstantV::Int(l >> r)),
        !(0 <= r < 32) ==> semantics::apply_binary(
            location,
            ConstantV::Int(l),
            ConstantV::Int(r),
            BinaryOp::LShift,
        ) == Err::<ConstantV, FailureV>(FailureV::Arithmetic),
        !(0 <= r < 32) ==> semantics::apply_binary(
            location,
            ConstantV::Int(l),
            ConstantV::Int(r),
            BinaryOp::RShift,
        ) == Err::<ConstantV, FailureV>(FailureV::Arithmetic),
{
}

/// Arithmetic with a number in it gives a number: in whatever way numbers are worked out, it is
/// the sum, difference, product or quotient of the two operands, in their order, an integer
/// standing for its nearest number.
pub proof fn law_number_arithmetic<N>(
    location: Location,
    number: spec_fn(FloatValue) -> N,
    sum: spec_fn(N, N) -> N,
    difference: spec_fn(N, N) -> N,
    product: spec_fn(N, N) -> N,
    ratio: spec_fn(N, N) -> N,
    lhs: ConstantV,
    rhs: ConstantV,
)
    requires
        forall|l: FloatValue, r: FloatValue|
            #[trigger] number(FloatValue::Add(Rc::new(l), Rc::new(r))) == sum(
                number(l),
                number(r),
            ),
        forall|l: FloatValue, r: FloatValue|
            #[trigger] number(FloatValue::Sub(Rc::new(l), Rc::new(r))) == difference(
                number(l),
                number(r),
            ),
        forall|l: FloatValue, r: FloatValue|
            #[trigger] number(FloatValue::Mul(Rc::new(l), Rc::new(r))) == product(
                number(l),
                number(r),
            ),
        forall|l: FloatValue, r: FloatValue|
            #[trigger] number(FloatValue::Div(Rc::new(l), Rc::new(r))) == ratio(
                number(l),
                number(r),
            ),
        lhs is Float || rhs is Float,
        lhs is Float || lhs is Int,
        rhs is Float || rhs is Int,
    ensures
        ({
            let l = match lhs {
                ConstantV::Float(value) => number(value),
                _ => number(FloatValue::OfInt(lhs->Int_0)),
            };
            let r = match rhs {
                ConstantV::Float(value) => number(value),
                _ => number(FloatValue::OfInt(rhs->Int_0)),
            };
            &&& semantics::apply_binary(location, lhs, rhs, BinaryOp::Add) matches Ok(
                ConstantV::Float(result),
            ) && number(result) == sum(l, r)
            &&& semantics::apply_binary(location, lhs, rhs, BinaryOp::Sub) matches Ok(
                ConstantV::Float(result),
            ) && number(result) == difference(l, r)
            &&& semantics::apply_binary(location, lhs, rhs, BinaryOp::Mul) matches Ok(
                ConstantV::Float(result),
            ) && number(result) == product(l, r)
            &&& semantics::apply_binary(location, lhs, rhs, BinaryOp::Div) matches Ok(
                ConstantV::Float(result),
            ) && number(result) == ratio(l, r)
        }),
{
    let l = match lhs {
        ConstantV::Float(value) => value,
        _ => FloatValue::OfInt(lhs->Int_0),
    };
    let r = match rhs {
        ConstantV::Float(value) => value,
        _ => FloatValue::OfInt(rhs->Int_0),
    };
    assert(number(FloatValue::Add(Rc::new(l), Rc::new(r))) == sum(number(l), number(r)));
    assert(number(FloatValue::Sub(Rc::new(l), Rc::new(r))) == difference(number(l), number(r)));
    assert(number(FloatValue::Mul(Rc::new(l), Rc::new(r))) == product(number(l), number(r)));
    assert(number(FloatValue::Div(Rc::new(l), Rc::new(r))) == ratio(number(l), number(r)));
}

/// The sum of two texts is the first followed by the second.
pub proof fn law_joined_texts(location: Location, l: Seq<char>, r: Seq<char>)
    ensures
        semantics::apply_binary(
            location,
            ConstantV::String(l),
            ConstantV::String(r),
            BinaryOp::Add,
        ) matches Ok(ConstantV::String(joined)) && {
            &&& joined.len() == l.len() + r.len()
            &&& forall|i: int| 0 <= i < l.len() ==> #[trigger] joined[i] == l[i]
            &&& forall|i: int| 0 <= i < r.len() ==> joined[l.len() + i] == #[trigger] r[i]
        },
{
}

/// Every other use of a binary operator is refused, and the error names the operands in their
/// order and the operator.
pub proof fn law_binary_refusals(
    location: Location,
    lhs: ConstantV,
    rhs: ConstantV,
    op: BinaryOp,
)
    requires
        lhs is Int && rhs is Int ==> op !is Add && op !is Sub && op !is Mul && op !is Div
            && op !is BitOr && op !is BitAnd && op !is LShift && op !is RShift,
        (lhs is Int && rhs is Float) || (lhs is Float && rhs is Int) || (lhs is Float
            && rhs is Float) ==> op !is Add && op !is Sub && op !is Mul && op !is Div,
        lhs is String && rhs is String ==> op !is Add,
    ensures
        semantics::apply_binary(location, lhs, rhs, op) == Err::<ConstantV, FailureV>(
            FailureV::Error(ErrorV { location, kind: ErrorKindV::BinaryOperation(lhs, op, rhs) }),
        ),
{
}

} // verus!
