//! What expressions fold to, in terms of what their parts fold to.
use crate::ast::{AssignOp, BinaryOp, Expression, Follow, Term, UnaryOp};
use crate::constant::{ConstantV, FloatValue};
use crate::error::{ErrorKindV, ErrorV, FailureV};
use crate::laws::operators;
use crate::semantics;
use crate::semantics::{Memo, PathV, Run, Scope, Stopped};
use vstd::prelude::*;

verus! {

/// Literals fold to themselves, `null` to null of the expected type, and nothing changes.
pub proof fn law_literals(
    scope: Scope,
    memo: Memo,
    hint: Option<PathV>,
    n: i32,
    bits: u32,
    text: String,
)
    ensures
        semantics::fold_term(scope, memo, Term::Null, hint) == (Run {
            memo,
            out: Ok(ConstantV::Null(hint)),
        }),
        semantics::fold_term(scope, memo, Term::Int(n), hint) == (Run {
            memo,
            out: Ok(ConstantV::Int(n)),
        }),
        semantics::fold_term(scope, memo, Term::Float(bits), hint) == (Run {
            memo,
            out: Ok(ConstantV::Float(FloatValue::Literal(bits))),
        }),
        semantics::fold_term(scope, memo, Term::String(text), hint) == (Run {
            memo,
            out: Ok(ConstantV::String(text@)),
        }),
        semantics::fold_term(scope, memo, Term::Resource(text), hint) == (Run {
            memo,
            out: Ok(ConstantV::Resource(text@)),
        }),
{
}

/// A term in parentheses folds as the expression in them.
pub proof fn law_inner_expressions(
    scope: Scope,
    memo: Memo,
    inner: Expression,
    hint: Option<PathV>,
)
    ensures
        semantics::fold_term(scope, memo, Term::Expr(Box::new(inner)), hint)
            == semantics::fold_expr(scope, memo, inner, hint),
{
}

/// An expression without operators and followers folds as its term, of which the same type is
/// expected.
pub proof fn law_bare_terms(
    scope: Scope,
    memo: Memo,
    unary: Vec<UnaryOp>,
    term: Term,
    follow: Vec<Follow>,
    hint: Option<PathV>,
)
    requires
        unary@.len() == 0,
        follow@.len() == 0,
    ensures
        semantics::fold_expr(scope, memo, Expression::Base { unary, term, follow }, hint)
            == semantics::fold_term(scope, memo, term, hint),
{
    let expression = Expression::Base { unary, term, follow };
    let run = semantics::fold_term(scope, memo, term, hint);
    if let Ok(value) = run.out {
        assert(semantics::fold_follows(scope, run.memo, value, follow@, 0) == (Run {
            memo: run.memo,
            out: Ok::<ConstantV, Stopped>(value),
        }));
        assert(semantics::apply_unaries(scope.location, unary@, value) == Ok::<ConstantV, FailureV>(
            value,
        ));
    }
    assert(semantics::fold_expr(scope, memo, expression, hint) == run);
}

proof fn lemma_followers_from(
    scope: Scope,
    follows: Seq<Follow>,
    terms: Seq<ConstantV>,
    memos: Seq<Memo>,
    i: nat,
)
    requires
        terms.len() == memos.len(),
        1 <= terms.len() <= follows.len() + 1,
        i < terms.len(),
        forall|j: int|
            0 <= j < terms.len() - 1 ==> semantics::fold_follow(
                scope,
                memos[j],
                #[trigger] terms[j],
                follows[j],
            ) == (Run { memo: memos[j + 1], out: Ok(terms[j + 1]) }),
    ensures
        ({
            let run = semantics::fold_follows(scope, memos[i as int], terms[i as int], follows, i);
            &&& terms.len() == follows.len() + 1 ==> run == (Run {
                memo: memos.last(),
                out: Ok(terms.last()),
            })
            &&& terms.len() <= follows.len() ==> {
                let next = semantics::fold_follow(
                    scope,
                    memos.last(),
                    terms.last(),
                    follows[terms.len() - 1],
                );
                next.out is Err ==> run == next
            }
        }),
    decreases terms.len() - i,
{
    if i < terms.len() - 1 {
        assert(semantics::fold_follow(
            scope,
            memos[i as int],
            terms[i as int],
            follows[i as int],
        ) == (Run { memo: memos[i as int + 1], out: Ok(terms[i as int + 1]) }));
        lemma_followers_from(scope, follows, terms, memos, i + 1);
    } else if terms.len() <= follows.len() {
        let next = semantics::fold_follow(
            scope,
            memos.last(),
            terms.last(),
            follows[terms.len() - 1],
        );
        assert(next.out is Err ==> semantics::fold_follows(
            scope,
            memos[i as int],
            terms[i as int],
            follows,
            i,
        ) == next);
    }
}

/// Followers are taken one after the other, each of what the one before it led to: if each of the
/// `terms` and `memos` is what the next follower makes of those before, then the last are the
/// outcome, or the first failure is.
pub proof fn law_followers_in_order(
    scope: Scope,
    follows: Seq<Follow>,
    terms: Seq<ConstantV>,
    memos: Seq<Memo>,
)
    requires
        terms.len() == memos.len(),
        1 <= terms.len() <= follows.len() + 1,
        forall|j: int|
            0 <= j < terms.len() - 1 ==> semantics::fold_follow(
                scope,
                memos[j],
                #[trigger] terms[j],
                follows[j],
            ) == (Run { memo: memos[j + 1], out: Ok(terms[j + 1]) }),
    ensures
        ({
            let run = semantics::fold_follows(scope, memos[0], terms[0], follows, 0);
            &&& terms.len() == follows.len() + 1 ==> run == (Run {
                memo: memos.last(),
                out: Ok(terms.last()),
            })
            &&& terms.len() <= follows.len() ==> {
                let next = semantics::fold_follow(
                    scope,
                    memos.last(),
                    terms.last(),
                    follows[terms.len() - 1],
                );
                next.out is Err ==> run == next
            }
        }),
{
    lemma_followers_from(scope, follows, terms, memos, 0);
}

/// An expression fails as its term does. A type is expected of the term only where no operator
/// and no follower is there.
pub proof fn law_failing_terms(
    scope: Scope,
    memo: Memo,
    unary: Vec<UnaryOp>,
    term: Term,
    follow: Vec<Follow>,
    hint: Option<PathV>,
)
    ensures
        ({
            let expected = if unary@.len() == 0 && follow@.len() == 0 {
                hint
            } else {
                None
            };
            let start = semantics::fold_term(scope, memo, term, expected);
            start.out is Err ==> semantics::fold_expr(
                scope,
                memo,
                Expression::Base { unary, term, follow },
                hint,
            ) == start
        }),
{
}

/// An expression fails as the first of its followers that does.
pub proof fn law_failing_followers(
    scope: Scope,
    memo: Memo,
    unary: Vec<UnaryOp>,
    term: Term,
    follow: Vec<Follow>,
    hint: Option<PathV>,
    terms: Seq<ConstantV>,
    memos: Seq<Memo>,
)
    requires
        terms.len() == memos.len(),
        1 <= terms.len() <= follow@.len(),
        semantics::fold_term(scope, memo, term, None) == (Run { memo: memos[0], out: Ok(terms[0]) }),
        forall|j: int|
            0 <= j < terms.len() - 1 ==> semantics::fold_follow(
                scope,
                memos[j],
                #[trigger] terms[j],
                follow@[j],
            ) == (Run { memo: memos[j + 1], out: Ok(terms[j + 1]) }),
        semantics::fold_follow(
            scope,
            memos.last(),
            terms.last(),
            follow@[terms.len() - 1],
        ).out is Err,
    ensures
        semantics::fold_expr(scope, memo, Expression::Base { unary, term, follow }, hint)
            == semantics::fold_follow(scope, memos.last(), terms.last(), follow@[terms.len() - 1]),
{
    law_followers_in_order(scope, follow@, terms, memos);
    let expression = Expression::Base { unary, term, follow };
    let start = semantics::fold_term(scope, memo, term, None);
    let run = semantics::fold_follows(scope, memos[0], terms[0], follow@, 0);
    assert(semantics::fold_expr(scope, memo, expression, hint) == run);
}

/// All operators before a term apply to what the term and all its followers fold to, the last
/// operator first, whether there are followers or not. The outcome is the last of the `steps`, or
/// the first failure.
pub proof fn law_operators_apply_to_the_followed_term(
    scope: Scope,
    memo: Memo,
    unary: Vec<UnaryOp>,
    term: Term,
    follow: Vec<Follow>,
    hint: Option<PathV>,
    terms: Seq<ConstantV>,
    memos: Seq<Memo>,
    steps: Seq<ConstantV>,
)
    requires
        terms.len() == memos.len(),
        terms.len() == follow@.len() + 1,
        semantics::fold_term(
            scope,
            memo,
            term,
            if unary@.len() == 0 && follow@.len() == 0 {
                hint
            } else {
                None
            },
        ) == (Run { memo: memos[0], out: Ok(terms[0]) }),
        forall|j: int|
            0 <= j < terms.len() - 1 ==> semantics::fold_follow(
                scope,
                memos[j],
                #[trigger] terms[j],
                follow@[j],
            ) == (Run { memo: memos[j + 1], out: Ok(terms[j + 1]) }),
        1 <= steps.len() <= unary@.len() + 1,
        steps[0] == terms.last(),
        forall|j: int|
            0 <= j < steps.len() - 1 ==> semantics::apply_unary(
                scope.location,
                unary@[unary@.len() - 1 - j],
                #[trigger] steps[j],
            ) == Ok::<ConstantV, FailureV>(steps[j + 1]),
    ensures
        ({
            let run = semantics::fold_expr(
                scope,
                memo,
                Expression::Base { unary, term, follow },
                hint,
            );
            &&& steps.len() == unary@.len() + 1 ==> run == (Run {
                memo: memos.last(),
                out: Ok(steps.last()),
            })
            &&& steps.len() <= unary@.len() ==> (semantics::apply_unary(
                scope.location,
                unary@[unary@.len() - steps.len()],
                steps.last(),
            ) matches Err(failure) ==> run == (Run {
                memo: memos.last(),
                out: Err::<ConstantV, Stopped>(Stopped { failure, open: scope.open }),
            }))
        }),
{
    law_followers_in_order(scope, follow@, terms, memos);
    operators::law_operators_last_first(scope.location, unary@, steps);
    let expression = Expression::Base { unary, term, follow };
    let expected = if unary@.len() == 0 && follow@.len() == 0 {
        hint
    } else {
        None
    };
    let start = semantics::fold_term(scope, memo, term, expected);
    let followed = semantics::fold_follows(scope, memos[0], terms[0], follow@, 0);
    assert(followed == (Run { memo: memos.last(), out: Ok::<ConstantV, Stopped>(terms.last()) }));
    let applied = semantics::apply_unaries(scope.location, unary@, terms.last());
    assert(semantics::fold_expr(scope, memo, expression, hint) == semantics::operated(
        scope,
        memos.last(),
        applied,
    ));
}

/// The operators on an integer that a term with any followers leads to: its negative, its
/// complement, and whether it is zero.
pub proof fn law_operators_on_a_followed_integer(
    scope: Scope,
    memo: Memo,
    unary: Vec<UnaryOp>,
    term: Term,
    follow: Vec<Follow>,
    hint: Option<PathV>,
    terms: Seq<ConstantV>,
    memos: Seq<Memo>,
    n: i32,
)
    requires
        unary@.len() == 1,
        terms.len() == memos.len(),
        terms.len() == follow@.len() + 1,
        terms.last() == ConstantV::Int(n),
        semantics::fold_term(scope, memo, term, None) == (Run { memo: memos[0], out: Ok(terms[0]) }),
        forall|j: int|
            0 <= j < terms.len() - 1 ==> semantics::fold_follow(
                scope,
                memos[j],
                #[trigger] terms[j],
                follow@[j],
            ) == (Run { memo: memos[j + 1], out: Ok(terms[j + 1]) }),
    ensures
        ({
            let run = semantics::fold_expr(
                scope,
                memo,
                Expression::Base { unary, term, follow },
                hint,
            );
            &&& run.memo == memos.last()
            &&& unary@[0] is Neg && n != i32::MIN ==> (run.out matches Ok(ConstantV::Int(m)) && m
                + n == 0)
            &&& unary@[0] is BitNot ==> (run.out matches Ok(ConstantV::Int(m)) && m + n == -1)
            &&& unary@[0] is Not ==> (run.out matches Ok(ConstantV::Int(m)) && m == (if n == 0 {
                1int
            } else {
                0int
            }))
        }),
{
    operators::law_unary_of_integers(scope.location, n);
    let applied = semantics::apply_unary(scope.location, unary@[0], ConstantV::Int(n));
    let steps = match applied {
        Ok(value) => seq![ConstantV::Int(n), value],
        Err(_) => seq![ConstantV::Int(n)],
    };
    law_operators_apply_to_the_followed_term(
        scope,
        memo,
        unary,
        term,
        follow,
        hint,
        terms,
        memos,
        steps,
    );
}

/// Of a binary operation the left operand is folded first, then the right one with what is known
/// by then, and no type is expected of either. The first failure is the outcome, or what the
/// operator makes of both.
pub proof fn law_operands_in_order(
    scope: Scope,
    memo: Memo,
    op: BinaryOp,
    lhs: Expression,
    rhs: Expression,
    hint: Option<PathV>,
)
    ensures
        ({
            let run = semantics::fold_expr(
                scope,
                memo,
                Expression::BinaryOp { op, lhs: Box::new(lhs), rhs: Box::new(rhs) },
                hint,
            );
            let left = semantics::fold_expr(scope, memo, lhs, None);
            let right = semantics::fold_expr(scope, left.memo, rhs, None);
            &&& left.out is Err ==> run == left
            &&& left.out is Ok && right.out is Err ==> run == right
            &&& left.out matches Ok(l) ==> (right.out matches Ok(r) ==> run == (Run {
                memo: right.memo,
                out: match semantics::apply_binary(scope.location, l, r, op) {
                    Ok(value) => Ok(value),
                    Err(failure) => Err(Stopped { failure, open: scope.open }),
                },
            }))
        }),
{
}

/// Assignments and conditional expressions are refused without a look at their parts.
pub proof fn law_no_assignments(
    scope: Scope,
    memo: Memo,
    op: AssignOp,
    a: Expression,
    b: Expression,
    c: Expression,
    hint: Option<PathV>,
)
    ensures
        ({
            let refused = Run {
                memo,
                out: Err::<ConstantV, Stopped>(
                    Stopped {
                        failure: FailureV::Error(
                            ErrorV {
                                location: scope.location,
                                kind: ErrorKindV::AugmentedAssignment,
                            },
                        ),
                        open: scope.open,
                    },
                ),
            };
            &&& semantics::fold_expr(
                scope,
                memo,
                Expression::AssignOp { op, lhs: Box::new(a), rhs: Box::new(b) },
                hint,
            ) == refused
            &&& semantics::fold_expr(
                scope,
                memo,
                Expression::TernaryOp { cond: Box::new(a), if_: Box::new(b), else_: Box::new(c) },
                hint,
            ) == refused
        }),
{
}

/// A field of null is looked up among the static variables of the type that is expected there, if
/// a type is listed under that path; everything else that may follow a term is refused.
pub proof fn law_followers(scope: Scope, memo: Memo, term: ConstantV, follow: Follow)
    ensures
        ({
            let run = semantics::fold_follow(scope, memo, term, follow);
            let refused = |kind: ErrorKindV|
                Run {
                    memo,
                    out: Err::<ConstantV, Stopped>(
                        Stopped {
                            failure: FailureV::Error(ErrorV { location: scope.location, kind }),
                            open: scope.open,
                        },
                    ),
                };
            match (term, follow) {
                (ConstantV::Null(Some(hint)), Follow::Field(name)) => match scope.program.type_at(
                    semantics::listed_path(hint),
                ) {
                    Some(ty) => run == semantics::search(scope, memo, ty, name@, true),
                    None => run == refused(
                        ErrorKindV::UnknownTypepath(semantics::listed_path(hint)),
                    ),
                },
                _ => run == refused(ErrorKindV::Followers(term, follow@)),
            }
        }),
{
}

/// A path is listed under the names of its segments, each after a slash: the text of a path in two
/// parts is that of the first followed by that of the second.
pub proof fn law_listed_paths(front: PathV, behind: PathV)
    ensures
        semantics::listed_path(front + behind) == semantics::listed_path(front)
            + semantics::listed_path(behind),
        front.len() == 0 ==> semantics::listed_path(front).len() == 0,
        front.len() == 1 ==> semantics::listed_path(front) == "/"@ + front[0].1,
    decreases behind.len(),
{
    if front.len() == 1 {
        assert(semantics::listed_path(front.drop_last()) =~= seq![]);
        assert(semantics::listed_path(front) =~= "/"@ + front[0].1);
    }
    if behind.len() == 0 {
        assert(front + behind =~= front);
        assert(semantics::listed_path(front) + semantics::listed_path(behind)
            =~= semantics::listed_path(front));
    } else {
        law_listed_paths(front, behind.drop_last());
        assert((front + behind).drop_last() =~= front + behind.drop_last());
        assert(semantics::listed_path(front + behind) =~= semantics::listed_path(front)
            + semantics::listed_path(behind));
    }
}

} // verus!
