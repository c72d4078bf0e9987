//! What lists, calls, colours, prefabs and `new` expressions fold to, part by part.
use crate::ast::{Expression, Follow, Term, UnaryOp};
use crate::constant::{ConstFn, ConstantV};
use crate::error::{ErrorKindV, ErrorV, FailureV};
use crate::laws;
use crate::objtree::NoteV;
use crate::semantics;
use crate::semantics::{Memo, PathV, Run, Scope, Stopped};
use crate::text;
use vstd::prelude::*;

verus! {

proof fn lemma_arguments_from(
    scope: Scope,
    expressions: Seq<Expression>,
    memos: Seq<Memo>,
    values: Seq<ConstantV>,
    i: nat,
)
    requires
        memos.len() == values.len() + 1,
        i <= values.len() <= expressions.len(),
        forall|j: int|
            0 <= j < values.len() ==> semantics::fold_expr(
                scope,
                memos[j],
                expressions[j],
                None,
            ) == (Run { memo: memos[j + 1], out: Ok(#[trigger] values[j]) }),
    ensures
        ({
            let run = semantics::fold_all(
                scope,
                memos[i as int],
                expressions,
                values.take(i as int),
            );
            &&& values.len() == expressions.len() ==> run == (Run {
                memo: memos.last(),
                out: Ok(values),
            })
            &&& values.len() < expressions.len() ==> {
                let next = semantics::fold_expr(
                    scope,
                    memos.last(),
                    expressions[values.len() as int],
                    None,
                );
                next.out matches Err(stopped) ==> run == (Run {
                    memo: next.memo,
                    out: Err::<Seq<ConstantV>, Stopped>(stopped),
                })
            }
        }),
    decreases values.len() - i,
{
    let folded = values.take(i as int);
    if i < values.len() {
        let value = values[i as int];
        assert(semantics::fold_expr(scope, memos[i as int], expressions[i as int], None) == (Run {
            memo: memos[i as int + 1],
            out: Ok(value),
        }));
        assert(folded.push(value) =~= values.take(i as int + 1));
        lemma_arguments_from(scope, expressions, memos, values, i + 1);
    } else {
        assert(folded =~= values);
        if values.len() < expressions.len() {
            let next = semantics::fold_expr(
                scope,
                memos.last(),
                expressions[values.len() as int],
                None,
            );
        }
    }
}

/// Several expressions are folded one after the other, each with what is known by then: if the
/// `values` are what the expressions fold to, in order, and the `memos` what is known in between,
/// then the values are the outcome, one for each expression; or the first failure is.
pub proof fn law_arguments_in_order(
    scope: Scope,
    expressions: Seq<Expression>,
    memos: Seq<Memo>,
    values: Seq<ConstantV>,
)
    requires
        memos.len() == values.len() + 1,
        values.len() <= expressions.len(),
        forall|j: int|
            0 <= j < values.len() ==> semantics::fold_expr(
                scope,
                memos[j],
                expressions[j],
                None,
            ) == (Run { memo: memos[j + 1], out: Ok(#[trigger] values[j]) }),
    ensures
        ({
            let run = semantics::fold_all(scope, memos[0], expressions, seq![]);
            &&& values.len() == expressions.len() ==> run == (Run {
                memo: memos.last(),
                out: Ok(values),
            })
            &&& values.len() < expressions.len() ==> {
                let next = semantics::fold_expr(
                    scope,
                    memos.last(),
                    expressions[values.len() as int],
                    None,
                );
                next.out matches Err(stopped) ==> run == (Run {
                    memo: next.memo,
                    out: Err::<Seq<ConstantV>, Stopped>(stopped),
                })
            }
        }),
{
    lemma_arguments_from(scope, expressions, memos, values, 0);
    assert(values.take(0) =~= seq![]);
}

/// A call of `matrix`, `newlist` or `icon` remains a call of that function, and each of its
/// arguments is what that argument folds to.
pub proof fn law_constructor_calls(
    scope: Scope,
    ident: String,
    args: Vec<Expression>,
    hint: Option<PathV>,
    const_fn: ConstFn,
    memos: Seq<Memo>,
    values: Seq<ConstantV>,
)
    requires
        (const_fn is Matrix && ident@ == "matrix"@) || (const_fn is Newlist && ident@ == "newlist"@)
            || (const_fn is Icon && ident@ == "icon"@),
        memos.len() == values.len() + 1,
        values.len() <= args@.len(),
        forall|j: int|
            0 <= j < values.len() ==> semantics::fold_expr(
                scope,
                memos[j],
                args@[j],
                None,
            ) == (Run { memo: memos[j + 1], out: Ok(#[trigger] values[j]) }),
    ensures
        ({
            let run = semantics::fold_term(scope, memos[0], Term::Call(ident, args), hint);
            &&& values.len() == args@.len() ==> run == (Run {
                memo: memos.last(),
                out: Ok(ConstantV::Call(const_fn, values)),
            })
            &&& values.len() < args@.len() ==> {
                let next = semantics::fold_expr(
                    scope,
                    memos.last(),
                    args@[values.len() as int],
                    None,
                );
                next.out is Err ==> run == next
            }
        }),
{
    reveal_strlit("matrix");
    reveal_strlit("newlist");
    reveal_strlit("icon");
    assert("matrix"@[0] != "newlist"@[0]);
    assert("matrix"@[0] != "icon"@[0]);
    assert("newlist"@[0] != "icon"@[0]);
    law_arguments_in_order(scope, args@, memos, values);
    let all = semantics::fold_all(scope, memos[0], args@, seq![]);
    assert(all.out matches Ok(folded) ==> semantics::fold_term(
        scope,
        memos[0],
        Term::Call(ident, args),
        hint,
    ) == (Run { memo: all.memo, out: Ok(ConstantV::Call(const_fn, folded)) }));
    assert(all.out matches Err(stopped) ==> semantics::fold_term(
        scope,
        memos[0],
        Term::Call(ident, args),
        hint,
    ) == (Run { memo: all.memo, out: Err::<ConstantV, Stopped>(stopped) }));
}

/// The number that a hexadecimal digit stands for.
pub open spec fn digit_value(c: char) -> int {
    if '0' <= c <= '9' {
        c as int - '0' as int
    } else {
        10 + c as int - 'a' as int
    }
}

/// Whether two hexadecimal digits at a place of a text read as a number, kept between 0 and 255.
pub open spec fn shows(text: Seq<char>, at: int, n: i32) -> bool {
    &&& laws::is_hex_digit(text[at])
    &&& laws::is_hex_digit(text[at + 1])
    &&& 16 * digit_value(text[at]) + digit_value(text[at + 1]) == (if n < 0 {
        0
    } else if n > 255 {
        255
    } else {
        n as int
    })
}

pub proof fn lemma_hex_pair_reads_back(value: nat)
    requires
        value < 256,
    ensures
        text::hex_pair(value).len() == 2,
        laws::is_hex_digit(text::hex_pair(value)[0]),
        laws::is_hex_digit(text::hex_pair(value)[1]),
        16 * digit_value(text::hex_pair(value)[0]) + digit_value(text::hex_pair(value)[1]) == value,
{
    assert(value / 16 < 16 && value % 16 < 16);
    assert(value == 16 * (value / 16) + value % 16);
}

proof fn lemma_colour_from(
    scope: Scope,
    components: Seq<Expression>,
    text: Seq<char>,
    memos: Seq<Memo>,
    values: Seq<i32>,
    i: nat,
)
    requires
        memos.len() == values.len() + 1,
        i <= values.len() <= components.len(),
        forall|j: int|
            0 <= j < values.len() ==> semantics::fold_expr(
                scope,
                memos[j],
                components[j],
                None,
            ) == (Run { memo: memos[j + 1], out: Ok(ConstantV::Int(#[trigger] values[j])) }),
    ensures
        ({
            let run = semantics::fold_rgb(scope, memos[i as int], components, text, i);
            &&& values.len() == components.len() ==> {
                &&& run.memo == memos.last()
                &&& run.out matches Ok(ConstantV::String(result))
                &&& result.len() == text.len() + 2 * (components.len() - i)
                &&& text.is_prefix_of(result)
                &&& forall|j: int|
                    i <= j < components.len() ==> shows(
                        result,
                        text.len() + 2 * (j - i),
                        #[trigger] values[j],
                    )
            }
            &&& values.len() < components.len() ==> {
                let next = semantics::fold_expr(
                    scope,
                    memos.last(),
                    components[values.len() as int],
                    None,
                );
                &&& next.out is Err ==> run == next
                &&& next.out is Ok && next.out->Ok_0 !is Int ==> run == (Run {
                    memo: next.memo,
                    out: Err::<ConstantV, Stopped>(
                        Stopped {
                            failure: FailureV::Error(
                                ErrorV {
                                    location: scope.location,
                                    kind: ErrorKindV::MalformedRgb,
                                },
                            ),
                            open: scope.open,
                        },
                    ),
                })
            }
        }),
    decreases values.len() - i,
{
    if i < values.len() {
        let value = values[i as int];
        let clamped = semantics::clamped(value);
        let longer = text + text::hex_pair(clamped);
        assert(semantics::fold_expr(scope, memos[i as int], components[i as int], None) == (Run {
            memo: memos[i as int + 1],
            out: Ok(ConstantV::Int(value)),
        }));
        lemma_hex_pair_reads_back(clamped);
        lemma_colour_from(scope, components, longer, memos, values, i + 1);
        let run = semantics::fold_rgb(scope, memos[i as int], components, text, i);
        assert(run == semantics::fold_rgb(scope, memos[i as int + 1], components, longer, i + 1));
        if values.len() == components.len() {
            let result = run.out->Ok_0->String_0;
            assert forall|j: int| 0 <= j < longer.len() implies longer[j] == #[trigger] result[j] by {}
            assert(text.is_prefix_of(result)) by {
                assert(text =~= result.take(text.len() as int));
            }
            assert(result[text.len() as int] == text::hex_pair(clamped)[0]);
            assert(result[text.len() as int + 1] == text::hex_pair(clamped)[1]);
            assert forall|j: int| i <= j < components.len() implies shows(
                result,
                text.len() + 2 * (j - i),
                #[trigger] values[j],
            ) by {
                if j > i {
                    assert(shows(result, longer.len() + 2 * (j - (i + 1)), values[j]));
                }
            }
        }
    } else if values.len() < components.len() {
        let next = semantics::fold_expr(
            scope,
            memos.last(),
            components[values.len() as int],
            None,
        );
        let run = semantics::fold_rgb(scope, memos[i as int], components, text, i);
        assert(next.out is Err ==> run == next);
    }
}

/// A colour of three or four components is a hash sign and two hexadecimal digits for each, which
/// read as that component, kept between 0 and 255. A component that is no integer is refused, and
/// the first failure is the outcome.
pub proof fn law_colours(
    scope: Scope,
    ident: String,
    args: Vec<Expression>,
    hint: Option<PathV>,
    memos: Seq<Memo>,
    values: Seq<i32>,
)
    requires
        ident@ == "rgb"@,
        args@.len() == 3 || args@.len() == 4,
        memos.len() == values.len() + 1,
        values.len() <= args@.len(),
        forall|j: int|
            0 <= j < values.len() ==> semantics::fold_expr(
                scope,
                memos[j],
                args@[j],
                None,
            ) == (Run { memo: memos[j + 1], out: Ok(ConstantV::Int(#[trigger] values[j])) }),
    ensures
        ({
            let run = semantics::fold_term(scope, memos[0], Term::Call(ident, args), hint);
            &&& values.len() == args@.len() ==> {
                &&& run.memo == memos.last()
                &&& run.out matches Ok(ConstantV::String(result))
                &&& result.len() == 1 + 2 * args@.len()
                &&& result[0] == '#'
                &&& forall|j: int|
                    0 <= j < args@.len() ==> shows(result, 1 + 2 * j, #[trigger] values[j])
            }
            &&& values.len() < args@.len() ==> {
                let next = semantics::fold_expr(
                    scope,
                    memos.last(),
                    args@[values.len() as int],
                    None,
                );
                &&& next.out is Err ==> run == next
                &&& next.out is Ok && next.out->Ok_0 !is Int ==> run == (Run {
                    memo: next.memo,
                    out: Err::<ConstantV, Stopped>(
                        Stopped {
                            failure: FailureV::Error(
                                ErrorV {
                                    location: scope.location,
                                    kind: ErrorKindV::MalformedRgb,
                                },
                            ),
                            open: scope.open,
                        },
                    ),
                })
            }
        }),
{
    reveal_strlit("rgb");
    reveal_strlit("matrix");
    reveal_strlit("newlist");
    reveal_strlit("icon");
    reveal_strlit("#");
    assert("rgb"@[0] != "matrix"@[0]);
    assert("rgb"@[0] != "newlist"@[0]);
    assert("rgb"@[0] != "icon"@[0]);
    lemma_colour_from(scope, args@, "#"@, memos, values, 0);
    let run = semantics::fold_term(scope, memos[0], Term::Call(ident, args), hint);
    assert(run == semantics::fold_rgb(scope, memos[0], args@, "#"@, 0));
    if values.len() == args@.len() {
        let result = run.out->Ok_0->String_0;
        assert(result[0] == "#"@[0]);
        assert forall|j: int| 0 <= j < args@.len() implies shows(
            result,
            1 + 2 * j,
            #[trigger] values[j],
        ) by {
            assert(shows(result, "#"@.len() + 2 * (j - 0), values[j]));
        }
    }
}

/// A colour of any other number of components is refused, and so is every other function; no
/// argument is looked at.
pub proof fn law_calls_refused(
    scope: Scope,
    memo: Memo,
    ident: String,
    args: Vec<Expression>,
    hint: Option<PathV>,
)
    requires
        ident@ != "matrix"@,
        ident@ != "newlist"@,
        ident@ != "icon"@,
        ident@ == "rgb"@ ==> args@.len() != 3 && args@.len() != 4,
    ensures
        semantics::fold_term(scope, memo, Term::Call(ident, args), hint) == (Run {
            memo,
            out: Err::<ConstantV, Stopped>(
                Stopped {
                    failure: FailureV::Error(
                        ErrorV {
                            location: scope.location,
                            kind: if ident@ == "rgb"@ {
                                ErrorKindV::MalformedRgb
                            } else {
                                ErrorKindV::FunctionCall(ident@)
                            },
                        },
                    ),
                    open: scope.open,
                },
            ),
        }),
{
}

/// An identifier, in parentheses or not, stands for its name where a list expects a key; no other
/// expression does.
pub proof fn law_bare_identifiers(
    unary: Vec<UnaryOp>,
    term: Term,
    follow: Vec<Follow>,
    other: Expression,
)
    ensures
        unary@.len() > 0 || follow@.len() > 0 ==> semantics::bare_ident(
            Expression::Base { unary, term, follow },
        ) is None,
        unary@.len() == 0 && follow@.len() == 0 ==> semantics::bare_ident(
            Expression::Base { unary, term, follow },
        ) == (match term {
            Term::Ident(ident) => Some(ident@),
            Term::Expr(inner) => semantics::bare_ident(*inner),
            _ => None,
        }),
        other !is Base ==> semantics::bare_ident(other) is None,
{
}

/// A key that is an identifier is taken as text, which is noted; any other key is folded.
pub proof fn law_list_keys(scope: Scope, memo: Memo, key: Expression, hint: Option<PathV>)
    ensures
        match semantics::bare_ident(key) {
            Some(ident) => semantics::fold_key(scope, memo, key, hint) == (Run {
                memo: Memo {
                    values: memo.values,
                    notes: memo.notes.push(NoteV::IdentAsListKey(ident)),
                },
                out: Ok(ConstantV::String(ident)),
            }),
            None => semantics::fold_key(scope, memo, key, hint) == semantics::fold_expr(
                scope,
                memo,
                key,
                hint,
            ),
        },
{
}

/// Whether an item folds to a pair of constants, which takes what is known from one memo to
/// another: one without a value to what its key folds to, one with a value to what its key and
/// then its value fold to.
pub open spec fn item_folds(
    scope: Scope,
    before: Memo,
    item: (Expression, Option<Expression>),
    hint: Option<PathV>,
    middle: Memo,
    value: (ConstantV, Option<ConstantV>),
    after: Memo,
) -> bool {
    match (item.1, value.1) {
        (None, None) => semantics::fold_expr(scope, before, item.0, hint) == (Run {
            memo: after,
            out: Ok(value.0),
        }),
        (Some(expression), Some(inner)) => {
            &&& semantics::fold_key(scope, before, item.0, hint) == (Run {
                memo: middle,
                out: Ok(value.0),
            })
            &&& semantics::fold_expr(scope, middle, expression, hint) == (Run {
                memo: after,
                out: Ok(inner),
            })
        },
        _ => false,
    }
}

proof fn lemma_items_from(
    scope: Scope,
    items: Seq<(Expression, Option<Expression>)>,
    hint: Option<PathV>,
    memos: Seq<Memo>,
    middles: Seq<Memo>,
    values: Seq<(ConstantV, Option<ConstantV>)>,
    i: nat,
)
    requires
        memos.len() == values.len() + 1,
        middles.len() == values.len(),
        i <= values.len() <= items.len(),
        forall|j: int|
            0 <= j < values.len() ==> item_folds(
                scope,
                memos[j],
                items[j],
                hint,
                middles[j],
                #[trigger] values[j],
                memos[j + 1],
            ),
    ensures
        ({
            let run = semantics::fold_items(
                scope,
                memos[i as int],
                items,
                hint,
                values.take(i as int),
            );
            &&& values.len() == items.len() ==> run == (Run {
                memo: memos.last(),
                out: Ok(values),
            })
            &&& values.len() < items.len() ==> {
                let (key, value) = items[values.len() as int];
                let first = match value {
                    Some(_) => semantics::fold_key(scope, memos.last(), key, hint),
                    None => semantics::fold_expr(scope, memos.last(), key, hint),
                };
                &&& first.out matches Err(stopped) ==> run == (Run {
                    memo: first.memo,
                    out: Err::<Seq<(ConstantV, Option<ConstantV>)>, Stopped>(stopped),
                })
                &&& first.out is Ok ==> (value matches Some(value) ==> {
                    let second = semantics::fold_expr(scope, first.memo, value, hint);
                    second.out matches Err(stopped) ==> run == (Run {
                        memo: second.memo,
                        out: Err::<Seq<(ConstantV, Option<ConstantV>)>, Stopped>(stopped),
                    })
                })
            }
        }),
    decreases values.len() - i,
{
    let folded = values.take(i as int);
    if i < values.len() {
        let value = values[i as int];
        assert(item_folds(
            scope,
            memos[i as int],
            items[i as int],
            hint,
            middles[i as int],
            value,
            memos[i as int + 1],
        ));
        assert(folded.push(value) =~= values.take(i as int + 1));
        match (items[i as int].1, value.1) {
            (Some(expression), Some(inner)) => {
                assert((value.0, Some(inner)) == value);
                let left = semantics::fold_key(scope, memos[i as int], items[i as int].0, hint);
                let right = semantics::fold_expr(scope, left.memo, expression, hint);
                assert(right.out == Ok::<ConstantV, Stopped>(inner));
            },
            _ => {
                assert((value.0, None::<ConstantV>) == value);
                let left = semantics::fold_expr(scope, memos[i as int], items[i as int].0, hint);
                assert(left.out == Ok::<ConstantV, Stopped>(value.0));
            },
        }
        lemma_items_from(scope, items, hint, memos, middles, values, i + 1);
    } else {
        assert(folded =~= values);
        if values.len() < items.len() {
            let (key, value) = items[values.len() as int];
            match value {
                Some(value) => {
                    let first = semantics::fold_key(scope, memos.last(), key, hint);
                    let second = semantics::fold_expr(scope, first.memo, value, hint);
                },
                None => {
                    let first = semantics::fold_expr(scope, memos.last(), key, hint);
                },
            }
        }
    }
}

/// The items of a list are folded one after the other, each with what is known by then: if the
/// `values` are what the items fold to, in order, then they are the outcome, one for each item;
/// or the first failure is.
pub proof fn law_items_in_order(
    scope: Scope,
    items: Seq<(Expression, Option<Expression>)>,
    hint: Option<PathV>,
    memos: Seq<Memo>,
    middles: Seq<Memo>,
    values: Seq<(ConstantV, Option<ConstantV>)>,
)
    requires
        memos.len() == values.len() + 1,
        middles.len() == values.len(),
        values.len() <= items.len(),
        forall|j: int|
            0 <= j < values.len() ==> item_folds(
                scope,
                memos[j],
                items[j],
                hint,
                middles[j],
                #[trigger] values[j],
                memos[j + 1],
            ),
    ensures
        ({
            let run = semantics::fold_items(scope, memos[0], items, hint, seq![]);
            &&& values.len() == items.len() ==> run == (Run {
                memo: memos.last(),
                out: Ok(values),
            })
            &&& values.len() < items.len() ==> {
                let (key, value) = items[values.len() as int];
                let first = match value {
                    Some(_) => semantics::fold_key(scope, memos.last(), key, hint),
                    None => semantics::fold_expr(scope, memos.last(), key, hint),
                };
                &&& first.out matches Err(stopped) ==> run == (Run {
                    memo: first.memo,
                    out: Err::<Seq<(ConstantV, Option<ConstantV>)>, Stopped>(stopped),
                })
                &&& first.out is Ok ==> (value matches Some(value) ==> {
                    let second = semantics::fold_expr(scope, first.memo, value, hint);
                    second.out matches Err(stopped) ==> run == (Run {
                        memo: second.memo,
                        out: Err::<Seq<(ConstantV, Option<ConstantV>)>, Stopped>(stopped),
                    })
                })
            }
        }),
{
    lemma_items_from(scope, items, hint, memos, middles, values, 0);
    assert(values.take(0) =~= seq![]);
}

/// A list folds to the list of what its items fold to. Where the path of a list type is expected
/// of it, what comes after `list` in that path is expected of the items, and otherwise nothing.
pub proof fn law_lists(
    scope: Scope,
    items: Vec<(Expression, Option<Expression>)>,
    hint: Option<PathV>,
    element: Option<PathV>,
    memos: Seq<Memo>,
    middles: Seq<Memo>,
    values: Seq<(ConstantV, Option<ConstantV>)>,
)
    requires
        match hint {
            Some(path) => if path.len() > 0 && path[0].1 == "list"@ {
                element == Some(path.skip(1))
            } else {
                element is None
            },
            None => element is None,
        },
        memos.len() == values.len() + 1,
        middles.len() == values.len(),
        values.len() <= items@.len(),
        forall|j: int|
            0 <= j < values.len() ==> item_folds(
                scope,
                memos[j],
                items@[j],
                element,
                middles[j],
                #[trigger] values[j],
                memos[j + 1],
            ),
    ensures
        ({
            let run = semantics::fold_term(scope, memos[0], Term::List(items), hint);
            &&& values.len() == items@.len() ==> run == (Run {
                memo: memos.last(),
                out: Ok(ConstantV::List(values)),
            })
            &&& values.len() < items@.len() ==> {
                let (key, value) = items@[values.len() as int];
                let first = match value {
                    Some(_) => semantics::fold_key(scope, memos.last(), key, element),
                    None => semantics::fold_expr(scope, memos.last(), key, element),
                };
                &&& first.out is Err ==> run == first
                &&& first.out is Ok ==> (value matches Some(value) ==> {
                    let second = semantics::fold_expr(scope, first.memo, value, element);
                    second.out is Err ==> run == second
                })
            }
        }),
{
    law_items_in_order(scope, items@, element, memos, middles, values);
    let run = semantics::fold_term(scope, memos[0], Term::List(items), hint);
    let all = semantics::fold_items(scope, memos[0], items@, element, seq![]);
    assert(all.out matches Ok(folded) ==> run == (Run {
        memo: all.memo,
        out: Ok(ConstantV::List(folded)),
    }));
    assert(all.out matches Err(stopped) ==> run == (Run { memo: all.memo, out: Err::<ConstantV, Stopped>(stopped) }));
}

/// The constant that a literal stands for.
pub open spec fn literal(expression: Expression) -> Option<ConstantV> {
    match expression {
        Expression::Base { unary, term, follow } => if unary@.len() == 0 && follow@.len() == 0 {
            match term {
                Term::Int(n) => Some(ConstantV::Int(n)),
                Term::String(text) => Some(ConstantV::String(text@)),
                Term::Resource(name) => Some(ConstantV::Resource(name@)),
                _ => None,
            }
        } else {
            None
        },
        _ => None,
    }
}

proof fn lemma_literal(scope: Scope, memo: Memo, expression: Expression, hint: Option<PathV>)
    requires
        literal(expression) is Some,
    ensures
        semantics::fold_expr(scope, memo, expression, hint) == (Run {
            memo,
            out: Ok(literal(expression)->0),
        }),
        semantics::fold_key(scope, memo, expression, hint) == (Run {
            memo,
            out: Ok(literal(expression)->0),
        }),
{
    match expression {
        Expression::Base { unary, term, follow } => {
            laws::expressions::law_bare_terms(scope, memo, unary, term, follow, hint);
        },
        _ => {},
    }
}

/// A list of literals, as keys and as values, folds to the list of those literals in their order,
/// whatever is expected, and nothing changes.
pub proof fn law_lists_of_literals(
    scope: Scope,
    memo: Memo,
    items: Vec<(Expression, Option<Expression>)>,
    hint: Option<PathV>,
)
    requires
        forall|j: int|
            0 <= j < items@.len() ==> literal((#[trigger] items@[j]).0) is Some && (
            items@[j].1 matches Some(value) ==> literal(value) is Some),
    ensures
        ({
            let run = semantics::fold_term(scope, memo, Term::List(items), hint);
            &&& run.memo == memo
            &&& run.out matches Ok(ConstantV::List(values))
            &&& values.len() == items@.len()
            &&& forall|j: int|
                0 <= j < items@.len() ==> {
                    &&& literal((#[trigger] items@[j]).0) == Some(values[j].0)
                    &&& match items@[j].1 {
                        Some(value) => literal(value) == values[j].1,
                        None => values[j].1 is None,
                    }
                }
        }),
{
    let element = match hint {
        Some(path) => if path.len() > 0 && path[0].1 == "list"@ {
            Some(path.skip(1))
        } else {
            None
        },
        None => None,
    };
    let values = Seq::new(
        items@.len(),
        |j: int|
            (
                literal(items@[j].0)->0,
                match items@[j].1 {
                    Some(value) => Some(literal(value)->0),
                    None => None,
                },
            ),
    );
    let memos = Seq::new(items@.len() + 1, |j: int| memo);
    let middles = Seq::new(items@.len(), |j: int| memo);
    assert forall|j: int| 0 <= j < values.len() implies item_folds(
        scope,
        memos[j],
        items@[j],
        element,
        middles[j],
        #[trigger] values[j],
        memos[j + 1],
    ) by {
        lemma_literal(scope, memo, items@[j].0, element);
        if let Some(value) = items@[j].1 {
            lemma_literal(scope, memo, value, element);
        }
    }
    law_lists(scope, items, hint, element, memos, middles, values);
}

} // verus!
