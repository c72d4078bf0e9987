//! What prefabs and `new` expressions fold to, part by part.
use crate::ast::{Expression, NewType, Prefab, Term};
use crate::constant::{ConstantV, NewTypeV, PrefabV};
use crate::error::{ErrorKindV, ErrorV, FailureV};
use crate::laws;
use crate::laws::terms;
use crate::semantics;
use crate::semantics::{Memo, PathV, Run, Scope, Stopped};
use vstd::prelude::*;

verus! {

/// Overrides with the values that they fold to.
pub open spec fn named(
    vars: Seq<(String, Expression)>,
    values: Seq<ConstantV>,
) -> Seq<(Seq<char>, ConstantV)> {
    Seq::new(values.len(), |j: int| (vars[j].0@, values[j]))
}

proof fn lemma_overrides_from(
    scope: Scope,
    vars: Seq<(String, Expression)>,
    memos: Seq<Memo>,
    values: Seq<ConstantV>,
    i: nat,
)
    requires
        memos.len() == values.len() + 1,
        i <= values.len() <= vars.len(),
        forall|j: int, k: int|
            0 <= j < k < vars.len() ==> (#[trigger] vars[j]).0@ != (#[trigger] vars[k]).0@,
        forall|j: int|
            0 <= j < values.len() ==> semantics::fold_expr(
                scope,
                memos[j],
                vars[j].1,
                None,
            ) == (Run { memo: memos[j + 1], out: Ok(#[trigger] values[j]) }),
    ensures
        ({
            let run = semantics::fold_vars(
                scope,
                memos[i as int],
                vars,
                named(vars, values.take(i as int)),
                i,
            );
            &&& values.len() == vars.len() ==> run == (Run {
                memo: memos.last(),
                out: Ok(named(vars, values)),
            })
            &&& values.len() < vars.len() ==> {
                let next = semantics::fold_expr(
                    scope,
                    memos.last(),
                    vars[values.len() as int].1,
                    None,
                );
                next.out matches Err(stopped) ==> run == (Run {
                    memo: next.memo,
                    out: Err::<Seq<(Seq<char>, ConstantV)>, Stopped>(stopped),
                })
            }
        }),
    decreases values.len() - i,
{
    let folded = named(vars, values.take(i as int));
    if i < values.len() {
        let value = values[i as int];
        let name = vars[i as int].0@;
        assert(semantics::fold_expr(scope, memos[i as int], vars[i as int].1, None) == (Run {
            memo: memos[i as int + 1],
            out: Ok(value),
        }));
        assert forall|j: int| 0 <= j < folded.len() implies (#[trigger] folded[j]).0 != name by {
            assert(vars[j].0@ != vars[i as int].0@);
        }
        laws::lemma_placed_new(folded, name, value);
        assert(folded.push((name, value)) =~= named(vars, values.take(i as int + 1)));
        lemma_overrides_from(scope, vars, memos, values, i + 1);
    } else {
        assert(values.take(i as int) =~= values);
        if values.len() < vars.len() {
            let next = semantics::fold_expr(
                scope,
                memos.last(),
                vars[values.len() as int].1,
                None,
            );
        }
    }
}

/// A prefab folds to a prefab of the same path, whose overrides are, in their order, what each of
/// them folds to, under its name, where no name stands twice; or the first failure is the outcome.
pub proof fn law_prefabs(
    scope: Scope,
    prefab: Prefab<Expression>,
    memos: Seq<Memo>,
    values: Seq<ConstantV>,
)
    requires
        memos.len() == values.len() + 1,
        values.len() <= prefab.vars@.len(),
        forall|j: int, k: int|
            0 <= j < k < prefab.vars@.len() ==> (#[trigger] prefab.vars@[j]).0@ != (
            #[trigger] prefab.vars@[k]).0@,
        forall|j: int|
            0 <= j < values.len() ==> semantics::fold_expr(
                scope,
                memos[j],
                prefab.vars@[j].1,
                None,
            ) == (Run { memo: memos[j + 1], out: Ok(#[trigger] values[j]) }),
    ensures
        ({
            let run = semantics::fold_prefab(scope, memos[0], prefab);
            &&& values.len() == prefab.vars@.len() ==> {
                &&& run.memo == memos.last()
                &&& run.out matches Ok(folded)
                &&& folded.path.len() == prefab.path@.len()
                &&& forall|j: int|
                    0 <= j < prefab.path@.len() ==> #[trigger] folded.path[j] == (
                        prefab.path@[j].0,
                        prefab.path@[j].1@,
                    )
                &&& folded.vars.len() == prefab.vars@.len()
                &&& forall|j: int|
                    0 <= j < prefab.vars@.len() ==> #[trigger] folded.vars[j] == (
                        prefab.vars@[j].0@,
                        values[j],
                    )
            }
            &&& values.len() < prefab.vars@.len() ==> {
                let next = semantics::fold_expr(
                    scope,
                    memos.last(),
                    prefab.vars@[values.len() as int].1,
                    None,
                );
                next.out matches Err(stopped) ==> run == (Run {
                    memo: next.memo,
                    out: Err::<PrefabV<ConstantV>, Stopped>(stopped),
                })
            }
        }),
{
    lemma_overrides_from(scope, prefab.vars@, memos, values, 0);
    assert(named(prefab.vars@, values.take(0)) =~= seq![]);
    let all = semantics::fold_vars(scope, memos[0], prefab.vars@, seq![], 0);
    let run = semantics::fold_prefab(scope, memos[0], prefab);
    assert(run.memo == all.memo);
}

/// Among entries of which no two have the same name, one of the same name gives way, and the new
/// one is put last; the others keep their order.
pub proof fn law_placed_entries(
    entries: Seq<(Seq<char>, ConstantV)>,
    name: Seq<char>,
    value: ConstantV,
)
    requires
        semantics::distinct_names(entries),
    ensures
        (forall|k: int| 0 <= k < entries.len() ==> (#[trigger] entries[k]).0 != name)
            ==> semantics::placed(entries, name, value) == entries.push((name, value)),
        forall|k: int|
            0 <= k < entries.len() && (#[trigger] entries[k]).0 == name ==> semantics::placed(
                entries,
                name,
                value,
            ) == entries.remove(k).push((name, value)),
        semantics::distinct_names(semantics::placed(entries, name, value)),
{
    if forall|k: int| 0 <= k < entries.len() ==> (#[trigger] entries[k]).0 != name {
        laws::lemma_placed_new(entries, name, value);
    }
    assert forall|k: int|
        0 <= k < entries.len() && (#[trigger] entries[k]).0 == name implies semantics::placed(
        entries,
        name,
        value,
    ) == entries.remove(k).push((name, value)) by {
        lemma_placed_again(entries, name, value, k);
    }
    let after = semantics::placed(entries, name, value);
    if exists|k: int| 0 <= k < entries.len() && (#[trigger] entries[k]).0 == name {
        let k = choose|k: int| 0 <= k < entries.len() && (#[trigger] entries[k]).0 == name;
        assert(after == entries.remove(k).push((name, value)));
        assert forall|i: int, j: int| 0 <= i < j < after.len() implies (#[trigger] after[i]).0 != (
        #[trigger] after[j]).0 by {
            let from = |m: int| if m < k { m } else { m + 1 };
            assert(after[i] == entries[from(i)]);
            if j < after.len() - 1 {
                assert(after[j] == entries[from(j)]);
            } else {
                assert(entries[from(i)].0 != entries[k].0);
            }
        }
    } else {
        laws::lemma_placed_new(entries, name, value);
    }
}

proof fn lemma_placed_again(
    entries: Seq<(Seq<char>, ConstantV)>,
    name: Seq<char>,
    value: ConstantV,
    k: int,
)
    requires
        semantics::distinct_names(entries),
        0 <= k < entries.len(),
        entries[k].0 == name,
    ensures
        semantics::placed(entries, name, value) == entries.remove(k).push((name, value)),
{
    reveal(Seq::filter);
    let pred = semantics::other_than::<ConstantV>(name);
    let front = entries.take(k);
    let middle = seq![entries[k]];
    let behind = entries.skip(k + 1);
    assert(entries =~= front + middle + behind);
    Seq::filter_distributes_over_add(front + middle, behind, pred);
    Seq::filter_distributes_over_add(front, middle, pred);
    assert(middle.drop_last() =~= seq![]);
    laws::lemma_filter_all(middle.drop_last(), pred);
    assert(!pred(middle.last()));
    assert(middle.filter(pred) =~= seq![]);
    assert forall|j: int| 0 <= j < front.len() implies pred(#[trigger] front[j]) by {
        assert(entries[j].0 != entries[k].0);
    }
    assert forall|j: int| 0 <= j < behind.len() implies pred(#[trigger] behind[j]) by {
        assert(entries[k].0 != entries[k + 1 + j].0);
    }
    laws::lemma_filter_all(front, pred);
    laws::lemma_filter_all(behind, pred);
    assert(entries.remove(k) =~= front + behind);
    assert(entries.filter(pred) =~= front + behind);
}

proof fn lemma_one_more(
    scope: Scope,
    memo: Memo,
    vars: Seq<(String, Expression)>,
    added: (String, Expression),
    folded: Seq<(Seq<char>, ConstantV)>,
    i: nat,
)
    requires
        i <= vars.len(),
        semantics::distinct_names(folded),
    ensures
        ({
            let some = semantics::fold_vars(scope, memo, vars, folded, i);
            let more = semantics::fold_vars(scope, memo, vars.push(added), folded, i);
            match some.out {
                Err(_) => more == some,
                Ok(entries) => {
                    let next = semantics::fold_expr(scope, some.memo, added.1, None);
                    &&& semantics::distinct_names(entries)
                    &&& match next.out {
                        Err(stopped) => more == (Run {
                            memo: next.memo,
                            out: Err::<Seq<(Seq<char>, ConstantV)>, Stopped>(stopped),
                        }),
                        Ok(value) => more == (Run {
                            memo: next.memo,
                            out: Ok(semantics::placed(entries, added.0@, value)),
                        }),
                    }
                },
            }
        }),
    decreases vars.len() - i,
{
    let longer = vars.push(added);
    if i < vars.len() {
        let run = semantics::fold_expr(scope, memo, vars[i as int].1, None);
        assert(longer[i as int] == vars[i as int]);
        if let Ok(value) = run.out {
            let name = vars[i as int].0@;
            law_placed_entries(folded, name, value);
            lemma_one_more(
                scope,
                run.memo,
                vars,
                added,
                semantics::placed(folded, name, value),
                i + 1,
            );
        }
    } else {
        let next = semantics::fold_expr(scope, memo, added.1, None);
        assert(longer[i as int] == added);
        if let Ok(value) = next.out {
            let placed = semantics::placed(folded, added.0@, value);
            assert(semantics::fold_vars(scope, next.memo, longer, placed, i + 1) == (Run {
                memo: next.memo,
                out: Ok::<Seq<(Seq<char>, ConstantV)>, Stopped>(placed),
            }));
        }
    }
}

/// One override more is folded after the others, with what is known by then. It takes the place
/// of one of the same name, if there is one, and is put last; the others keep their values and
/// their order. This says what overrides fold to when a name stands several times.
pub proof fn law_one_more_override(
    scope: Scope,
    memo: Memo,
    vars: Seq<(String, Expression)>,
    name: String,
    expression: Expression,
)
    ensures
        ({
            let some = semantics::fold_vars(scope, memo, vars, seq![], 0);
            let more = semantics::fold_vars(scope, memo, vars.push((name, expression)), seq![], 0);
            match some.out {
                Err(_) => more == some,
                Ok(entries) => {
                    let next = semantics::fold_expr(scope, some.memo, expression, None);
                    &&& more.memo == next.memo
                    &&& match next.out {
                        Err(stopped) => more.out == Err::<Seq<(Seq<char>, ConstantV)>, Stopped>(
                            stopped,
                        ),
                        Ok(value) => more.out matches Ok(after) && {
                            &&& (forall|k: int|
                                0 <= k < entries.len() ==> (#[trigger] entries[k]).0 != name@)
                                ==> after == entries.push((name@, value))
                            &&& forall|k: int|
                                0 <= k < entries.len() && (#[trigger] entries[k]).0 == name@
                                    ==> after == entries.remove(k).push((name@, value))
                        },
                    }
                },
            }
        }),
{
    lemma_one_more(scope, memo, vars, (name, expression), seq![], 0);
    let some = semantics::fold_vars(scope, memo, vars, seq![], 0);
    if let Ok(entries) = some.out {
        let next = semantics::fold_expr(scope, some.memo, expression, None);
        if let Ok(value) = next.out {
            law_placed_entries(entries, name@, value);
        }
    }
}

/// A prefab has the overrides that its own fold to, and its path; where they fail, so does it.
pub proof fn law_prefab_overrides(scope: Scope, memo: Memo, prefab: Prefab<Expression>)
    ensures
        ({
            let run = semantics::fold_prefab(scope, memo, prefab);
            let all = semantics::fold_vars(scope, memo, prefab.vars@, seq![], 0);
            &&& run.memo == all.memo
            &&& match all.out {
                Ok(vars) => run.out matches Ok(folded) && folded.vars == vars && folded.path.len()
                    == prefab.path@.len() && forall|j: int|
                    0 <= j < prefab.path@.len() ==> #[trigger] folded.path[j] == (
                        prefab.path@[j].0,
                        prefab.path@[j].1@,
                    ),
                Err(stopped) => run.out == Err::<PrefabV<ConstantV>, Stopped>(stopped),
            }
        }),
{
}

/// A prefab that stands for itself folds to the prefab, and fails as it does.
pub proof fn law_prefab_terms(
    scope: Scope,
    memo: Memo,
    prefab: Prefab<Expression>,
    hint: Option<PathV>,
)
    ensures
        ({
            let run = semantics::fold_term(scope, memo, Term::Prefab(prefab), hint);
            let inner = semantics::fold_prefab(scope, memo, prefab);
            &&& run.memo == inner.memo
            &&& match inner.out {
                Ok(folded) => run.out == Ok::<ConstantV, Stopped>(ConstantV::Prefab(folded)),
                Err(stopped) => run.out == Err::<ConstantV, Stopped>(stopped),
            }
        }),
{
}

/// A `new` expression of a type that a variable holds is refused, and nothing in it is looked at.
pub proof fn law_new_of_a_variable(
    scope: Scope,
    memo: Memo,
    ident: String,
    args: Option<Vec<Expression>>,
    hint: Option<PathV>,
)
    ensures
        semantics::fold_term(
            scope,
            memo,
            Term::New { type_: NewType::Ident(ident), args },
            hint,
        ) == (Run {
            memo,
            out: Err::<ConstantV, Stopped>(
                Stopped {
                    failure: FailureV::Error(
                        ErrorV { location: scope.location, kind: ErrorKindV::NewExpression },
                    ),
                    open: scope.open,
                },
            ),
        }),
{
}

/// A `new` expression fails as its prefab does.
pub proof fn law_new_of_a_failing_prefab(
    scope: Scope,
    memo: Memo,
    prefab: Prefab<Expression>,
    args: Option<Vec<Expression>>,
    hint: Option<PathV>,
)
    ensures
        ({
            let inner = semantics::fold_prefab(scope, memo, prefab);
            inner.out matches Err(stopped) ==> semantics::fold_term(
                scope,
                memo,
                Term::New { type_: NewType::Prefab(prefab), args },
                hint,
            ) == (Run { memo: inner.memo, out: Err::<ConstantV, Stopped>(stopped) })
        }),
{
}

/// A `new` expression folds to one whose type is the folded type: none where none is given, and
/// otherwise what the prefab folds to.
pub open spec fn type_folds(
    scope: Scope,
    before: Memo,
    type_: NewType<Expression>,
    folded: NewTypeV<ConstantV>,
    after: Memo,
) -> bool {
    match (type_, folded) {
        (NewType::Implicit, NewTypeV::Implicit) => before == after,
        (NewType::Prefab(prefab), NewTypeV::Prefab(inner)) => semantics::fold_prefab(
            scope,
            before,
            prefab,
        ) == (Run { memo: after, out: Ok(inner) }),
        _ => false,
    }
}

/// A `new` expression without arguments folds to one without arguments, of the folded type.
pub proof fn law_new_without_arguments(
    scope: Scope,
    memo: Memo,
    type_: NewType<Expression>,
    folded: NewTypeV<ConstantV>,
    after: Memo,
    hint: Option<PathV>,
)
    requires
        type_folds(scope, memo, type_, folded, after),
    ensures
        semantics::fold_term(scope, memo, Term::New { type_, args: None }, hint) == (Run {
            memo: after,
            out: Ok(ConstantV::New { type_: folded, args: None }),
        }),
{
    if let NewType::Prefab(prefab) = type_ {
        let inner = semantics::fold_prefab(scope, memo, prefab);
        assert(inner.memo == after);
    }
}

/// A `new` expression with arguments folds to one of the folded type whose arguments are, in
/// their order, what each argument folds to; or the first failure is the outcome.
pub proof fn law_new_with_arguments(
    scope: Scope,
    memo: Memo,
    type_: NewType<Expression>,
    folded: NewTypeV<ConstantV>,
    args: Vec<Expression>,
    hint: Option<PathV>,
    memos: Seq<Memo>,
    values: Seq<ConstantV>,
)
    requires
        memos.len() == values.len() + 1,
        values.len() <= args@.len(),
        type_folds(scope, memo, type_, folded, memos[0]),
        forall|j: int|
            0 <= j < values.len() ==> semantics::fold_expr(
                scope,
                memos[j],
                args@[j],
                None,
            ) == (Run { memo: memos[j + 1], out: Ok(#[trigger] values[j]) }),
    ensures
        ({
            let run = semantics::fold_term(
                scope,
                memo,
                Term::New { type_, args: Some(args) },
                hint,
            );
            &&& values.len() == args@.len() ==> run == (Run {
                memo: memos.last(),
                out: Ok(ConstantV::New { type_: folded, args: Some(values) }),
            })
            &&& values.len() < args@.len() ==> {
                let next = semantics::fold_expr(
                    scope,
                    memos.last(),
                    args@[values.len() as int],
                    None,
                );
                next.out is Err ==> run == next
            }
        }),
{
    terms::law_arguments_in_order(scope, args@, memos, values);
    let all = semantics::fold_all(scope, memos[0], args@, seq![]);
    let run = semantics::fold_term(scope, memo, Term::New { type_, args: Some(args) }, hint);
    if let NewType::Prefab(prefab) = type_ {
        let inner = semantics::fold_prefab(scope, memo, prefab);
        assert(inner.memo == memos[0]);
    }
    assert(run.memo == all.memo);
    assert(all.out matches Ok(folded_args) ==> run.out == Ok::<ConstantV, Stopped>(
        ConstantV::New { type_: folded, args: Some(folded_args) },
    ));
}

} // verus!
