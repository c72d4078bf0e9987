//! What holds of folding as a whole.
use crate::ast;
use crate::ast::{Expression, Follow, Prefab, Term, UnaryOp};
use crate::constant::{ConstantV, FloatValue, NewTypeV, PrefabV};
use crate::equality;
use crate::equality::NumberEquality;
use crate::error::{ErrorKindV, FailureV, Location};
use crate::objtree::{ObjectTree, Parsed};
use crate::orderly;
use crate::semantics;
use crate::semantics::{Key, Memo, PathV, Program, Scope};
use crate::text;
use vstd::prelude::*;

pub mod contracts;
pub mod evaluation;
pub mod expressions;
pub mod lookups;
pub mod operators;
pub mod prefabs;
pub mod terms;
pub mod texts;
pub mod views;

verus! {

/// Folding an expression keeps the values that are known and the notes that were taken. It gives
/// values only to variables that can have one: those without an initialiser, which are null of
/// their declared type, and those that must be constant and are not open. Where it fails, what was
/// open is still open, what it opened is constant, has an initialiser and has no value, and the
/// error is reported at the place that the scope names, however deep it lies.
pub proof fn law_folding_is_orderly(
    scope: Scope,
    memo: Memo,
    expression: Expression,
    hint: Option<PathV>,
)
    requires
        orderly::in_tree(scope),
    ensures
        orderly::orderly(
            scope.program,
            scope.open,
            memo,
            semantics::fold_expr(scope, memo, expression, hint),
        ),
        orderly::reported_at(semantics::fold_expr(scope, memo, expression, hint), scope.location),
{
    orderly::lemma_expr(scope, memo, expression, hint);
}

/// Looking a variable up keeps what is known, as folding does. An error is reported at the
/// variable that was looked up, unless it is the parser's own.
pub proof fn law_lookup_is_orderly(
    program: Program,
    open: Set<Key>,
    memo: Memo,
    key: Key,
    must_be_static: bool,
)
    requires
        program.wf(),
        program.has(key),
    ensures
        ({
            let run = semantics::lookup(program, open, memo, key, must_be_static);
            &&& orderly::orderly(program, open, memo, run)
            &&& orderly::reported_at(run, program.var(key).location) || (match program.var(
                key,
            ).full_value {
                Some(full_value) => match full_value.parsed {
                    Parsed::Failed(error) => run.out->Err_0.failure == FailureV::Error(error@),
                    _ => false,
                },
                None => false,
            })
        }),
{
    orderly::lemma_lookup(program, open, memo, key, must_be_static);
    if !open.contains(key) {
        semantics::lemma_closed_count(program, open, key);
        let var = program.var(key);
        if let Some(full_value) = var.full_value {
            if let Parsed::Expression(expression) = full_value.parsed {
                let inside = Scope {
                    program,
                    open: open.insert(key),
                    location: var.location,
                    ty: key.0,
                };
                orderly::lemma_expr(
                    inside,
                    memo,
                    expression,
                    semantics::declared_hint(var.type_path),
                );
            }
        }
    }
}

/// Evaluating all variables keeps what is known, as folding does.
pub proof fn law_evaluation_is_orderly(
    program: Program,
    open: Set<Key>,
    memo: Memo,
    ty: int,
    i: int,
)
    requires
        program.wf(),
    ensures
        orderly::orderly(program, open, memo, semantics::sweep(program, open, memo, ty, i)),
    decreases program.types.len() - ty, program.types[ty].vars.len() - i,
{
    if 0 <= ty < program.types.len() {
        if !(0 <= i < program.types[ty].vars.len()) {
            law_evaluation_is_orderly(program, open, memo, ty + 1, 0);
        } else if !program.var((ty, i)).const_evaluable {
            law_evaluation_is_orderly(program, open, memo, ty, i + 1);
        } else {
            orderly::lemma_lookup(program, open, memo, (ty, i), false);
            let run = semantics::lookup(program, open, memo, (ty, i), false);
            if run.out is Ok {
                law_evaluation_is_orderly(program, open, run.memo, ty, i + 1);
                orderly::lemma_orderly_then(
                    program,
                    open,
                    memo,
                    run,
                    semantics::sweep(program, open, run.memo, ty, i + 1),
                );
            }
        }
    }
}

/// A value that is known is what a lookup gives, whoever asks, and nothing changes; only where a
/// static variable is asked for, the variable has to be one.
pub proof fn law_known_value(
    program: Program,
    open: Set<Key>,
    memo: Memo,
    key: Key,
    must_be_static: bool,
)
    requires
        memo.values.contains_key(key),
        must_be_static ==> program.var(key).is_static,
    ensures
        semantics::lookup(program, open, memo, key, must_be_static) == semantics::done(
            memo,
            memo.values[key],
        ),
{
}

/// What a lookup gave, it gives ever after: any later lookup of that variable, with more known or
/// other variables open, gives the same value and changes nothing. Only where the later one asks
/// for a static variable, the variable has to be one.
pub proof fn law_lookup_is_stable(
    program: Program,
    open: Set<Key>,
    memo: Memo,
    key: Key,
    must_be_static: bool,
    later_open: Set<Key>,
    later: Memo,
    later_static: bool,
)
    requires
        program.has(key),
        later_static ==> program.var(key).is_static,
        ({
            let run = semantics::lookup(program, open, memo, key, must_be_static);
            run.out is Ok && orderly::kept(run.memo, later)
        }),
    ensures
        ({
            let run = semantics::lookup(program, open, memo, key, must_be_static);
            semantics::lookup(program, later_open, later, key, later_static) == semantics::done(
                later,
                run.out->Ok_0,
            )
        }),
{
    let run = semantics::lookup(program, open, memo, key, must_be_static);
    assert(run.memo.values.dom().contains(key));
    assert(later.values.dom().contains(key));
}

/// Whether a variable stands at a place or after it, in the order of evaluation.
spec fn comes_after(key: Key, ty: int, i: int) -> bool {
    key.0 > ty || (key.0 == ty && key.1 >= i)
}

proof fn lemma_all_evaluated(program: Program, open: Set<Key>, memo: Memo, ty: int, i: int)
    requires
        program.wf(),
        0 <= ty,
        0 <= i,
        semantics::sweep(program, open, memo, ty, i).out is Ok,
    ensures
        forall|key: Key| #[trigger]
            program.has(key) && program.var(key).const_evaluable && comes_after(key, ty, i)
                ==> semantics::sweep(program, open, memo, ty, i).memo.values.contains_key(key),
    decreases program.types.len() - ty, program.types[ty].vars.len() - i,
{
    if ty < program.types.len() {
        if i >= program.types[ty].vars.len() {
            lemma_all_evaluated(program, open, memo, ty + 1, 0);
        } else if !program.var((ty, i)).const_evaluable {
            lemma_all_evaluated(program, open, memo, ty, i + 1);
        } else {
            let run = semantics::lookup(program, open, memo, (ty, i), false);
            lemma_all_evaluated(program, open, run.memo, ty, i + 1);
            law_evaluation_is_orderly(program, open, run.memo, ty, i + 1);
            assert(run.memo.values.dom().contains((ty, i)));
        }
    }
}

/// Where evaluation succeeds, every variable whose initialiser must be a constant has a value.
pub proof fn law_all_constants_get_values(program: Program, open: Set<Key>, memo: Memo, key: Key)
    requires
        program.wf(),
        program.has(key),
        program.var(key).const_evaluable,
        semantics::sweep(program, open, memo, 0, 0).out is Ok,
    ensures
        semantics::sweep(program, open, memo, 0, 0).memo.values.contains_key(key),
{
    lemma_all_evaluated(program, open, memo, 0, 0);
    assert(comes_after(key, 0, 0));
}

/// Whether a variable is evaluated before another.
pub open spec fn comes_before(key: Key, other: Key) -> bool {
    key.0 < other.0 || (key.0 == other.0 && key.1 < other.1)
}

/// Whether a variable is the first, in the order of evaluation, that must be constant and has no
/// value.
pub open spec fn first_unevaluated(program: Program, memo: Memo, key: Key) -> bool {
    &&& program.has(key)
    &&& program.var(key).const_evaluable
    &&& !memo.values.contains_key(key)
    &&& forall|other: Key| #[trigger]
        program.has(other) && program.var(other).const_evaluable && comes_before(other, key)
            ==> memo.values.contains_key(other)
}

proof fn lemma_stopped_at(program: Program, open: Set<Key>, memo: Memo, ty: int, i: int)
    requires
        program.wf(),
        0 <= ty,
        0 <= i,
        semantics::sweep(program, open, memo, ty, i).out is Err,
        forall|key: Key| #[trigger]
            program.has(key) && program.var(key).const_evaluable && comes_before(key, (ty, i))
                ==> memo.values.contains_key(key),
    ensures
        exists|key: Key|
            first_unevaluated(program, semantics::sweep(program, open, memo, ty, i).memo, key),
    decreases program.types.len() - ty, program.types[ty].vars.len() - i,
{
    if i >= program.types[ty].vars.len() {
        lemma_stopped_at(program, open, memo, ty + 1, 0);
    } else if !program.var((ty, i)).const_evaluable {
        lemma_stopped_at(program, open, memo, ty, i + 1);
    } else {
        let key = (ty, i);
        let run = semantics::lookup(program, open, memo, key, false);
        orderly::lemma_lookup(program, open, memo, key, false);
        assert forall|other: Key| #[trigger]
            program.has(other) && program.var(other).const_evaluable && comes_before(
                other,
                key,
            ) implies run.memo.values.contains_key(other) by {
            assert(memo.values.dom().contains(other));
        }
        if run.out is Ok {
            assert(run.memo.values.dom().contains(key));
            lemma_stopped_at(program, open, run.memo, ty, i + 1);
        } else {
            if !open.contains(key) {
                law_failed_stays_open(program, open, memo, key, false);
            }
            assert(first_unevaluated(program, run.memo, key));
        }
    }
}

/// Evaluation stops at the first variable that gets no value: where it fails, some variable that
/// must be constant has none, and all such variables before it have one.
pub proof fn law_failure_leaves_one_without_value(program: Program, open: Set<Key>, memo: Memo)
    requires
        program.wf(),
        semantics::sweep(program, open, memo, 0, 0).out is Err,
    ensures
        exists|key: Key|
            first_unevaluated(program, semantics::sweep(program, open, memo, 0, 0).memo, key),
{
    lemma_stopped_at(program, open, memo, 0, 0);
}

/// Evaluation succeeds exactly when it leaves every variable that must be constant with a value.
pub proof fn law_success_is_all_values(program: Program, open: Set<Key>, memo: Memo)
    requires
        program.wf(),
    ensures
        ({
            let run = semantics::sweep(program, open, memo, 0, 0);
            run.out is Ok <==> semantics::all_evaluated(program, run.memo)
        }),
{
    let run = semantics::sweep(program, open, memo, 0, 0);
    if run.out is Ok {
        assert forall|key: Key| #[trigger]
            program.has(key) && program.var(key).const_evaluable implies run.memo.values.contains_key(
            key,
        ) by {
            law_all_constants_get_values(program, open, memo, key);
        }
    } else {
        law_failure_leaves_one_without_value(program, open, memo);
        let key = choose|key: Key| first_unevaluated(program, run.memo, key);
        assert(program.has(key));
    }
}

/// Evaluating a tree succeeds exactly when it leaves every variable that must be constant with a
/// value.
pub proof fn law_evaluated_tree(before: ObjectTree, after: ObjectTree)
    requires
        before.wf(),
        after.follows(
            before,
            semantics::sweep(before.program(), before.open(), before.memo(), 0, 0),
        ),
    ensures
        semantics::sweep(before.program(), before.open(), before.memo(), 0, 0).out is Ok
            <==> after.evaluated(),
{
    law_success_is_all_values(before.program(), before.open(), before.memo());
    after.lemma_evaluated();
}

/// A variable that has a value before a tree is evaluated is the same after it, whether that
/// succeeds or fails.
pub proof fn law_known_variables_are_kept(before: ObjectTree, after: ObjectTree, at: (int, int))
    requires
        before.program().has(at),
        before.var(at).value is Some,
        after.follows(
            before,
            semantics::sweep(before.program(), before.open(), before.memo(), 0, 0),
        ),
    ensures
        after.var(at) == before.var(at),
{
}

/// Evaluating a tree that has been evaluated succeeds, changes nothing, and meets no arithmetic.
pub proof fn law_evaluated_tree_is_left_alone(tree: ObjectTree)
    requires
        tree.evaluated(),
    ensures
        semantics::sweep(tree.program(), tree.open(), tree.memo(), 0, 0) == semantics::done(
            tree.memo(),
            (),
        ),
        !semantics::overflows(tree.program(), tree.open(), tree.memo()),
{
    tree.lemma_evaluated();
    lemma_nothing_left(tree.program(), tree.open(), tree.memo(), 0, 0);
}

/// No variable is left marked by an evaluation that succeeds, if none was marked before.
pub proof fn law_no_mark_is_left(before: ObjectTree, after: ObjectTree)
    requires
        before.unmarked(),
        ({
            let run = semantics::sweep(before.program(), before.open(), before.memo(), 0, 0);
            run.out is Ok && after.follows(before, run)
        }),
    ensures
        after.unmarked(),
{
    assert forall|at: (int, int)| #[trigger] after.program().has(at) implies !after.var(
        at,
    ).being_evaluated by {
        assert(before.program().has(at));
    }
}

proof fn lemma_nothing_left(program: Program, open: Set<Key>, memo: Memo, ty: int, i: int)
    requires
        0 <= ty,
        0 <= i,
        semantics::all_evaluated(program, memo),
    ensures
        semantics::sweep(program, open, memo, ty, i) == semantics::done(memo, ()),
    decreases program.types.len() - ty, program.types[ty].vars.len() - i,
{
    if ty < program.types.len() {
        if i >= program.types[ty].vars.len() {
            lemma_nothing_left(program, open, memo, ty + 1, 0);
        } else {
            assert(program.has((ty, i)));
            lemma_nothing_left(program, open, memo, ty, i + 1);
        }
    }
}

/// Evaluating all variables once more, after it succeeded, succeeds and changes nothing.
pub proof fn law_evaluation_is_idempotent(
    program: Program,
    open: Set<Key>,
    memo: Memo,
    later_open: Set<Key>,
)
    requires
        program.wf(),
        semantics::sweep(program, open, memo, 0, 0).out is Ok,
    ensures
        ({
            let after = semantics::sweep(program, open, memo, 0, 0).memo;
            semantics::sweep(program, later_open, after, 0, 0) == semantics::done(after, ())
        }),
{
    let after = semantics::sweep(program, open, memo, 0, 0).memo;
    law_success_is_all_values(program, open, memo);
    lemma_nothing_left(program, later_open, after, 0, 0);
}

/// Meeting a variable again while its value is being worked out is refused, and nothing changes.
pub proof fn law_recursive_reference(
    program: Program,
    open: Set<Key>,
    memo: Memo,
    key: Key,
    must_be_static: bool,
)
    requires
        open.contains(key),
        !memo.values.contains_key(key),
        program.var(key).full_value is Some,
    ensures
        ({
            let run = semantics::lookup(program, open, memo, key, must_be_static);
            &&& run.memo == memo
            &&& run.out matches Err(stopped)
            &&& stopped.failure == semantics::error_at(
                program.var(key).location,
                ErrorKindV::RecursiveReference(program.name(key)),
            )
            &&& stopped.open == open
        }),
{
}

/// A variable that is set to nothing but its own name is refused, and left open.
pub proof fn law_self_reference(
    program: Program,
    open: Set<Key>,
    memo: Memo,
    key: Key,
    expression: Expression,
    must_be_static: bool,
)
    requires
        program.wf(),
        program.has(key),
        program.name(key) != "null"@,
        !memo.values.contains_key(key),
        !open.contains(key),
        program.var(key).const_evaluable,
        must_be_static ==> program.var(key).is_static,
        program.var(key).full_value matches Some(full_value)
            && full_value.parsed == Parsed::Expression(expression),
        expression matches Expression::Base { unary, term, follow } && unary@.len() == 0
            && follow@.len() == 0 && (term matches Term::Ident(ident) && ident@ == program.name(key)),
    ensures
        semantics::lookup(program, open, memo, key, must_be_static).out matches Err(stopped)
            && stopped.failure == semantics::error_at(
            program.var(key).location,
            ErrorKindV::RecursiveReference(program.name(key)),
        ) && stopped.open == open.insert(key),
{
    let var = program.var(key);
    let hint = semantics::declared_hint(var.type_path);
    let inside = Scope { program, open: open.insert(key), location: var.location, ty: key.0 };
    let limit = program.types.len();
    semantics::lemma_closed_count(program, open, key);
    assert(program.rooted(key.0, limit));
    assert(semantics::distinct_names(program.types[key.0].vars));
    assert(semantics::is_first_named(program.types[key.0].vars, program.name(key), key.1));
    semantics::lemma_find(program.types[key.0].vars, program.name(key), key.1);
    assert(program.owner(key.0, program.name(key), limit) == Some(key));
    match expression {
        Expression::Base { unary, term, follow } => {
            let run = semantics::fold_term(inside, memo, term, hint);
            assert(run == semantics::search(inside, memo, key.0, program.name(key), false));
            assert(run.out is Err);
            assert(semantics::fold_expr(inside, memo, expression, hint) == run);
        },
        _ => {},
    }
}

/// A variable whose initialiser fails has no value and stays open, so that it is refused as
/// recursive from then on.
pub proof fn law_failed_stays_open(
    program: Program,
    open: Set<Key>,
    memo: Memo,
    key: Key,
    must_be_static: bool,
)
    requires
        program.wf(),
        program.has(key),
        !memo.values.contains_key(key),
        !open.contains(key),
        program.var(key).full_value is Some,
        program.var(key).const_evaluable,
        must_be_static ==> program.var(key).is_static,
        semantics::lookup(program, open, memo, key, must_be_static).out is Err,
    ensures
        ({
            let run = semantics::lookup(program, open, memo, key, must_be_static);
            let again = semantics::lookup(
                program,
                run.out->Err_0.open,
                run.memo,
                key,
                must_be_static,
            );
            &&& run.out->Err_0.open.contains(key)
            &&& !run.memo.values.contains_key(key)
            &&& again.out matches Err(stopped)
            &&& stopped.failure == semantics::error_at(
                program.var(key).location,
                ErrorKindV::RecursiveReference(program.name(key)),
            )
        }),
{
    let var = program.var(key);
    let inside = Scope { program, open: open.insert(key), location: var.location, ty: key.0 };
    semantics::lemma_closed_count(program, open, key);
    if let Some(full_value) = var.full_value {
        orderly::lemma_full_value(
            inside,
            memo,
            full_value,
            semantics::declared_hint(var.type_path),
        );
        let run = semantics::lookup(program, open, memo, key, must_be_static);
        assert(inside.open.contains(key));
        assert(!orderly::can_be_evaluated(program, inside.open, key));
        assert(!run.memo.values.contains_key(key));
    }
}

/// A variable that need not be constant is refused, as long as it has no value, and is not
/// marked as being evaluated.
pub proof fn law_non_const_is_refused(
    program: Program,
    open: Set<Key>,
    memo: Memo,
    key: Key,
    must_be_static: bool,
)
    requires
        !memo.values.contains_key(key),
        !open.contains(key),
        program.var(key).full_value is Some,
        !program.var(key).const_evaluable,
    ensures
        ({
            let run = semantics::lookup(program, open, memo, key, must_be_static);
            &&& run.memo == memo
            &&& run.out matches Err(stopped)
            &&& stopped.failure == semantics::error_at(
                program.var(key).location,
                ErrorKindV::NonConstVariable(program.name(key)),
            )
            &&& stopped.open == open
        }),
{
}

/// Where only static variables are looked up, one that is not static is refused, and nothing
/// changes: neither a value that is known nor the initialiser is looked at. The error says so,
/// unless the initialiser would be refused anyway.
pub proof fn law_non_static_is_refused(program: Program, open: Set<Key>, memo: Memo, key: Key)
    requires
        !program.var(key).is_static,
    ensures
        ({
            let var = program.var(key);
            let run = semantics::lookup(program, open, memo, key, true);
            let unfolded = var.full_value is Some && !memo.values.contains_key(key);
            &&& run.memo == memo
            &&& run.out matches Err(stopped)
            &&& stopped.open == open
            &&& stopped.failure == semantics::error_at(
                var.location,
                if unfolded && open.contains(key) {
                    ErrorKindV::RecursiveReference(program.name(key))
                } else if unfolded && !var.const_evaluable {
                    ErrorKindV::NonConstVariable(program.name(key))
                } else {
                    ErrorKindV::NonStaticVariable(program.name(key))
                },
            )
        }),
{
}

/// A field of a value that is only known by its type is looked up among static variables, but not
/// non-static ones: one whose nearest declaration is not static is refused where it is asked for,
/// and no value changes.
pub proof fn law_fields_are_static(
    scope: Scope,
    memo: Memo,
    hint: PathV,
    ty: int,
    name: String,
    key: Key,
)
    requires
        scope.program.type_at(semantics::listed_path(hint)) == Some(ty),
        scope.program.owner(ty, name@, scope.program.types.len()) == Some(key),
        !scope.program.var(key).is_static,
    ensures
        ({
            let run = semantics::fold_follow(
                scope,
                memo,
                ConstantV::Null(Some(hint)),
                Follow::Field(name),
            );
            &&& run.memo.values == memo.values
            &&& run.out matches Err(stopped)
            &&& stopped.open == scope.open
            &&& stopped.failure matches FailureV::Error(error)
            &&& error.location == scope.location
        }),
{
}

/// A variable that nothing was assigned to is null, of the type that it was declared with; only
/// where a static variable is asked for, it has to be one.
pub proof fn law_uninitialised_is_null(
    program: Program,
    open: Set<Key>,
    memo: Memo,
    key: Key,
    must_be_static: bool,
)
    requires
        !memo.values.contains_key(key),
        program.var(key).full_value is None,
        must_be_static ==> program.var(key).is_static,
    ensures
        ({
            let value = ConstantV::Null(semantics::declared_hint(program.var(key).type_path));
            semantics::lookup(program, open, memo, key, must_be_static) == semantics::done(
                memo.with_value(key, value),
                value,
            )
        }),
{
}

/// A variable that is open, or that need not be constant, has no value after folding that it did
/// not have before, unless it has no initialiser.
pub proof fn law_no_value_for_others(
    scope: Scope,
    memo: Memo,
    expression: Expression,
    hint: Option<PathV>,
    key: Key,
)
    requires
        orderly::in_tree(scope),
        !memo.values.contains_key(key),
        scope.program.var(key).full_value is Some,
        scope.open.contains(key) || !scope.program.var(key).const_evaluable,
    ensures
        !semantics::fold_expr(scope, memo, expression, hint).memo.values.contains_key(key),
{
    orderly::lemma_expr(scope, memo, expression, hint);
}

/// A type's own declaration of a name comes before those of its ancestors.
pub proof fn law_own_declaration_first(program: Program, key: Key)
    requires
        program.wf(),
        program.has(key),
    ensures
        program.owner(key.0, program.name(key), program.types.len()) == Some(key),
{
    assert(semantics::distinct_names(program.types[key.0].vars));
    assert(semantics::is_first_named(program.types[key.0].vars, program.name(key), key.1));
    semantics::lemma_find(program.types[key.0].vars, program.name(key), key.1);
}

proof fn lemma_owner_limit(program: Program, ty: int, ident: Seq<char>, limit: nat, larger: nat)
    requires
        program.rooted(ty, limit),
        limit <= larger,
    ensures
        program.owner(ty, ident, limit) == program.owner(ty, ident, larger),
    decreases limit,
{
    if let Some(parent) = program.types[ty].parent {
        lemma_owner_limit(program, parent, ident, (limit - 1) as nat, (larger - 1) as nat);
    }
}

/// A name that a type does not declare stands in it for what it stands for in its parent, or for
/// nothing where there is no parent.
pub proof fn law_names_are_inherited(program: Program, ty: int, ident: Seq<char>)
    requires
        program.wf(),
        0 <= ty < program.types.len(),
        forall|i: int|
            0 <= i < program.types[ty].vars.len() ==> (#[trigger] program.types[ty].vars[i]).0
                != ident,
    ensures
        program.owner(ty, ident, program.types.len()) == (match program.types[ty].parent {
            Some(parent) => program.owner(parent, ident, program.types.len()),
            None => None,
        }),
{
    let limit = program.types.len();
    assert(program.rooted(ty, limit));
    assert(semantics::find(program.types[ty].vars, ident) is None);
    if let Some(parent) = program.types[ty].parent {
        lemma_owner_limit(program, parent, ident, (limit - 1) as nat, limit);
    }
}

/// A name that is found stands for a variable of that name; one that is not found is refused.
pub proof fn law_found_by_name(
    scope: Scope,
    memo: Memo,
    ty: int,
    ident: Seq<char>,
    must_be_static: bool,
)
    requires
        scope.program.wf(),
        0 <= ty < scope.program.types.len(),
    ensures
        match scope.program.owner(ty, ident, scope.program.types.len()) {
            Some(key) => scope.program.has(key) && scope.program.name(key) == ident,
            None => semantics::search(scope, memo, ty, ident, must_be_static).out matches Err(stopped)
                && stopped.failure == semantics::error_at(
                scope.location,
                ErrorKindV::UnknownVariable(ident),
            ),
        },
{
    assert(scope.program.rooted(ty, scope.program.types.len()));
    orderly::lemma_owner(scope.program, ty, ident, scope.program.types.len());
}

/// Parentheses do not matter: an expression in them folds as it does without.
pub proof fn law_parentheses_do_not_matter(
    scope: Scope,
    memo: Memo,
    expression: Expression,
    hint: Option<PathV>,
)
    requires
        expression matches Expression::Base { unary, term, follow } && unary@.len() == 0
            && follow@.len() == 0 && term is Expr,
    ensures
        expression matches Expression::Base { unary, term: Term::Expr(inner), follow }
            && semantics::fold_expr(scope, memo, expression, hint) == semantics::fold_expr(
            scope,
            memo,
            *inner,
            hint,
        ),
{
    match expression {
        Expression::Base { unary, term, follow } => {
            let run = semantics::fold_term(scope, memo, term, hint);
            if let Ok(value) = run.out {
                assert(semantics::fold_follows(scope, run.memo, value, follow@, 0)
                    == semantics::done(run.memo, value));
                assert(semantics::apply_unaries(scope.location, unary@, value) == Ok::<
                    ConstantV,
                    FailureV,
                >(value));
            }
        },
        _ => {},
    }
}

/// The name `null` is the literal `null`, whatever variables there are.
pub proof fn law_null_by_name(scope: Scope, memo: Memo, ident: String, hint: Option<PathV>)
    requires
        ident@ == "null"@,
    ensures
        semantics::fold_term(scope, memo, Term::Ident(ident), hint) == semantics::fold_term(
            scope,
            memo,
            Term::Null,
            hint,
        ),
{
}

/// Whether a character is a hexadecimal digit, in lower case.
pub open spec fn is_hex_digit(c: char) -> bool {
    '0' <= c <= '9' || 'a' <= c <= 'f'
}

proof fn lemma_rgb(
    scope: Scope,
    memo: Memo,
    components: Seq<Expression>,
    text: Seq<char>,
    i: nat,
)
    requires
        i <= components.len(),
    ensures
        semantics::fold_rgb(scope, memo, components, text, i).out matches Ok(value) ==> {
            &&& value matches ConstantV::String(result)
            &&& result.len() == text.len() + 2 * (components.len() - i)
            &&& text.is_prefix_of(result)
            &&& forall|j: int| text.len() <= j < result.len() ==> is_hex_digit(#[trigger] result[j])
        },
    decreases components.len() - i,
{
    if i < components.len() {
        let run = semantics::fold_expr(scope, memo, components[i as int], None);
        if let Ok(ConstantV::Int(value)) = run.out {
            let component = semantics::clamped(value);
            let longer = text + text::hex_pair(component);
            assert(component / 16 < 16 && component % 16 < 16);
            lemma_rgb(scope, run.memo, components, longer, i + 1);
            let rest = semantics::fold_rgb(scope, run.memo, components, longer, i + 1);
            if let Ok(ConstantV::String(result)) = rest.out {
                assert(text.is_prefix_of(longer));
                assert forall|j: int| text.len() <= j < longer.len() implies is_hex_digit(
                    #[trigger] result[j],
                ) by {
                    assert(result[j] == longer[j]);
                }
                assert forall|j: int| 0 <= j < text.len() implies text[j] == result[j] by {
                    assert(longer[j] == result[j]);
                }
            }
        }
    }
}

/// A colour is written as a hash sign and two hexadecimal digits for each of its three or four
/// components.
pub proof fn law_rgb_is_a_colour(
    scope: Scope,
    memo: Memo,
    ident: String,
    args: Vec<Expression>,
    hint: Option<PathV>,
)
    requires
        ident@ == "rgb"@,
        semantics::fold_term(scope, memo, Term::Call(ident, args), hint).out is Ok,
    ensures
        semantics::fold_term(scope, memo, Term::Call(ident, args), hint).out->Ok_0 matches
            ConstantV::String(result) && {
            &&& result.len() == 7 || result.len() == 9
            &&& result.len() == 1 + 2 * args@.len()
            &&& result[0] == '#'
            &&& forall|j: int| 1 <= j < result.len() ==> is_hex_digit(#[trigger] result[j])
        },
{
    reveal_strlit("rgb");
    reveal_strlit("matrix");
    reveal_strlit("newlist");
    reveal_strlit("icon");
    reveal_strlit("#");
    assert("rgb"@[0] != "matrix"@[0]);
    assert("rgb"@[0] != "newlist"@[0]);
    assert("rgb"@[0] != "icon"@[0]);
    lemma_rgb(scope, memo, args@, "#"@, 0);
    let result = semantics::fold_rgb(scope, memo, args@, "#"@, 0).out->Ok_0->String_0;
    assert(result[0] == "#"@[0]);
}

proof fn lemma_all_counted(
    scope: Scope,
    memo: Memo,
    expressions: Seq<Expression>,
    folded: Seq<ConstantV>,
)
    requires
        folded.len() <= expressions.len(),
    ensures
        semantics::fold_all(scope, memo, expressions, folded).out matches Ok(values)
            ==> values.len() == expressions.len(),
    decreases expressions.len() - folded.len(),
{
    if folded.len() < expressions.len() {
        let run = semantics::fold_expr(scope, memo, expressions[folded.len() as int], None);
        if let Ok(value) = run.out {
            lemma_all_counted(scope, run.memo, expressions, folded.push(value));
        }
    }
}

/// A call of a constructor remains a call of it, with as many arguments.
pub proof fn law_constructors_remain(
    scope: Scope,
    memo: Memo,
    ident: String,
    args: Vec<Expression>,
    hint: Option<PathV>,
)
    requires
        semantics::const_fn_named(ident@) is Some,
        semantics::fold_term(scope, memo, Term::Call(ident, args), hint).out is Ok,
    ensures
        semantics::fold_term(scope, memo, Term::Call(ident, args), hint).out->Ok_0 matches
            ConstantV::Call(const_fn, values) && Some(const_fn) == semantics::const_fn_named(ident@)
            && values.len() == args@.len(),
{
    lemma_all_counted(scope, memo, args@, seq![]);
}

proof fn lemma_items_shaped(
    scope: Scope,
    memo: Memo,
    items: Seq<(Expression, Option<Expression>)>,
    hint: Option<PathV>,
    folded: Seq<(ConstantV, Option<ConstantV>)>,
)
    requires
        folded.len() <= items.len(),
        forall|j: int|
            0 <= j < folded.len() ==> ((#[trigger] folded[j]).1 is Some <==> items[j].1 is Some),
    ensures
        semantics::fold_items(scope, memo, items, hint, folded).out matches Ok(values) ==> {
            &&& values.len() == items.len()
            &&& forall|j: int|
                0 <= j < items.len() ==> ((#[trigger] values[j]).1 is Some <==> items[j].1 is Some)
        },
    decreases items.len() - folded.len(),
{
    if folded.len() < items.len() {
        let (key, value) = items[folded.len() as int];
        match value {
            Some(value) => {
                let left = semantics::fold_key(scope, memo, key, hint);
                if let Ok(k) = left.out {
                    let right = semantics::fold_expr(scope, left.memo, value, hint);
                    if let Ok(v) = right.out {
                        lemma_items_shaped(
                            scope,
                            right.memo,
                            items,
                            hint,
                            folded.push((k, Some(v))),
                        );
                    }
                }
            },
            None => {
                let run = semantics::fold_expr(scope, memo, key, hint);
                if let Ok(k) = run.out {
                    lemma_items_shaped(scope, run.memo, items, hint, folded.push((k, None)));
                }
            },
        }
    }
}

/// A list keeps its length, and its items have values beside their keys where they had.
pub proof fn law_lists_keep_their_shape(
    scope: Scope,
    memo: Memo,
    items: Vec<(Expression, Option<Expression>)>,
    hint: Option<PathV>,
)
    requires
        semantics::fold_term(scope, memo, Term::List(items), hint).out is Ok,
    ensures
        semantics::fold_term(scope, memo, Term::List(items), hint).out->Ok_0 matches
            ConstantV::List(values) && {
            &&& values.len() == items@.len()
            &&& forall|j: int|
                0 <= j < items@.len() ==> ((#[trigger] values[j]).1 is Some <==> items@[j].1 is Some)
        },
{
    lemma_items_shaped(scope, memo, items@, semantics::element_hint(hint), seq![]);
}

/// A filter that lets every item through changes nothing.
proof fn lemma_filter_all<A>(items: Seq<A>, pred: spec_fn(A) -> bool)
    requires
        forall|j: int| 0 <= j < items.len() ==> pred(#[trigger] items[j]),
    ensures
        items.filter(pred) == items,
    decreases items.len(),
{
    reveal(Seq::filter);
    if items.len() > 0 {
        lemma_filter_all(items.drop_last(), pred);
        assert(pred(items[items.len() - 1]));
        assert(items.drop_last().push(items.last()) =~= items);
    }
}

/// An entry of a new name is put last, and nothing else changes.
proof fn lemma_placed_new(
    entries: Seq<(Seq<char>, ConstantV)>,
    name: Seq<char>,
    value: ConstantV,
)
    requires
        forall|j: int| 0 <= j < entries.len() ==> (#[trigger] entries[j]).0 != name,
    ensures
        semantics::placed(entries, name, value) == entries.push((name, value)),
{
    lemma_filter_all(entries, semantics::other_than(name));
}

proof fn lemma_vars_named(
    scope: Scope,
    memo: Memo,
    vars: Seq<(String, Expression)>,
    folded: Seq<(Seq<char>, ConstantV)>,
    i: nat,
)
    requires
        i <= vars.len(),
        folded.len() == i,
        forall|j: int| 0 <= j < i ==> (#[trigger] folded[j]).0 == vars[j].0@,
        forall|j: int, k: int|
            0 <= j < k < vars.len() ==> (#[trigger] vars[j]).0@ != (#[trigger] vars[k]).0@,
    ensures
        semantics::fold_vars(scope, memo, vars, folded, i).out matches Ok(values) ==> {
            &&& values.len() == vars.len()
            &&& forall|j: int| 0 <= j < vars.len() ==> (#[trigger] values[j]).0 == vars[j].0@
        },
    decreases vars.len() - i,
{
    if i < vars.len() {
        let run = semantics::fold_expr(scope, memo, vars[i as int].1, None);
        if let Ok(value) = run.out {
            assert forall|j: int| 0 <= j < folded.len() implies (#[trigger] folded[j]).0
                != vars[i as int].0@ by {
                assert(vars[j].0@ != vars[i as int].0@);
            }
            lemma_placed_new(folded, vars[i as int].0@, value);
            lemma_vars_named(
                scope,
                run.memo,
                vars,
                semantics::placed(folded, vars[i as int].0@, value),
                i + 1,
            );
        }
    }
}

/// A prefab keeps its path, and the names of its overrides in order, where no name stands twice.
pub proof fn law_prefabs_keep_their_names(scope: Scope, memo: Memo, prefab: Prefab<Expression>)
    requires
        forall|j: int, k: int|
            0 <= j < k < prefab.vars@.len() ==> (#[trigger] prefab.vars@[j]).0@ != (
            #[trigger] prefab.vars@[k]).0@,
        semantics::fold_prefab(scope, memo, prefab).out is Ok,
    ensures
        ({
            let folded = semantics::fold_prefab(scope, memo, prefab).out->Ok_0;
            &&& folded.path == ast::path_view(prefab.path@)
            &&& folded.vars.len() == prefab.vars@.len()
            &&& forall|j: int|
                0 <= j < prefab.vars@.len() ==> (#[trigger] folded.vars[j]).0
                    == prefab.vars@[j].0@
        }),
{
    lemma_vars_named(scope, memo, prefab.vars@, seq![], 0);
}

/// Negating an integer twice gives it back, unless the first negation overflows.
pub proof fn law_double_negation(location: Location, value: i32)
    requires
        value != i32::MIN,
    ensures
        semantics::apply_unaries(location, seq![UnaryOp::Neg, UnaryOp::Neg], ConstantV::Int(value))
            == Ok::<ConstantV, FailureV>(ConstantV::Int(value)),
{
    let twice = seq![UnaryOp::Neg, UnaryOp::Neg];
    reveal_with_fuel(semantics::apply_unaries, 3);
    assert(twice.drop_last() =~= seq![UnaryOp::Neg]);
    assert(twice.drop_last().drop_last() =~= seq![]);
}

/// Inverting the bits of an integer twice gives it back.
pub proof fn law_double_complement(location: Location, value: i32)
    ensures
        semantics::apply_unaries(
            location,
            seq![UnaryOp::BitNot, UnaryOp::BitNot],
            ConstantV::Int(value),
        ) == Ok::<ConstantV, FailureV>(ConstantV::Int(value)),
{
    let twice = seq![UnaryOp::BitNot, UnaryOp::BitNot];
    reveal_with_fuel(semantics::apply_unaries, 3);
    assert(twice.drop_last() =~= seq![UnaryOp::BitNot]);
    assert(twice.drop_last().drop_last() =~= seq![]);
}

/// Logical negation gives zero or one, and twice applied tells zero from all other integers.
pub proof fn law_double_not(location: Location, value: i32)
    ensures
        semantics::apply_unaries(location, seq![UnaryOp::Not, UnaryOp::Not], ConstantV::Int(value))
            == Ok::<ConstantV, FailureV>(
            ConstantV::Int(
                if value == 0 {
                    0
                } else {
                    1
                },
            ),
        ),
{
    let twice = seq![UnaryOp::Not, UnaryOp::Not];
    reveal_with_fuel(semantics::apply_unaries, 3);
    assert(twice.drop_last() =~= seq![UnaryOp::Not]);
    assert(twice.drop_last().drop_last() =~= seq![]);
}

/// Division rounds towards zero: what the quotient leaves over is smaller than the divisor, and
/// has the sign of the dividend unless it is zero.
pub proof fn law_division_rounds_towards_zero(lhs: int, rhs: int)
    requires
        rhs != 0,
    ensures
        ({
            let rest = lhs - semantics::quotient(lhs, rhs) * rhs;
            &&& semantics::magnitude(rest) < semantics::magnitude(rhs)
            &&& rest > 0 ==> lhs > 0
            &&& rest < 0 ==> lhs < 0
        }),
{
    let l = semantics::magnitude(lhs);
    let r = semantics::magnitude(rhs);
    let q = l / r;
    vstd::arithmetic::div_mod::lemma_fundamental_div_mod(l, r);
    vstd::arithmetic::div_mod::lemma_mod_bound(l, r);
    assert(r * q == q * r) by (nonlinear_arith);
    assert(q * -r == -(q * r)) by (nonlinear_arith);
    assert(-q * r == -(q * r)) by (nonlinear_arith);
    assert(-q * -r == q * r) by (nonlinear_arith);
}

/// A constant equals itself, and so every copy of it, if every number does; one that is not a
/// number does not.
pub proof fn law_equality_is_reflexive(
    value: ConstantV,
    eq: NumberEquality,
)
    requires
        forall|number: FloatValue| #[trigger] eq(number, number),
    ensures
        equality::same(value, value, eq),
    decreases value, 0nat,
{
    match value {
        ConstantV::New { type_, args } => {
            lemma_reflexive_new_type(type_, eq);
            if let Some(args) = args {
                lemma_reflexive_first(args, args.len(), eq);
                assert(equality::same_all(args, args, eq));
            }
        },
        ConstantV::List(items) => {
            lemma_reflexive_first_items(items, items.len(), eq);
            assert(equality::same_items(items, items, eq));
        },
        ConstantV::Call(_, args) => {
            lemma_reflexive_first(args, args.len(), eq);
            assert(equality::same_all(args, args, eq));
        },
        ConstantV::Prefab(prefab) => {
            lemma_reflexive_prefab(prefab, eq);
        },
        _ => {},
    }
}

proof fn lemma_reflexive_new_type(
    value: NewTypeV<ConstantV>,
    eq: NumberEquality,
)
    requires
        forall|number: FloatValue| #[trigger] eq(number, number),
    ensures
        equality::same_new_type(value, value, eq),
    decreases value, 0nat,
{
    if let NewTypeV::Prefab(prefab) = value {
        lemma_reflexive_prefab(prefab, eq);
    }
}

proof fn lemma_reflexive_prefab(
    value: PrefabV<ConstantV>,
    eq: NumberEquality,
)
    requires
        forall|number: FloatValue| #[trigger] eq(number, number),
    ensures
        equality::same_prefab(value, value, eq),
    decreases value, 0nat,
{
    lemma_reflexive_first_vars(value.vars, value.vars.len(), eq);
}

proof fn lemma_reflexive_item(
    value: (ConstantV, Option<ConstantV>),
    eq: NumberEquality,
)
    requires
        forall|number: FloatValue| #[trigger] eq(number, number),
    ensures
        equality::same_item(value, value, eq),
    decreases value, 0nat,
{
    law_equality_is_reflexive(value.0, eq);
    if let Some(inner) = value.1 {
        law_equality_is_reflexive(inner, eq);
    }
}

proof fn lemma_reflexive_first(
    value: Seq<ConstantV>,
    n: nat,
    eq: NumberEquality,
)
    requires
        forall|number: FloatValue| #[trigger] eq(number, number),
        n <= value.len(),
    ensures
        equality::same_first(value, value, n, eq),
    decreases value, n,
{
    if n > 0 {
        lemma_reflexive_first(value, (n - 1) as nat, eq);
        law_equality_is_reflexive(value[n - 1], eq);
    }
}

proof fn lemma_reflexive_first_items(
    value: Seq<(ConstantV, Option<ConstantV>)>,
    n: nat,
    eq: NumberEquality,
)
    requires
        forall|number: FloatValue| #[trigger] eq(number, number),
        n <= value.len(),
    ensures
        equality::same_first_items(value, value, n, eq),
    decreases value, n,
{
    if n > 0 {
        lemma_reflexive_first_items(value, (n - 1) as nat, eq);
        lemma_reflexive_item(value[n - 1], eq);
    }
}

proof fn lemma_reflexive_first_vars(
    value: Seq<(Seq<char>, ConstantV)>,
    n: nat,
    eq: NumberEquality,
)
    requires
        forall|number: FloatValue| #[trigger] eq(number, number),
        n <= value.len(),
    ensures
        equality::same_first_vars(value, value, n, eq),
    decreases value, n,
{
    if n > 0 {
        lemma_reflexive_first_vars(value, (n - 1) as nat, eq);
        law_equality_is_reflexive(value[n - 1].1, eq);
    }
}

/// Whether two constants are equal does not depend on which comes first, if that holds of numbers.
pub proof fn law_equality_is_symmetric(
    lhs: ConstantV,
    rhs: ConstantV,
    eq: NumberEquality,
)
    requires
        forall|a: FloatValue, b: FloatValue| #[trigger] eq(a, b) == eq(b, a),
    ensures
        equality::same(lhs, rhs, eq) == equality::same(rhs, lhs, eq),
    decreases lhs, 0nat,
{
    match (lhs, rhs) {
        (
            ConstantV::New { type_: l, args: l_args },
            ConstantV::New { type_: r, args: r_args },
        ) => {
            lemma_symmetric_new_type(l, r, eq);
            if let (Some(l), Some(r)) = (l_args, r_args) {
                if l.len() == r.len() {
                    lemma_symmetric_first(l, r, l.len(), eq);
                }
                assert(equality::same_all(l, r, eq) == equality::same_all(r, l, eq));
            }
        },
        (ConstantV::List(l), ConstantV::List(r)) => {
            if l.len() == r.len() {
                lemma_symmetric_first_items(l, r, l.len(), eq);
            }
            assert(equality::same_items(l, r, eq) == equality::same_items(r, l, eq));
        },
        (ConstantV::Call(_, l), ConstantV::Call(_, r)) => {
            if l.len() == r.len() {
                lemma_symmetric_first(l, r, l.len(), eq);
            }
            assert(equality::same_all(l, r, eq) == equality::same_all(r, l, eq));
        },
        (ConstantV::Prefab(l), ConstantV::Prefab(r)) => {
            lemma_symmetric_prefab(l, r, eq);
        },
        (ConstantV::Float(l), ConstantV::Float(r)) => {
            assert(eq(l, r) == eq(r, l));
        },
        _ => {},
    }
}

proof fn lemma_symmetric_new_type(
    lhs: NewTypeV<ConstantV>,
    rhs: NewTypeV<ConstantV>,
    eq: NumberEquality,
)
    requires
        forall|a: FloatValue, b: FloatValue| #[trigger] eq(a, b) == eq(b, a),
    ensures
        equality::same_new_type(lhs, rhs, eq) == equality::same_new_type(rhs, lhs, eq),
    decreases lhs, 0nat,
{
    if let (NewTypeV::Prefab(l), NewTypeV::Prefab(r)) = (lhs, rhs) {
        lemma_symmetric_prefab(l, r, eq);
    }
}

proof fn lemma_symmetric_prefab(
    lhs: PrefabV<ConstantV>,
    rhs: PrefabV<ConstantV>,
    eq: NumberEquality,
)
    requires
        forall|a: FloatValue, b: FloatValue| #[trigger] eq(a, b) == eq(b, a),
    ensures
        equality::same_prefab(lhs, rhs, eq) == equality::same_prefab(rhs, lhs, eq),
    decreases lhs, 0nat,
{
    if lhs.vars.len() == rhs.vars.len() {
        lemma_symmetric_first_vars(lhs.vars, rhs.vars, lhs.vars.len(), eq);
    }
}

proof fn lemma_symmetric_item(
    lhs: (ConstantV, Option<ConstantV>),
    rhs: (ConstantV, Option<ConstantV>),
    eq: NumberEquality,
)
    requires
        forall|a: FloatValue, b: FloatValue| #[trigger] eq(a, b) == eq(b, a),
    ensures
        equality::same_item(lhs, rhs, eq) == equality::same_item(rhs, lhs, eq),
    decreases lhs, 0nat,
{
    law_equality_is_symmetric(lhs.0, rhs.0, eq);
    if let (Some(l), Some(r)) = (lhs.1, rhs.1) {
        law_equality_is_symmetric(l, r, eq);
    }
}

proof fn lemma_symmetric_first(
    lhs: Seq<ConstantV>,
    rhs: Seq<ConstantV>,
    n: nat,
    eq: NumberEquality,
)
    requires
        forall|a: FloatValue, b: FloatValue| #[trigger] eq(a, b) == eq(b, a),
        n <= lhs.len(),
        lhs.len() == rhs.len(),
    ensures
        equality::same_first(lhs, rhs, n, eq) == equality::same_first(rhs, lhs, n, eq),
    decreases lhs, n,
{
    if n > 0 {
        lemma_symmetric_first(lhs, rhs, (n - 1) as nat, eq);
        law_equality_is_symmetric(lhs[n - 1], rhs[n - 1], eq);
    }
}

proof fn lemma_symmetric_first_items(
    lhs: Seq<(ConstantV, Option<ConstantV>)>,
    rhs: Seq<(ConstantV, Option<ConstantV>)>,
    n: nat,
    eq: NumberEquality,
)
    requires
        forall|a: FloatValue, b: FloatValue| #[trigger] eq(a, b) == eq(b, a),
        n <= lhs.len(),
        lhs.len() == rhs.len(),
    ensures
        equality::same_first_items(lhs, rhs, n, eq) == equality::same_first_items(rhs, lhs, n, eq),
    decreases lhs, n,
{
    if n > 0 {
        lemma_symmetric_first_items(lhs, rhs, (n - 1) as nat, eq);
        lemma_symmetric_item(lhs[n - 1], rhs[n - 1], eq);
    }
}

proof fn lemma_symmetric_first_vars(
    lhs: Seq<(Seq<char>, ConstantV)>,
    rhs: Seq<(Seq<char>, ConstantV)>,
    n: nat,
    eq: NumberEquality,
)
    requires
        forall|a: FloatValue, b: FloatValue| #[trigger] eq(a, b) == eq(b, a),
        n <= lhs.len(),
        lhs.len() == rhs.len(),
    ensures
        equality::same_first_vars(lhs, rhs, n, eq) == equality::same_first_vars(rhs, lhs, n, eq),
    decreases lhs, n,
{
    if n > 0 {
        lemma_symmetric_first_vars(lhs, rhs, (n - 1) as nat, eq);
        law_equality_is_symmetric(lhs[n - 1].1, rhs[n - 1].1, eq);
    }
}

} // verus!
