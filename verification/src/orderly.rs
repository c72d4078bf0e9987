//! What every run of the folder keeps, proved along the definition of folding.
use crate::ast::{Expression, Follow, NewType, Prefab, Term, UnaryOp};
use crate::constant::ConstantV;
use crate::error::{FailureV, Location};
use crate::objtree::{FullValue, Parsed};
use crate::semantics;
use crate::semantics::{Key, Memo, PathV, Program, Run, Scope};
use crate::text;
use vstd::prelude::*;

verus! {

/// Whether what was found stays as it was found.
pub open spec fn kept(before: Memo, after: Memo) -> bool {
    &&& before.values.submap_of(after.values)
    &&& before.notes.is_prefix_of(after.notes)
}

/// Whether a variable can get a value: it has no initialiser, or one that must be a constant, and
/// it is not open.
pub open spec fn can_be_evaluated(program: Program, open: Set<Key>, key: Key) -> bool {
    program.var(key).full_value is None || (program.var(key).const_evaluable && !open.contains(key))
}

/// Whether a value may be recorded for a variable: the variable can get one, and where it has no
/// initialiser the value is null, of the type that it was declared with.
pub open spec fn may_be_recorded(
    program: Program,
    open: Set<Key>,
    key: Key,
    value: ConstantV,
) -> bool {
    &&& program.has(key)
    &&& can_be_evaluated(program, open, key)
    &&& program.var(key).full_value is None ==> value == ConstantV::Null(
        semantics::declared_hint(program.var(key).type_path),
    )
}

/// Whether a variable may be left open by a run that fails: it has an initialiser, which must be
/// a constant, and no value.
pub open spec fn may_be_left_open(program: Program, memo: Memo, key: Key) -> bool {
    &&& program.has(key)
    &&& program.var(key).full_value is Some
    &&& program.var(key).const_evaluable
    &&& !memo.values.contains_key(key)
}

/// Whether a run keeps what was found before, records only values that may be recorded, and, when
/// it fails, leaves all variables open that were open, and no others but those that may be.
pub open spec fn orderly<T>(program: Program, open: Set<Key>, memo: Memo, run: Run<T>) -> bool {
    &&& kept(memo, run.memo)
    &&& forall|key: Key| #[trigger]
        run.memo.values.contains_key(key) && !memo.values.contains_key(key) ==> may_be_recorded(
            program,
            open,
            key,
            run.memo.values[key],
        )
    &&& run.out matches Err(stopped) ==> {
        &&& open.subset_of(stopped.open)
        &&& forall|key: Key| #[trigger]
            stopped.open.contains(key) && !open.contains(key) ==> may_be_left_open(
                program,
                run.memo,
                key,
            )
    }
}

/// Whether a run reports its error, if any, at a place.
pub open spec fn reported_at<T>(run: Run<T>, location: Location) -> bool {
    run.out matches Err(stopped) ==> (stopped.failure matches FailureV::Error(error)
        ==> error.location == location)
}

/// One run after another.
pub proof fn lemma_orderly_then<S, T>(
    program: Program,
    open: Set<Key>,
    memo: Memo,
    first: Run<S>,
    second: Run<T>,
)
    requires
        orderly(program, open, memo, first),
        orderly(program, open, first.memo, second),
    ensures
        orderly(program, open, memo, second),
{
    assert forall|key: Key| #[trigger] memo.values.dom().contains(key) implies
        second.memo.values.dom().contains(key) && memo.values[key] == second.memo.values[key] by {
        assert(first.memo.values.dom().contains(key));
    }
    assert(memo.notes.is_prefix_of(second.memo.notes)) by {
        assert(memo.notes =~= second.memo.notes.take(memo.notes.len() as int));
    }
    assert forall|key: Key| #[trigger]
        second.memo.values.contains_key(key) && !memo.values.contains_key(
            key,
        ) implies may_be_recorded(program, open, key, second.memo.values[key]) by {
        if first.memo.values.dom().contains(key) {
            assert(first.memo.values[key] == second.memo.values[key]);
        }
    }
}

/// What a name stands for is a variable of that name.
pub proof fn lemma_owner(program: Program, ty: int, ident: Seq<char>, limit: nat)
    requires
        program.rooted(ty, limit),
    ensures
        program.owner(ty, ident, limit) matches Some(key) ==> program.has(key) && program.name(key)
            == ident,
    decreases limit,
{
    match semantics::find(program.types[ty].vars, ident) {
        Some(i) => {
            assert(semantics::is_first_named(program.types[ty].vars, ident, i));
        },
        None => match program.types[ty].parent {
            Some(parent) => lemma_owner(program, parent, ident, (limit - 1) as nat),
            None => {},
        },
    }
}

proof fn lemma_type_at(program: Program, path: Seq<char>)
    requires
        program.wf(),
    ensures
        program.type_at(path) matches Some(ty) ==> 0 <= ty < program.types.len(),
{
    if let Some(i) = semantics::find(program.paths, path) {
        assert(semantics::is_first_named(program.paths, path, i));
    }
}

/// Whether a scope lies in a tree that is in order.
pub open spec fn in_tree(scope: Scope) -> bool {
    scope.program.wf() && 0 <= scope.ty < scope.program.types.len()
}

/// Folding an expression is orderly, and its errors are reported where the scope says.
pub proof fn lemma_expr(scope: Scope, memo: Memo, expression: Expression, hint: Option<PathV>)
    requires
        in_tree(scope),
    ensures
        orderly(
            scope.program,
            scope.open,
            memo,
            semantics::fold_expr(scope, memo, expression, hint),
        ),
        reported_at(semantics::fold_expr(scope, memo, expression, hint), scope.location),
    decreases scope.program.closed_count(scope.open), 2nat, expression, 0nat,
{
    match expression {
        Expression::Base { unary, term, follow } => {
            let base_hint = if unary@.len() == 0 && follow@.len() == 0 {
                hint
            } else {
                None
            };
            lemma_term(scope, memo, term, base_hint);
            let folded = semantics::fold_term(scope, memo, term, base_hint);
            if let Ok(value) = folded.out {
                lemma_follows(scope, folded.memo, value, follow@, 0);
                let followed = semantics::fold_follows(scope, folded.memo, value, follow@, 0);
                lemma_orderly_then(scope.program, scope.open, memo, folded, followed);
                if let Ok(value) = followed.out {
                    lemma_unaries(scope.location, unary@, value);
                }
            }
        },
        Expression::BinaryOp { op, lhs, rhs } => {
            lemma_expr(scope, memo, *lhs, None);
            let left = semantics::fold_expr(scope, memo, *lhs, None);
            if left.out is Ok {
                lemma_expr(scope, left.memo, *rhs, None);
                let right = semantics::fold_expr(scope, left.memo, *rhs, None);
                lemma_orderly_then(scope.program, scope.open, memo, left, right);
            }
        },
        _ => {},
    }
}

proof fn lemma_unaries(location: Location, ops: Seq<UnaryOp>, term: ConstantV)
    ensures
        semantics::apply_unaries(location, ops, term) matches Err(FailureV::Error(error))
            ==> error.location == location,
    decreases ops.len(),
{
    if ops.len() > 0 {
        if let Ok(value) = semantics::apply_unary(location, ops.last(), term) {
            lemma_unaries(location, ops.drop_last(), value);
        }
    }
}

proof fn lemma_follows(scope: Scope, memo: Memo, term: ConstantV, follows: Seq<Follow>, i: nat)
    requires
        in_tree(scope),
    ensures
        orderly(
            scope.program,
            scope.open,
            memo,
            semantics::fold_follows(scope, memo, term, follows, i),
        ),
        reported_at(semantics::fold_follows(scope, memo, term, follows, i), scope.location),
    decreases scope.program.closed_count(scope.open), 2nat, follows, follows.len() - i,
{
    if i < follows.len() {
        lemma_follow(scope, memo, term, follows[i as int]);
        let run = semantics::fold_follow(scope, memo, term, follows[i as int]);
        if let Ok(value) = run.out {
            lemma_follows(scope, run.memo, value, follows, i + 1);
            lemma_orderly_then(
                scope.program,
                scope.open,
                memo,
                run,
                semantics::fold_follows(scope, run.memo, value, follows, i + 1),
            );
        }
    }
}

proof fn lemma_follow(scope: Scope, memo: Memo, term: ConstantV, follow: Follow)
    requires
        in_tree(scope),
    ensures
        orderly(
            scope.program,
            scope.open,
            memo,
            semantics::fold_follow(scope, memo, term, follow),
        ),
        reported_at(semantics::fold_follow(scope, memo, term, follow), scope.location),
    decreases scope.program.closed_count(scope.open), 1nat, None::<Expression>, 1nat,
{
    match (term, follow) {
        (ConstantV::Null(Some(hint)), Follow::Field(name)) => {
            let path = semantics::listed_path(hint);
            lemma_type_at(scope.program, path);
            if let Some(ty) = scope.program.type_at(path) {
                lemma_search(scope, memo, ty, name@, true);
            }
        },
        _ => {},
    }
}

proof fn lemma_term(scope: Scope, memo: Memo, term: Term, hint: Option<PathV>)
    requires
        in_tree(scope),
    ensures
        orderly(
            scope.program,
            scope.open,
            memo,
            semantics::fold_term(scope, memo, term, hint),
        ),
        reported_at(semantics::fold_term(scope, memo, term, hint), scope.location),
    decreases scope.program.closed_count(scope.open), 2nat, term, 0nat,
{
    match term {
        Term::New { type_, args } => {
            let middle = match type_ {
                NewType::Prefab(prefab) => semantics::fold_prefab(scope, memo, prefab).memo,
                _ => memo,
            };
            if let NewType::Prefab(prefab) = type_ {
                lemma_prefab(scope, memo, prefab);
            }
            if let Some(args) = args {
                lemma_all(scope, middle, args@, seq![]);
                if let NewType::Prefab(prefab) = type_ {
                    lemma_orderly_then(
                        scope.program,
                        scope.open,
                        memo,
                        semantics::fold_prefab(scope, memo, prefab),
                        semantics::fold_all(scope, middle, args@, seq![]),
                    );
                }
            }
        },
        Term::List(items) => {
            lemma_items(scope, memo, items@, semantics::element_hint(hint), seq![]);
        },
        Term::Call(ident, args) => {
            lemma_all(scope, memo, args@, seq![]);
            lemma_rgb(scope, memo, args@, "#"@, 0);
        },
        Term::Prefab(prefab) => {
            lemma_prefab(scope, memo, prefab);
        },
        Term::Ident(ident) => {
            lemma_ident(scope, memo, ident@, hint, false);
        },
        Term::Expr(inner) => {
            lemma_expr(scope, memo, *inner, hint);
        },
        _ => {},
    }
}

proof fn lemma_all(
    scope: Scope,
    memo: Memo,
    expressions: Seq<Expression>,
    folded: Seq<ConstantV>,
)
    requires
        in_tree(scope),
    ensures
        orderly(
            scope.program,
            scope.open,
            memo,
            semantics::fold_all(scope, memo, expressions, folded),
        ),
        reported_at(semantics::fold_all(scope, memo, expressions, folded), scope.location),
    decreases
            scope.program.closed_count(scope.open),
            2nat,
            expressions,
            expressions.len() - folded.len(),
{
    if folded.len() < expressions.len() {
        let next = expressions[folded.len() as int];
        lemma_expr(scope, memo, next, None);
        let run = semantics::fold_expr(scope, memo, next, None);
        if let Ok(value) = run.out {
            lemma_all(scope, run.memo, expressions, folded.push(value));
            lemma_orderly_then(
                scope.program,
                scope.open,
                memo,
                run,
                semantics::fold_all(scope, run.memo, expressions, folded.push(value)),
            );
        }
    }
}

proof fn lemma_rgb(
    scope: Scope,
    memo: Memo,
    components: Seq<Expression>,
    text: Seq<char>,
    i: nat,
)
    requires
        in_tree(scope),
    ensures
        orderly(
            scope.program,
            scope.open,
            memo,
            semantics::fold_rgb(scope, memo, components, text, i),
        ),
        reported_at(semantics::fold_rgb(scope, memo, components, text, i), scope.location),
    decreases scope.program.closed_count(scope.open), 2nat, components, components.len() - i,
{
    if i < components.len() {
        lemma_expr(scope, memo, components[i as int], None);
        let run = semantics::fold_expr(scope, memo, components[i as int], None);
        if let Ok(ConstantV::Int(value)) = run.out {
            let longer = text + text::hex_pair(semantics::clamped(value));
            lemma_rgb(scope, run.memo, components, longer, i + 1);
            lemma_orderly_then(
                scope.program,
                scope.open,
                memo,
                run,
                semantics::fold_rgb(scope, run.memo, components, longer, i + 1),
            );
        }
    }
}

proof fn lemma_key(scope: Scope, memo: Memo, key: Expression, hint: Option<PathV>)
    requires
        in_tree(scope),
    ensures
        orderly(
            scope.program,
            scope.open,
            memo,
            semantics::fold_key(scope, memo, key, hint),
        ),
        reported_at(semantics::fold_key(scope, memo, key, hint), scope.location),
    decreases scope.program.closed_count(scope.open), 2nat, key, 1nat,
{
    lemma_expr(scope, memo, key, hint);
}

proof fn lemma_items(
    scope: Scope,
    memo: Memo,
    items: Seq<(Expression, Option<Expression>)>,
    hint: Option<PathV>,
    folded: Seq<(ConstantV, Option<ConstantV>)>,
)
    requires
        in_tree(scope),
    ensures
        orderly(
            scope.program,
            scope.open,
            memo,
            semantics::fold_items(scope, memo, items, hint, folded),
        ),
        reported_at(semantics::fold_items(scope, memo, items, hint, folded), scope.location),
    decreases
            scope.program.closed_count(scope.open),
            2nat,
            items,
            items.len() - folded.len(),
{
    if folded.len() < items.len() {
        let (key, value) = items[folded.len() as int];
        match value {
            Some(value) => {
                lemma_key(scope, memo, key, hint);
                let left = semantics::fold_key(scope, memo, key, hint);
                if let Ok(k) = left.out {
                    lemma_expr(scope, left.memo, value, hint);
                    let right = semantics::fold_expr(scope, left.memo, value, hint);
                    lemma_orderly_then(scope.program, scope.open, memo, left, right);
                    if let Ok(v) = right.out {
                        let longer = folded.push((k, Some(v)));
                        lemma_items(scope, right.memo, items, hint, longer);
                        lemma_orderly_then(
                            scope.program,
                            scope.open,
                            memo,
                            right,
                            semantics::fold_items(scope, right.memo, items, hint, longer),
                        );
                    }
                }
            },
            None => {
                lemma_expr(scope, memo, key, hint);
                let run = semantics::fold_expr(scope, memo, key, hint);
                if let Ok(k) = run.out {
                    let longer = folded.push((k, None));
                    lemma_items(scope, run.memo, items, hint, longer);
                    lemma_orderly_then(
                        scope.program,
                        scope.open,
                        memo,
                        run,
                        semantics::fold_items(scope, run.memo, items, hint, longer),
                    );
                }
            },
        }
    }
}

proof fn lemma_vars(
    scope: Scope,
    memo: Memo,
    vars: Seq<(String, Expression)>,
    folded: Seq<(Seq<char>, ConstantV)>,
    i: nat,
)
    requires
        in_tree(scope),
    ensures
        orderly(
            scope.program,
            scope.open,
            memo,
            semantics::fold_vars(scope, memo, vars, folded, i),
        ),
        reported_at(semantics::fold_vars(scope, memo, vars, folded, i), scope.location),
    decreases scope.program.closed_count(scope.open), 2nat, vars, vars.len() - i,
{
    if i < vars.len() {
        lemma_expr(scope, memo, vars[i as int].1, None);
        let run = semantics::fold_expr(scope, memo, vars[i as int].1, None);
        if let Ok(value) = run.out {
            let more = semantics::placed(folded, vars[i as int].0@, value);
            lemma_vars(scope, run.memo, vars, more, i + 1);
            lemma_orderly_then(
                scope.program,
                scope.open,
                memo,
                run,
                semantics::fold_vars(scope, run.memo, vars, more, i + 1),
            );
        }
    }
}

proof fn lemma_prefab(scope: Scope, memo: Memo, prefab: Prefab<Expression>)
    requires
        in_tree(scope),
    ensures
        orderly(
            scope.program,
            scope.open,
            memo,
            semantics::fold_prefab(scope, memo, prefab),
        ),
        reported_at(semantics::fold_prefab(scope, memo, prefab), scope.location),
    decreases scope.program.closed_count(scope.open), 2nat, prefab, 0nat,
{
    lemma_vars(scope, memo, prefab.vars@, seq![], 0);
}

proof fn lemma_ident(
    scope: Scope,
    memo: Memo,
    ident: Seq<char>,
    hint: Option<PathV>,
    must_be_static: bool,
)
    requires
        in_tree(scope),
    ensures
        orderly(
            scope.program,
            scope.open,
            memo,
            semantics::fold_ident(scope, memo, ident, hint, must_be_static),
        ),
        reported_at(
            semantics::fold_ident(scope, memo, ident, hint, must_be_static),
            scope.location,
        ),
    decreases scope.program.closed_count(scope.open), 1nat, None::<Expression>, 1nat,
{
    lemma_search(scope, memo, scope.ty, ident, must_be_static);
}

proof fn lemma_search(
    scope: Scope,
    memo: Memo,
    ty: int,
    ident: Seq<char>,
    must_be_static: bool,
)
    requires
        scope.program.wf(),
        0 <= ty < scope.program.types.len(),
    ensures
        orderly(
            scope.program,
            scope.open,
            memo,
            semantics::search(scope, memo, ty, ident, must_be_static),
        ),
        reported_at(semantics::search(scope, memo, ty, ident, must_be_static), scope.location),
    decreases scope.program.closed_count(scope.open), 1nat, None::<Expression>, 0nat,
{
    let limit = scope.program.types.len();
    let noted = Memo {
        values: memo.values,
        notes: memo.notes + scope.program.searched(ty, ident, limit),
    };
    assert(scope.program.rooted(ty, limit));
    lemma_owner(scope.program, ty, ident, limit);
    assert(orderly(scope.program, scope.open, memo, semantics::done(noted, ())));
    if let Some(key) = scope.program.owner(ty, ident, limit) {
        lemma_lookup(scope.program, scope.open, noted, key, must_be_static);
        lemma_orderly_then(
            scope.program,
            scope.open,
            memo,
            semantics::done(noted, ()),
            semantics::lookup(scope.program, scope.open, noted, key, must_be_static),
        );
    }
}

/// Looking a variable up is orderly.
pub proof fn lemma_lookup(
    program: Program,
    open: Set<Key>,
    memo: Memo,
    key: Key,
    must_be_static: bool,
)
    requires
        program.wf(),
        program.has(key),
    ensures
        orderly(
            program,
            open,
            memo,
            semantics::lookup(program, open, memo, key, must_be_static),
        ),
    decreases program.closed_count(open), 0nat, None::<Expression>, 0nat,
{
    let var = program.var(key);
    let run = semantics::lookup(program, open, memo, key, must_be_static);
    if !memo.values.contains_key(key) {
        if let Some(full_value) = var.full_value {
            if !open.contains(key) && var.const_evaluable && (var.is_static || !must_be_static) {
                semantics::lemma_closed_count(program, open, key);
                let hint = semantics::declared_hint(var.type_path);
                let inside = Scope {
                    program,
                    open: open.insert(key),
                    location: var.location,
                    ty: key.0,
                };
                lemma_full_value(inside, memo, full_value, hint);
                let folded = semantics::fold_full_value(inside, memo, full_value, hint);
                assert forall|other: Key| #[trigger]
                    run.memo.values.contains_key(other) && !memo.values.contains_key(
                        other,
                    ) implies may_be_recorded(program, open, other, run.memo.values[other]) by {
                    if other != key {
                        assert(folded.memo.values.contains_key(other));
                    }
                }
                if let Err(stopped) = run.out {
                    assert forall|other: Key| #[trigger]
                        stopped.open.contains(other) && !open.contains(
                            other,
                        ) implies may_be_left_open(program, run.memo, other) by {
                        if other == key {
                            assert(!can_be_evaluated(program, inside.open, key));
                        }
                    }
                }
            }
        }
    }
}

/// Folding an initialiser is orderly.
pub proof fn lemma_full_value(scope: Scope, memo: Memo, full_value: FullValue, hint: Option<PathV>)
    requires
        in_tree(scope),
    ensures
        orderly(
            scope.program,
            scope.open,
            memo,
            semantics::fold_full_value(scope, memo, full_value, hint),
        ),
    decreases scope.program.closed_count(scope.open), 3nat, None::<Expression>, 0nat,
{
    if let Parsed::Expression(expression) = full_value.parsed {
        lemma_expr(scope, memo, expression, hint);
    }
}

} // verus!
