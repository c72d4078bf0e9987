//! What the terms mean in which functions are described.
use crate::ast;
use crate::ast::TypePath;
use crate::constant;
use crate::constant::{Constant, ConstantV, FloatValue, TypedConstant};
use crate::constants;
use crate::constants::ConstantFolder;
use crate::equality;
use crate::equality::NumberEquality;
use crate::error::{Failure, HasLocation};
use crate::objtree;
use crate::objtree::{NodeIndex, ObjectTree};
use crate::semantics::Run;
use vstd::prelude::*;

verus! {

/// A result agrees with a run when both succeed with one value, or both fail in one way.
pub proof fn law_agreement(result: Result<Constant, Failure>, run: Run<ConstantV>)
    ensures
        constants::agrees(result, run) <==> (match (result, run.out) {
            (Ok(constant), Ok(value)) => constant@ == value,
            (Err(failure), Err(stopped)) => failure@ == stopped.failure,
            (Ok(_), Err(_)) => false,
            (Err(_), Ok(_)) => false,
        }),
{
}

/// A folder works on the declarations and open variables of the tree, reports at its own place,
/// and sees the variables of its own type.
pub proof fn law_scopes_of_folders(folder: ConstantFolder, tree: ObjectTree)
    ensures
        folder.scope(tree).program == tree.program(),
        folder.scope(tree).open == tree.open(),
        folder.scope(tree).location == folder.location,
        folder.scope(tree).ty == folder.ty,
        folder.located() == folder.location,
{
}

/// An expected type stands for its path, and a place for its number.
pub proof fn law_hints_and_places(path: &TypePath, index: NodeIndex)
    ensures
        constants::hint_view(Some(path)) == Some(ast::path_view(path@)),
        constants::hint_view(None) is None,
        objtree::index_view(Some(index)) == Some(index as int),
        objtree::index_view(None) is None,
{
}

/// A tree is evaluated when every variable in it that must be constant has a value, and unmarked
/// when none is marked as being evaluated.
pub proof fn law_evaluated_and_unmarked(tree: ObjectTree)
    ensures
        tree.evaluated() <==> forall|ty: int, i: int|
            0 <= ty < tree.graph@.len() && 0 <= i < tree.graph@[ty].vars@.len() && (
            #[trigger] tree.graph@[ty].vars@[i]).1.const_evaluable ==> tree.graph@[ty].vars@[i].1.value is Some,
        tree.unmarked() <==> forall|ty: int, i: int|
            0 <= ty < tree.graph@.len() && 0 <= i < tree.graph@[ty].vars@.len() ==> !(
            #[trigger] tree.graph@[ty].vars@[i]).1.being_evaluated,
{
    let program = tree.program();
    assert forall|ty: int, i: int| #[trigger] program.has((ty, i)) <==> 0 <= ty < tree.graph@.len()
        && 0 <= i < tree.graph@[ty].vars@.len() by {
        if 0 <= ty < tree.graph@.len() {
            assert(program.types[ty] == tree.graph@[ty].decl());
        }
    }
    if tree.evaluated() {
        assert forall|ty: int, i: int|
            0 <= ty < tree.graph@.len() && 0 <= i < tree.graph@[ty].vars@.len() && (
            #[trigger] tree.graph@[ty].vars@[i]).1.const_evaluable implies tree.graph@[ty].vars@[i].1.value is Some by {
            assert(program.has((ty, i)));
            assert(tree.var((ty, i)).const_evaluable);
        }
    }
    if tree.unmarked() {
        assert forall|ty: int, i: int|
            0 <= ty < tree.graph@.len() && 0 <= i < tree.graph@[ty].vars@.len() implies !(
        #[trigger] tree.graph@[ty].vars@[i]).1.being_evaluated by {
            assert(program.has((ty, i)));
            assert(!tree.var((ty, i)).being_evaluated);
        }
    }
    if forall|ty: int, i: int|
        0 <= ty < tree.graph@.len() && 0 <= i < tree.graph@[ty].vars@.len() && (
        #[trigger] tree.graph@[ty].vars@[i]).1.const_evaluable ==> tree.graph@[ty].vars@[i].1.value is Some {
        assert forall|at: (int, int)| #[trigger]
            program.has(at) && tree.var(at).const_evaluable implies tree.var(
            at,
        ).value is Some by {
            assert(at == (at.0, at.1));
            assert(program.has((at.0, at.1)));
            assert(tree.graph@[at.0].vars@[at.1].1.const_evaluable);
        }
    }
    if forall|ty: int, i: int|
        0 <= ty < tree.graph@.len() && 0 <= i < tree.graph@[ty].vars@.len() ==> !(
        #[trigger] tree.graph@[ty].vars@[i]).1.being_evaluated {
        assert forall|at: (int, int)| #[trigger] program.has(at) implies !tree.var(
            at,
        ).being_evaluated by {
            assert(at == (at.0, at.1));
            assert(program.has((at.0, at.1)));
            assert(!tree.graph@[at.0].vars@[at.1].1.being_evaluated);
        }
    }
}

/// The numbers of all pairs are equal when those of each are. Constants with expected types are
/// equal when the types and the constants are.
pub proof fn law_pairs_and_typed_constants(
    pairs: Seq<(FloatValue, FloatValue)>,
    lhs: TypedConstant,
    rhs: TypedConstant,
    eq: NumberEquality,
)
    ensures
        equality::all_equal(pairs, 0, eq) <==> forall|i: int|
            0 <= i < pairs.len() ==> eq((#[trigger] pairs[i]).0, pairs[i].1),
        equality::same_typed(lhs, rhs, eq) <==> constant::hint_view(lhs.type_hint)
            == constant::hint_view(rhs.type_hint) && equality::same(
            lhs.constant@,
            rhs.constant@,
            eq,
        ),
{
}

} // verus!
