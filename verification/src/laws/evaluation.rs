//! In which order a tree is evaluated, and what an evaluation leaves of it.
use crate::ast;
use crate::error::FailureV;
use crate::laws;
use crate::laws::lookups;
use crate::objtree::ObjectTree;
use crate::semantics;
use crate::semantics::{Key, Memo, Program, Run, Stopped};
use vstd::prelude::*;

verus! {

/// Whether a sequence holds all variables that must be constant, and no others, in the order of
/// their types and of their places in these.
pub open spec fn lists_constants(program: Program, keys: Seq<Key>) -> bool {
    &&& forall|j: int|
        0 <= j < keys.len() ==> program.has(#[trigger] keys[j]) && program.var(
            keys[j],
        ).const_evaluable
    &&& forall|key: Key| #[trigger]
        program.has(key) && program.var(key).const_evaluable ==> keys.contains(key)
    &&& forall|i: int, j: int|
        0 <= i < j < keys.len() ==> (#[trigger] keys[i]).0 < (#[trigger] keys[j]).0 || (keys[i].0
            == keys[j].0 && keys[i].1 < keys[j].1)
}

proof fn lemma_sweep_from(
    program: Program,
    open: Set<Key>,
    keys: Seq<Key>,
    memos: Seq<Memo>,
    ty: int,
    i: int,
    p: nat,
)
    requires
        lists_constants(program, keys),
        1 <= memos.len() <= keys.len() + 1,
        forall|j: int|
            0 <= j < memos.len() - 1 ==> {
                let run = semantics::lookup(program, open, #[trigger] memos[j], keys[j], false);
                run.out is Ok && run.memo == memos[j + 1]
            },
        p < memos.len(),
        0 <= ty,
        0 <= i,
        forall|q: int| 0 <= q < p ==> laws::comes_before(#[trigger] keys[q], (ty, i)),
        forall|q: int| p <= q < keys.len() ==> !laws::comes_before(#[trigger] keys[q], (ty, i)),
    ensures
        ({
            let run = semantics::sweep(program, open, memos[p as int], ty, i);
            &&& memos.len() == keys.len() + 1 ==> run == (Run { memo: memos.last(), out: Ok(()) })
            &&& memos.len() <= keys.len() ==> {
                let next = semantics::lookup(
                    program,
                    open,
                    memos.last(),
                    keys[memos.len() - 1],
                    false,
                );
                next.out matches Err(stopped) ==> run == (Run {
                    memo: next.memo,
                    out: Err::<(), Stopped>(stopped),
                })
            }
        }),
    decreases program.types.len() - ty, program.types[ty].vars.len() - i,
{
    if ty >= program.types.len() {
        if p < keys.len() {
            assert(program.has(keys[p as int]));
            assert(laws::comes_before(keys[p as int], (ty, i)));
        }
    } else if i >= program.types[ty].vars.len() {
        assert forall|q: int| p <= q < keys.len() implies !laws::comes_before(
            #[trigger] keys[q],
            (ty + 1, 0),
        ) by {
            assert(program.has(keys[q]));
        }
        lemma_sweep_from(program, open, keys, memos, ty + 1, 0, p);
    } else if !program.var((ty, i)).const_evaluable {
        assert forall|q: int| p <= q < keys.len() implies !laws::comes_before(
            #[trigger] keys[q],
            (ty, i + 1),
        ) by {
            assert(program.has(keys[q]));
            assert(keys[q] != (ty, i));
        }
        lemma_sweep_from(program, open, keys, memos, ty, i + 1, p);
    } else {
        let key = (ty, i);
        assert(program.has(key));
        assert(keys.contains(key));
        let r = choose|r: int| 0 <= r < keys.len() && keys[r] == key;
        if r < p {
            assert(laws::comes_before(keys[r], key));
        }
        if r > p {
            assert(!laws::comes_before(keys[p as int], key));
        }
        assert(keys[p as int] == key);
        if p < memos.len() - 1 {
            let run = semantics::lookup(program, open, memos[p as int], keys[p as int], false);
            assert(run.out is Ok && run.memo == memos[p as int + 1]);
            assert forall|q: int| p + 1 <= q < keys.len() implies !laws::comes_before(
                #[trigger] keys[q],
                (ty, i + 1),
            ) by {
                assert(keys[p as int].0 < keys[q].0 || (keys[p as int].0 == keys[q].0
                    && keys[p as int].1 < keys[q].1));
            }
            lemma_sweep_from(program, open, keys, memos, ty, i + 1, p + 1);
        }
    }
}

/// Evaluation looks up the variables that must be constant, one after the other in their order,
/// each with what is known by then, and no others. It succeeds when all of these succeed, and
/// otherwise stops with the first failure.
pub proof fn law_evaluation_in_order(
    program: Program,
    open: Set<Key>,
    keys: Seq<Key>,
    memos: Seq<Memo>,
)
    requires
        lists_constants(program, keys),
        1 <= memos.len() <= keys.len() + 1,
        forall|j: int|
            0 <= j < memos.len() - 1 ==> {
                let run = semantics::lookup(program, open, #[trigger] memos[j], keys[j], false);
                run.out is Ok && run.memo == memos[j + 1]
            },
    ensures
        ({
            let run = semantics::sweep(program, open, memos[0], 0, 0);
            &&& memos.len() == keys.len() + 1 ==> run == (Run { memo: memos.last(), out: Ok(()) })
            &&& memos.len() <= keys.len() ==> {
                let next = semantics::lookup(
                    program,
                    open,
                    memos.last(),
                    keys[memos.len() - 1],
                    false,
                );
                next.out matches Err(stopped) ==> run == (Run {
                    memo: next.memo,
                    out: Err::<(), Stopped>(stopped),
                })
            }
        }),
{
    assert forall|q: int| 0 <= q < keys.len() implies !laws::comes_before(
        #[trigger] keys[q],
        (0, 0),
    ) by {
        assert(program.has(keys[q]));
    }
    lemma_sweep_from(program, open, keys, memos, 0, 0, 0);
}

/// A tree holds arithmetic without a result when its evaluation stops with that.
pub proof fn law_overflows(program: Program, open: Set<Key>, memo: Memo)
    ensures
        semantics::overflows(program, open, memo) <==> (semantics::sweep(
            program,
            open,
            memo,
            0,
            0,
        ).out matches Err(stopped) && stopped.failure == FailureV::Arithmetic),
{
}

/// What is declared stays as it was: types, parents, paths, names, declared types, initialisers,
/// and where and how a variable was declared.
pub proof fn law_declarations_stay<T>(
    before: ObjectTree,
    after: ObjectTree,
    run: Run<T>,
    ty: int,
    i: int,
    k: int,
)
    requires
        after.follows(before, run),
        0 <= ty < before.graph@.len(),
        0 <= i < before.graph@[ty].vars@.len(),
        0 <= k < before.types@.len(),
    ensures
        after.graph@.len() == before.graph@.len(),
        after.types@.len() == before.types@.len(),
        after.types@[k].0@ == before.types@[k].0@,
        after.types@[k].1 == before.types@[k].1,
        after.graph@[ty].parent == before.graph@[ty].parent,
        after.graph@[ty].vars@.len() == before.graph@[ty].vars@.len(),
        after.graph@[ty].vars@[i].0@ == before.graph@[ty].vars@[i].0@,
        ({
            let old_var = before.graph@[ty].vars@[i].1;
            let new_var = after.graph@[ty].vars@[i].1;
            &&& new_var.location == old_var.location
            &&& new_var.is_static == old_var.is_static
            &&& new_var.const_evaluable == old_var.const_evaluable
            &&& new_var.full_value == old_var.full_value
            &&& new_var.type_path@.len() == old_var.type_path@.len()
            &&& forall|j: int|
                0 <= j < old_var.type_path@.len() ==> {
                    &&& (#[trigger] new_var.type_path@[j]).0 == old_var.type_path@[j].0
                    &&& new_var.type_path@[j].1@ == old_var.type_path@[j].1@
                }
        }),
{
    let old_program = before.program();
    let new_program = after.program();
    assert(old_program.types.len() == new_program.types.len());
    assert(old_program.paths.len() == new_program.paths.len());
    assert(old_program.paths[k] == new_program.paths[k]);
    assert(old_program.types[ty] == before.graph@[ty].decl());
    assert(new_program.types[ty] == after.graph@[ty].decl());
    assert(old_program.types[ty].vars.len() == new_program.types[ty].vars.len());
    assert(old_program.types[ty].vars[i] == new_program.types[ty].vars[i]);
    let old_var = before.graph@[ty].vars@[i].1;
    let new_var = after.graph@[ty].vars@[i].1;
    assert(old_var.decl() == new_var.decl());
    let old_path = ast::path_view(old_var.type_path@);
    let new_path = ast::path_view(new_var.type_path@);
    assert(old_path.len() == new_path.len());
    assert forall|j: int| 0 <= j < old_var.type_path@.len() implies (
    #[trigger] new_var.type_path@[j]).0 == old_var.type_path@[j].0 && new_var.type_path@[j].1@
        == old_var.type_path@[j].1@ by {
        assert(old_path[j] == new_path[j]);
    }
}

/// A tree after a run holds the values that the run knows, and no others, and the notes that it
/// took. A variable that had a value is as it was. A variable is marked as being evaluated if the
/// run failed and left it open, it is not if it got a value, and otherwise its mark is as it was.
pub proof fn law_tree_after_a_run<T>(
    before: ObjectTree,
    after: ObjectTree,
    run: Run<T>,
    ty: int,
    i: int,
)
    requires
        after.follows(before, run),
        0 <= ty < before.graph@.len(),
        0 <= i < before.graph@[ty].vars@.len(),
    ensures
        ({
            let old_var = before.graph@[ty].vars@[i].1;
            let new_var = after.graph@[ty].vars@[i].1;
            let was_open = old_var.being_evaluated && old_var.value is None
                && old_var.full_value is Some;
            &&& match new_var.value {
                Some(value) => run.memo.values.contains_key((ty, i)) && run.memo.values[(ty, i)]
                    == value@,
                None => !run.memo.values.contains_key((ty, i)),
            }
            &&& old_var.value is Some ==> new_var == old_var
            &&& new_var.being_evaluated == (if new_var.value is Some && old_var.value is None {
                false
            } else if run.out is Err && run.out->Err_0.open.contains((ty, i)) && !was_open {
                true
            } else {
                old_var.being_evaluated
            })
        }),
        after.notes@.len() == run.memo.notes.len(),
        forall|j: int| 0 <= j < after.notes@.len() ==> (#[trigger] after.notes@[j])@
            == run.memo.notes[j],
{
    let at = (ty, i);
    assert(before.program().types.len() == after.program().types.len());
    assert(before.program().types[ty] == before.graph@[ty].decl());
    assert(after.program().types[ty] == after.graph@[ty].decl());
    assert(before.program().types[ty].vars.len() == after.program().types[ty].vars.len());
    assert(before.program().has(at) && after.program().has(at));
    assert(after.var(at) == after.graph@[ty].vars@[i].1);
    assert(before.var(at) == before.graph@[ty].vars@[i].1);
    assert(before.program().types[ty].vars[i] == after.program().types[ty].vars[i]);
    assert(before.var(at).decl() == after.var(at).decl());
    assert(after.values().contains_key(at) <==> after.var(at).value is Some);
    assert(before.values().contains_key(at) <==> before.var(at).value is Some);
    assert(after.memo().values == run.memo.values);
    assert forall|j: int| 0 <= j < after.notes@.len() implies (#[trigger] after.notes@[j])@
        == run.memo.notes[j] by {
        assert(after.memo().notes[j] == after.notes@[j]@);
    }
}

/// What is known, open and declared in a tree is what its variables, types and paths hold.
pub proof fn law_trees_as_programs(tree: ObjectTree, ty: int, i: int, k: int)
    requires
        0 <= ty < tree.graph@.len(),
        0 <= i < tree.graph@[ty].vars@.len(),
        0 <= k < tree.types@.len(),
    ensures
        ({
            let var = tree.graph@[ty].vars@[i].1;
            let program = tree.program();
            &&& program.types.len() == tree.graph@.len()
            &&& program.paths.len() == tree.types@.len()
            &&& program.paths[k] == (tree.types@[k].0@, tree.types@[k].1 as int)
            &&& match tree.graph@[ty].parent {
                Some(parent) => program.types[ty].parent == Some(parent as int),
                None => program.types[ty].parent is None,
            }
            &&& program.types[ty].vars.len() == tree.graph@[ty].vars@.len()
            &&& program.has((ty, i))
            &&& program.name((ty, i)) == tree.graph@[ty].vars@[i].0@
            &&& program.var((ty, i)).location == var.location
            &&& program.var((ty, i)).is_static == var.is_static
            &&& program.var((ty, i)).const_evaluable == var.const_evaluable
            &&& match var.full_value {
                Some(full_value) => program.var((ty, i)).full_value == Some(*full_value),
                None => program.var((ty, i)).full_value is None,
            }
            &&& program.var((ty, i)).type_path.len() == var.type_path@.len()
            &&& forall|j: int|
                0 <= j < var.type_path@.len() ==> #[trigger] program.var((ty, i)).type_path[j] == (
                    var.type_path@[j].0,
                    var.type_path@[j].1@,
                )
            &&& match var.value {
                Some(value) => tree.memo().values.contains_key((ty, i))
                    && tree.memo().values[(ty, i)] == value@,
                None => !tree.memo().values.contains_key((ty, i)),
            }
            &&& tree.open().contains((ty, i)) <==> var.being_evaluated && var.value is None
                && var.full_value is Some
            &&& tree.memo().notes.len() == tree.notes@.len()
            &&& forall|j: int|
                0 <= j < tree.notes@.len() ==> #[trigger] tree.memo().notes[j] == tree.notes@[j]@
        }),
{
    let at = (ty, i);
    assert(tree.program().types[ty] == tree.graph@[ty].decl());
    assert(tree.program().types[ty].vars[i] == (
        tree.graph@[ty].vars@[i].0@,
        tree.graph@[ty].vars@[i].1.decl(),
    ));
    assert(tree.program().has(at));
    assert(tree.var(at) == tree.graph@[ty].vars@[i].1);
    assert(tree.values().contains_key(at) <==> tree.var(at).value is Some);
}

/// A tree is in order when no type declares a name twice, no path is listed twice, all paths lead
/// into the tree, and from each type a line of at most as many parents as there are types leads to
/// one without a parent.
pub proof fn law_trees_in_order(tree: ObjectTree, lines: Seq<Seq<int>>)
    requires
        forall|ty: int, i: int, j: int|
            0 <= ty < tree.graph@.len() && 0 <= i < j < tree.graph@[ty].vars@.len() ==> (
            #[trigger] tree.graph@[ty].vars@[i]).0@ != (#[trigger] tree.graph@[ty].vars@[j]).0@,
        forall|i: int, j: int|
            0 <= i < j < tree.types@.len() ==> (#[trigger] tree.types@[i]).0@ != (
            #[trigger] tree.types@[j]).0@,
        forall|i: int|
            0 <= i < tree.types@.len() ==> (#[trigger] tree.types@[i]).1 < tree.graph@.len(),
        lines.len() == tree.graph@.len(),
        forall|ty: int|
            0 <= ty < lines.len() ==> {
                let line = #[trigger] lines[ty];
                &&& 1 <= line.len() <= tree.graph@.len()
                &&& line[0] == ty
                &&& forall|j: int|
                    0 <= j < line.len() ==> 0 <= #[trigger] line[j] < tree.graph@.len()
                &&& forall|j: int|
                    0 <= j < line.len() - 1 ==> (tree.graph@[#[trigger] line[j]].parent matches Some(
                        parent,
                    ) && parent == line[j + 1])
                &&& tree.graph@[line.last()].parent is None
            },
    ensures
        tree.wf(),
{
    let program = tree.program();
    assert forall|ty: int| 0 <= ty < program.types.len() implies #[trigger] program.types[ty]
        == tree.graph@[ty].decl() by {}
    assert forall|ty: int| 0 <= ty < program.types.len() implies #[trigger] program.rooted(
        ty,
        program.types.len(),
    ) by {
        let line = lines[ty];
        assert forall|j: int| 0 <= j < line.len() - 1 implies program.types[
        #[trigger] line[j]].parent == Some(line[j + 1]) by {
            assert(program.types[line[j]] == tree.graph@[line[j]].decl());
        }
        assert(program.types[line.last()] == tree.graph@[line.last()].decl());
        lookups::law_lines_of_ancestors(program, line, program.types.len());
    }
    assert forall|ty: int| 0 <= ty < program.types.len() implies semantics::distinct_names(
        #[trigger] program.types[ty].vars,
    ) by {
        let vars = program.types[ty].vars;
        assert forall|i: int, j: int| 0 <= i < j < vars.len() implies (#[trigger] vars[i]).0 != (
        #[trigger] vars[j]).0 by {
            assert(tree.graph@[ty].vars@[i].0@ != tree.graph@[ty].vars@[j].0@);
        }
    }
    assert forall|i: int, j: int| 0 <= i < j < program.paths.len() implies (
    #[trigger] program.paths[i]).0 != (#[trigger] program.paths[j]).0 by {
        assert(tree.types@[i].0@ != tree.types@[j].0@);
    }
    assert forall|i: int| 0 <= i < program.paths.len() implies 0 <= (
    #[trigger] program.paths[i]).1 < program.types.len() by {
        assert(tree.types@[i].1 < tree.graph@.len());
    }
}

} // verus!
