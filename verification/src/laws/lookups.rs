//! What names stand for, and what values variables get.
use crate::ast::{Expression, Follow, Term, UnaryOp};
use crate::constant::ConstantV;
use crate::error::{ErrorKindV, ErrorV, FailureV, Location};
use crate::laws::{expressions, terms};
use crate::objtree::{FullValue, NoteV, Parsed};
use crate::render;
use crate::semantics;
use crate::semantics::{Key, Memo, PathV, Program, Run, Scope, Stopped};
use vstd::prelude::*;

verus! {

/// An outcome holds the memo and the value or failure that it is made of.
pub proof fn law_outcomes(
    scope: Scope,
    memo: Memo,
    value: ConstantV,
    failure: FailureV,
    kind: ErrorKindV,
    location: Location,
    stopped: Stopped,
    key: Key,
    note: NoteV,
)
    ensures
        semantics::done(memo, value) == (Run { memo, out: Ok(value) }),
        semantics::halted::<ConstantV>(memo, stopped) == (Run {
            memo,
            out: Err::<ConstantV, Stopped>(stopped),
        }),
        semantics::failed::<ConstantV>(scope, memo, failure) == (Run {
            memo,
            out: Err::<ConstantV, Stopped>(Stopped { failure, open: scope.open }),
        }),
        semantics::error_at(location, kind) == FailureV::Error(ErrorV { location, kind }),
        semantics::refused::<ConstantV>(scope, memo, kind) == (Run {
            memo,
            out: Err::<ConstantV, Stopped>(
                Stopped {
                    failure: FailureV::Error(ErrorV { location: scope.location, kind }),
                    open: scope.open,
                },
            ),
        }),
        memo.with_value(key, value) == (Memo {
            values: memo.values.insert(key, value),
            notes: memo.notes,
        }),
        memo.with_note(note) == (Memo { values: memo.values, notes: memo.notes.push(note) }),
{
}

/// What is found under a name is the first entry of that name, and nothing where there is none.
pub proof fn law_found_entries<T>(entries: Seq<(Seq<char>, T)>, name: Seq<char>)
    ensures
        match semantics::find(entries, name) {
            Some(i) => {
                &&& 0 <= i < entries.len()
                &&& entries[i].0 == name
                &&& forall|j: int| 0 <= j < i ==> (#[trigger] entries[j]).0 != name
            },
            None => forall|j: int| 0 <= j < entries.len() ==> (#[trigger] entries[j]).0 != name,
        },
{
    if exists|i: int| semantics::is_first_named(entries, name, i) {
        let i = choose|i: int| semantics::is_first_named(entries, name, i);
        assert(semantics::is_first_named(entries, name, i));
    } else {
        assert forall|j: int| 0 <= j < entries.len() implies (#[trigger] entries[j]).0 != name by {
            lemma_none_named(entries, name, j);
        }
    }
}

proof fn lemma_none_named<T>(entries: Seq<(Seq<char>, T)>, name: Seq<char>, j: int)
    requires
        0 <= j < entries.len(),
        !exists|i: int| semantics::is_first_named(entries, name, i),
    ensures
        entries[j].0 != name,
    decreases j,
{
    assert forall|k: int| 0 <= k < j implies (#[trigger] entries[k]).0 != name by {
        lemma_none_named(entries, name, k);
    }
    assert(!semantics::is_first_named(entries, name, j));
}

/// A type is found under each path that is listed for it, and none under any other path.
pub proof fn law_types_by_path(program: Program, path: Seq<char>)
    requires
        program.wf(),
    ensures
        forall|i: int|
            0 <= i < program.paths.len() && (#[trigger] program.paths[i]).0 == path
                ==> program.type_at(path) == Some(program.paths[i].1),
        (forall|i: int| 0 <= i < program.paths.len() ==> (#[trigger] program.paths[i]).0 != path)
            ==> program.type_at(path) is None,
{
    law_found_entries(program.paths, path);
    if let Some(k) = semantics::find(program.paths, path) {
        assert forall|i: int|
            0 <= i < program.paths.len() && (#[trigger] program.paths[i]).0 == path implies i
            == k by {
            if i < k {
                assert(program.paths[i].0 != program.paths[k].0);
            }
            if k < i {
                assert(program.paths[k].0 != program.paths[i].0);
            }
        }
    }
}

/// A type is rooted when its ancestors, itself among them, come to an end in as many steps: the
/// line of parents is what follows from it, and from such a line it follows.
pub proof fn law_lines_of_ancestors(program: Program, chain: Seq<int>, limit: nat)
    requires
        1 <= chain.len() <= limit,
        forall|j: int| 0 <= j < chain.len() ==> 0 <= #[trigger] chain[j] < program.types.len(),
        forall|j: int|
            0 <= j < chain.len() - 1 ==> program.types[#[trigger] chain[j]].parent == Some(
                chain[j + 1],
            ),
        program.types[chain.last()].parent is None,
    ensures
        program.rooted(chain[0], limit),
    decreases chain.len(),
{
    assert(0 <= chain[0] < program.types.len());
    if chain.len() > 1 {
        let rest = chain.skip(1);
        assert forall|j: int| 0 <= j < rest.len() implies 0 <= #[trigger] rest[j]
            < program.types.len() by {
            assert(rest[j] == chain[j + 1]);
        }
        assert forall|j: int| 0 <= j < rest.len() - 1 implies program.types[
        #[trigger] rest[j]].parent == Some(rest[j + 1]) by {
            assert(rest[j] == chain[j + 1]);
        }
        assert(program.types[chain[0]].parent == Some(chain[1]));
        law_lines_of_ancestors(program, rest, (limit - 1) as nat);
    }
}

/// A rooted type has a line of ancestors that comes to an end.
pub proof fn law_rooted_types(program: Program, ty: int, limit: nat) -> (chain: Seq<int>)
    requires
        program.rooted(ty, limit),
    ensures
        1 <= chain.len() <= limit,
        chain[0] == ty,
        forall|j: int| 0 <= j < chain.len() ==> 0 <= #[trigger] chain[j] < program.types.len(),
        forall|j: int|
            0 <= j < chain.len() - 1 ==> program.types[#[trigger] chain[j]].parent == Some(
                chain[j + 1],
            ),
        program.types[chain.last()].parent is None,
    decreases limit,
{
    match program.types[ty].parent {
        Some(parent) => {
            let rest = law_rooted_types(program, parent, (limit - 1) as nat);
            let chain = seq![ty] + rest;
            assert forall|j: int| 0 <= j < chain.len() implies 0 <= #[trigger] chain[j]
                < program.types.len() by {
                if j > 0 {
                    assert(chain[j] == rest[j - 1]);
                }
            }
            assert forall|j: int| 0 <= j < chain.len() - 1 implies program.types[
            #[trigger] chain[j]].parent == Some(chain[j + 1]) by {
                if j > 0 {
                    assert(chain[j] == rest[j - 1]);
                    assert(chain[j + 1] == rest[j]);
                }
            }
            assert(chain.last() == rest.last());
            chain
        },
        None => seq![ty],
    }
}

/// Whether a line of types, each the parent of the one before, leads to where a name is declared
/// for the first time, or to its end without it being declared.
pub open spec fn leads_to(
    program: Program,
    ident: Seq<char>,
    chain: Seq<int>,
    found: Option<int>,
) -> bool {
    &&& chain.len() >= 1
    &&& forall|j: int| 0 <= j < chain.len() ==> 0 <= #[trigger] chain[j] < program.types.len()
    &&& forall|j: int|
        0 <= j < chain.len() - 1 ==> {
            &&& program.types[#[trigger] chain[j]].parent == Some(chain[j + 1])
            &&& forall|i: int|
                0 <= i < program.types[chain[j]].vars.len() ==> (
                #[trigger] program.types[chain[j]].vars[i]).0 != ident
        }
    &&& match found {
        Some(i) => {
            &&& 0 <= i < program.types[chain.last()].vars.len()
            &&& program.types[chain.last()].vars[i].0 == ident
        },
        None => {
            &&& program.types[chain.last()].parent is None
            &&& forall|i: int|
                0 <= i < program.types[chain.last()].vars.len() ==> (
                #[trigger] program.types[chain.last()].vars[i]).0 != ident
        },
    }
}

proof fn lemma_search_from(
    program: Program,
    ident: Seq<char>,
    chain: Seq<int>,
    found: Option<int>,
    k: nat,
    limit: nat,
)
    requires
        program.wf(),
        leads_to(program, ident, chain, found),
        k < chain.len(),
        program.rooted(chain[k as int], limit),
    ensures
        program.owner(chain[k as int], ident, limit) == (match found {
            Some(i) => Some((chain.last(), i)),
            None => None,
        }),
        program.searched(chain[k as int], ident, limit) == Seq::new(
            (chain.len() - k) as nat,
            |j: int| NoteV::Searching(chain[k + j]),
        ),
    decreases chain.len() - k,
{
    let ty = chain[k as int];
    let vars = program.types[ty].vars;
    law_found_entries(vars, ident);
    if k < chain.len() - 1 {
        assert(program.types[chain[k as int]].parent == Some(chain[k as int + 1]));
        assert(semantics::find(vars, ident) is None);
        lemma_search_from(program, ident, chain, found, k + 1, (limit - 1) as nat);
        assert(program.searched(ty, ident, limit) =~= seq![NoteV::Searching(ty)]
            + program.searched(chain[k as int + 1], ident, (limit - 1) as nat));
    } else {
        if let Some(i) = found {
            assert(semantics::distinct_names(vars));
            let first = semantics::find(vars, ident)->0;
            if first < i {
                assert(vars[first].0 != vars[i].0);
            }
            if i < first {
                assert(vars[i].0 != vars[first].0);
            }
        }
    }
    assert(program.searched(ty, ident, limit) =~= Seq::new(
        (chain.len() - k) as nat,
        |j: int| NoteV::Searching(chain[k + j]),
    ));
}

/// A name stands for what the nearest ancestor declares under it, and for nothing where none
/// does; the types on the way are noted in their order.
pub proof fn law_nearest_declaration(
    program: Program,
    ident: Seq<char>,
    chain: Seq<int>,
    found: Option<int>,
)
    requires
        program.wf(),
        leads_to(program, ident, chain, found),
    ensures
        program.owner(chain[0], ident, program.types.len()) == (match found {
            Some(i) => Some((chain.last(), i)),
            None => None,
        }),
        program.searched(chain[0], ident, program.types.len()).len() == chain.len(),
        forall|j: int|
            0 <= j < chain.len() ==> program.searched(chain[0], ident, program.types.len())[j]
                == NoteV::Searching(#[trigger] chain[j]),
{
    assert(0 <= chain[0] < program.types.len());
    assert(program.rooted(chain[0], program.types.len()));
    lemma_search_from(program, ident, chain, found, 0, program.types.len());
}

/// A name that is looked up notes the types on the way, and gives the value of the variable that
/// it stands for. An error in that is reported at the place of the lookup, and so is a name that
/// stands for nothing.
#[verifier::rlimit(40)]
pub proof fn law_searches(
    scope: Scope,
    memo: Memo,
    ident: Seq<char>,
    must_be_static: bool,
    chain: Seq<int>,
    found: Option<int>,
    noted: Memo,
)
    requires
        scope.program.wf(),
        leads_to(scope.program, ident, chain, found),
        noted.values == memo.values,
        noted.notes.len() == memo.notes.len() + chain.len(),
        forall|j: int| 0 <= j < memo.notes.len() ==> #[trigger] noted.notes[j] == memo.notes[j],
        forall|j: int|
            0 <= j < chain.len() ==> noted.notes[memo.notes.len() + j] == NoteV::Searching(
                #[trigger] chain[j],
            ),
    ensures
        ({
            let run = semantics::search(scope, memo, chain[0], ident, must_be_static);
            match found {
                None => run == (Run {
                    memo: noted,
                    out: Err::<ConstantV, Stopped>(
                        Stopped {
                            failure: FailureV::Error(
                                ErrorV {
                                    location: scope.location,
                                    kind: ErrorKindV::UnknownVariable(ident),
                                },
                            ),
                            open: scope.open,
                        },
                    ),
                }),
                Some(i) => {
                    let looked_up = semantics::lookup(
                        scope.program,
                        scope.open,
                        noted,
                        (chain.last(), i),
                        must_be_static,
                    );
                    &&& run.memo == looked_up.memo
                    &&& match looked_up.out {
                        Ok(value) => run.out == Ok::<ConstantV, Stopped>(value),
                        Err(stopped) => run.out == Err::<ConstantV, Stopped>(
                            Stopped {
                                failure: match stopped.failure {
                                    FailureV::Error(error) => FailureV::Error(
                                        ErrorV { location: scope.location, kind: error.kind },
                                    ),
                                    FailureV::Arithmetic => FailureV::Arithmetic,
                                },
                                open: stopped.open,
                            },
                        ),
                    }
                },
            }
        }),
{
    law_nearest_declaration(scope.program, ident, chain, found);
    let ty = chain[0];
    let searched = scope.program.searched(ty, ident, scope.program.types.len());
    assert(noted == (Memo { values: memo.values, notes: memo.notes + searched })) by {
        assert forall|j: int| 0 <= j < noted.notes.len() implies #[trigger] noted.notes[j] == (
        memo.notes + searched)[j] by {
            if j >= memo.notes.len() {
                let k = j - memo.notes.len();
                assert(noted.notes[memo.notes.len() + k] == NoteV::Searching(chain[k]));
                assert(searched[k] == NoteV::Searching(chain[k]));
            }
        }
        assert(noted.notes =~= memo.notes + searched);
    }
    lemma_search_unfolded(scope, memo, ty, ident, must_be_static, noted);
}

proof fn lemma_search_unfolded(
    scope: Scope,
    memo: Memo,
    ty: int,
    ident: Seq<char>,
    must_be_static: bool,
    noted: Memo,
)
    requires
        noted == (Memo {
            values: memo.values,
            notes: memo.notes + scope.program.searched(ty, ident, scope.program.types.len()),
        }),
    ensures
        semantics::search(scope, memo, ty, ident, must_be_static) == (match scope.program.owner(
            ty,
            ident,
            scope.program.types.len(),
        ) {
            Some(key) => semantics::relocated(
                semantics::lookup(scope.program, scope.open, noted, key, must_be_static),
                scope.location,
            ),
            None => semantics::refused(scope, noted, ErrorKindV::UnknownVariable(ident)),
        }),
{
}

/// An identifier is null where it is `null`, and otherwise what the name stands for in the type
/// whose variables are in sight.
pub proof fn law_identifiers(
    scope: Scope,
    memo: Memo,
    ident: String,
    hint: Option<PathV>,
    must_be_static: bool,
)
    ensures
        ident@ == "null"@ ==> semantics::fold_ident(scope, memo, ident@, hint, must_be_static) == (
        Run { memo, out: Ok(ConstantV::Null(hint)) }),
        ident@ != "null"@ ==> semantics::fold_ident(scope, memo, ident@, hint, must_be_static)
            == semantics::search(scope, memo, scope.ty, ident@, must_be_static),
        semantics::fold_term(scope, memo, Term::Ident(ident), hint) == semantics::fold_ident(
            scope,
            memo,
            ident@,
            hint,
            false,
        ),
{
}

/// An initialiser gives what its expression folds to, which is noted with its text; a failure is
/// noted too, unless it is one of arithmetic. One that holds no expression, or that could not be
/// parsed, is refused, the latter with the error of the parser.
pub proof fn law_initialisers(
    scope: Scope,
    memo: Memo,
    full_value: FullValue,
    hint: Option<PathV>,
)
    ensures
        ({
            let run = semantics::fold_full_value(scope, memo, full_value, hint);
            match full_value.parsed {
                Parsed::Failed(error) => run == (Run {
                    memo,
                    out: Err::<ConstantV, Stopped>(
                        Stopped { failure: FailureV::Error(error@), open: scope.open },
                    ),
                }),
                Parsed::Nothing => run == (Run {
                    memo,
                    out: Err::<ConstantV, Stopped>(
                        Stopped {
                            failure: FailureV::Error(
                                ErrorV {
                                    location: scope.location,
                                    kind: ErrorKindV::NotAnExpression,
                                },
                            ),
                            open: scope.open,
                        },
                    ),
                }),
                Parsed::Expression(expression) => {
                    let folded = semantics::fold_expr(scope, memo, expression, hint);
                    &&& run.out == folded.out
                    &&& run.memo.values == folded.memo.values
                    &&& run.memo.notes == (match folded.out {
                        Ok(value) => folded.memo.notes.push(
                            NoteV::Folded(full_value.source@, Some(render::render(value))),
                        ),
                        Err(stopped) => match stopped.failure {
                            FailureV::Error(_) => folded.memo.notes.push(
                                NoteV::Folded(full_value.source@, None),
                            ),
                            FailureV::Arithmetic => folded.memo.notes,
                        },
                    })
                },
            }
        }),
{
}

/// The type that is expected of a variable's value is the declared one, if one was declared.
pub proof fn law_declared_types(type_path: PathV)
    ensures
        type_path.len() == 0 ==> semantics::declared_hint(type_path) is None,
        type_path.len() > 0 ==> semantics::declared_hint(type_path) == Some(type_path),
{
}

/// A variable without a value gets the one that its initialiser gives in the scope of its own
/// type, with the declared type expected and the variable open, whatever that value and type are.
/// That value is recorded for the variable, beside what was found on the way, and is what the
/// lookup gives. Where the initialiser fails, the lookup fails in the same way.
pub proof fn law_values_of_initialisers(
    program: Program,
    open: Set<Key>,
    memo: Memo,
    key: Key,
    must_be_static: bool,
    hint: Option<PathV>,
)
    requires
        program.has(key),
        !memo.values.contains_key(key),
        !open.contains(key),
        program.var(key).full_value is Some,
        program.var(key).const_evaluable,
        must_be_static ==> program.var(key).is_static,
        program.var(key).type_path.len() == 0 ==> hint is None,
        program.var(key).type_path.len() > 0 ==> hint == Some(program.var(key).type_path),
    ensures
        ({
            let var = program.var(key);
            let inside = Scope {
                program,
                open: open.insert(key),
                location: var.location,
                ty: key.0,
            };
            let folded = semantics::fold_full_value(inside, memo, var.full_value->0, hint);
            let run = semantics::lookup(program, open, memo, key, must_be_static);
            &&& folded.out matches Ok(value) ==> run == (Run {
                memo: Memo {
                    values: folded.memo.values.insert(key, value),
                    notes: folded.memo.notes,
                },
                out: Ok(value),
            })
            &&& folded.out is Err ==> run == folded
        }),
{
    let var = program.var(key);
    let inside = Scope { program, open: open.insert(key), location: var.location, ty: key.0 };
    semantics::lemma_closed_count(program, open, key);
    let folded = semantics::fold_full_value(inside, memo, var.full_value->0, hint);
    let run = semantics::lookup(program, open, memo, key, must_be_static);
    assert(folded.out matches Ok(value) ==> run.out == Ok::<ConstantV, Stopped>(value));
}

/// A variable that is set to an expression gets what the expression folds to in the scope of its
/// own type, with the declared type expected and the variable open.
pub proof fn law_values_of_expressions(
    program: Program,
    open: Set<Key>,
    memo: Memo,
    key: Key,
    must_be_static: bool,
    hint: Option<PathV>,
    expression: Expression,
)
    requires
        program.has(key),
        !memo.values.contains_key(key),
        !open.contains(key),
        program.var(key).full_value matches Some(full_value) && full_value.parsed
            == Parsed::Expression(expression),
        program.var(key).const_evaluable,
        must_be_static ==> program.var(key).is_static,
        program.var(key).type_path.len() == 0 ==> hint is None,
        program.var(key).type_path.len() > 0 ==> hint == Some(program.var(key).type_path),
    ensures
        ({
            let inside = Scope {
                program,
                open: open.insert(key),
                location: program.var(key).location,
                ty: key.0,
            };
            let folded = semantics::fold_expr(inside, memo, expression, hint);
            let run = semantics::lookup(program, open, memo, key, must_be_static);
            &&& run.out == folded.out
            &&& folded.out matches Ok(value) ==> run.memo.values == folded.memo.values.insert(
                key,
                value,
            )
            &&& folded.out is Err ==> run.memo.values == folded.memo.values
        }),
{
    law_values_of_initialisers(program, open, memo, key, must_be_static, hint);
    let inside = Scope {
        program,
        open: open.insert(key),
        location: program.var(key).location,
        ty: key.0,
    };
    law_initialisers(inside, memo, program.var(key).full_value->0, hint);
}

/// A variable that is set to a literal, or to a list of literals, gets just that, whatever type it
/// was declared with.
pub proof fn law_values_of_literals(
    program: Program,
    open: Set<Key>,
    memo: Memo,
    key: Key,
    must_be_static: bool,
    unary: Vec<UnaryOp>,
    term: Term,
    follow: Vec<Follow>,
)
    requires
        program.has(key),
        !memo.values.contains_key(key),
        !open.contains(key),
        unary@.len() == 0,
        follow@.len() == 0,
        program.var(key).full_value matches Some(full_value) && full_value.parsed
            == Parsed::Expression(Expression::Base { unary, term, follow }),
        program.var(key).const_evaluable,
        must_be_static ==> program.var(key).is_static,
    ensures
        ({
            let expression = Expression::Base { unary, term, follow };
            let run = semantics::lookup(program, open, memo, key, must_be_static);
            &&& terms::literal(expression) matches Some(value) ==> {
                &&& run.out == Ok::<ConstantV, Stopped>(value)
                &&& run.memo.values == memo.values.insert(key, value)
            }
            &&& term matches Term::List(items) ==> ((forall|j: int|
                0 <= j < items@.len() ==> terms::literal((#[trigger] items@[j]).0) is Some
                    && items@[j].1 is None) ==> {
                &&& run.out matches Ok(ConstantV::List(values))
                &&& run.memo.values == memo.values.insert(key, ConstantV::List(values))
                &&& values.len() == items@.len()
                &&& forall|j: int|
                    0 <= j < items@.len() ==> terms::literal((#[trigger] items@[j]).0) == Some(
                        values[j].0,
                    ) && values[j].1 is None
            })
        }),
{
    let expression = Expression::Base { unary, term, follow };
    let var = program.var(key);
    let hint = if var.type_path.len() == 0 {
        None
    } else {
        Some(var.type_path)
    };
    let inside = Scope { program, open: open.insert(key), location: var.location, ty: key.0 };
    law_values_of_expressions(program, open, memo, key, must_be_static, hint, expression);
    expressions::law_bare_terms(inside, memo, unary, term, follow, hint);
    let folded = semantics::fold_term(inside, memo, term, hint);
    match term {
        Term::List(items) => {
            if forall|j: int|
                0 <= j < items@.len() ==> terms::literal((#[trigger] items@[j]).0) is Some
                    && items@[j].1 is None {
                terms::law_lists_of_literals(inside, memo, items, hint);
            }
        },
        Term::Int(n) => {
            assert(folded.out == Ok::<ConstantV, Stopped>(ConstantV::Int(n)));
        },
        Term::String(text) => {
            assert(folded.out == Ok::<ConstantV, Stopped>(ConstantV::String(text@)));
        },
        Term::Resource(name) => {
            assert(folded.out == Ok::<ConstantV, Stopped>(ConstantV::Resource(name@)));
        },
        _ => {},
    }
}

/// A variable that has a value gives it and nothing changes; one without initialiser gets null of
/// its declared type. Where a static variable is asked for, both have to be one.
pub proof fn law_values_without_folding(
    program: Program,
    open: Set<Key>,
    memo: Memo,
    key: Key,
    must_be_static: bool,
)
    requires
        must_be_static ==> program.var(key).is_static,
    ensures
        ({
            let run = semantics::lookup(program, open, memo, key, must_be_static);
            &&& memo.values.contains_key(key) ==> run == (Run { memo, out: Ok(memo.values[key]) })
            &&& !memo.values.contains_key(key) && program.var(key).full_value is None ==> {
                let null = ConstantV::Null(
                    if program.var(key).type_path.len() == 0 {
                        None
                    } else {
                        Some(program.var(key).type_path)
                    },
                );
                run == (Run {
                    memo: Memo { values: memo.values.insert(key, null), notes: memo.notes },
                    out: Ok(null),
                })
            }
        }),
{
}

/// A variable that is refused leaves everything as it is: one that is met again while it is open,
/// one that need not be constant, and one that is not static where a static one is asked for. The
/// error names the variable and is reported where it was declared.
pub proof fn law_refused_variables(
    program: Program,
    open: Set<Key>,
    memo: Memo,
    key: Key,
    must_be_static: bool,
)
    ensures
        ({
            let var = program.var(key);
            let name = program.name(key);
            let unfolded = var.full_value is Some && !memo.values.contains_key(key);
            let refused = |kind: ErrorKindV|
                Run {
                    memo,
                    out: Err::<ConstantV, Stopped>(
                        Stopped {
                            failure: FailureV::Error(ErrorV { location: var.location, kind }),
                            open,
                        },
                    ),
                };
            let run = semantics::lookup(program, open, memo, key, must_be_static);
            if unfolded && open.contains(key) {
                run == refused(ErrorKindV::RecursiveReference(name))
            } else if unfolded && !var.const_evaluable {
                run == refused(ErrorKindV::NonConstVariable(name))
            } else {
                must_be_static && !var.is_static ==> run == refused(
                    ErrorKindV::NonStaticVariable(name),
                )
            }
        }),
{
}

} // verus!
