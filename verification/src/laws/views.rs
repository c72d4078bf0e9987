//! What constants, errors and notes stand for, and when constants are equal, part by part.
use crate::ast;
use crate::ast::{Follow, NewType, Prefab, TypePath};
use crate::constant;
use crate::constant::{Constant, ConstantV, NewTypeV, PrefabV};
use crate::equality;
use crate::equality::NumberEquality;
use crate::error::{DMError, ErrorKind, ErrorKindV, Failure, FailureV, FollowV};
use crate::objtree;
use crate::objtree::{Note, NoteV};
use vstd::prelude::*;

verus! {

/// A path stands for its segments, each with its operator and its characters.
pub proof fn law_paths_stand_for(path: TypePath)
    ensures
        ast::path_view(path@).len() == path@.len(),
        forall|j: int|
            0 <= j < path@.len() ==> #[trigger] ast::path_view(path@)[j] == (
                path@[j].0,
                path@[j].1@,
            ),
        constant::hint_view(Some(path)) == Some(ast::path_view(path@)),
        constant::hint_view(None) is None,
{
}

/// A constant stands for the constant of its kind, of what its parts stand for.
pub proof fn law_constants_stand_for(value: Constant)
    ensures
        match value {
            Constant::Null(hint) => value@ == ConstantV::Null(constant::hint_view(hint)),
            Constant::New { type_, args } => value@ matches ConstantV::New {
                type_: folded,
                args: values,
            } && {
                &&& match (type_, folded) {
                    (NewType::Implicit, NewTypeV::Implicit) => true,
                    (NewType::Prefab(l), NewTypeV::Prefab(r)) => constant::prefab_view(l) == r,
                    (NewType::Ident(l), NewTypeV::Ident(r)) => l@ == r,
                    _ => false,
                }
                &&& match (args, values) {
                    (None, None) => true,
                    (Some(args), Some(values)) => {
                        &&& values.len() == args@.len()
                        &&& forall|j: int|
                            0 <= j < args@.len() ==> #[trigger] values[j] == args@[j]@
                    },
                    _ => false,
                }
            },
            Constant::List(items) => value@ matches ConstantV::List(values) && {
                &&& values.len() == items@.len()
                &&& forall|j: int|
                    0 <= j < items@.len() ==> (#[trigger] values[j]).0 == items@[j].0@ && (
                    match items@[j].1 {
                        Some(inner) => values[j].1 == Some(inner@),
                        None => values[j].1 is None,
                    })
            },
            Constant::Call(const_fn, args) => value@ matches ConstantV::Call(called, values) && {
                &&& called == const_fn
                &&& values.len() == args@.len()
                &&& forall|j: int| 0 <= j < args@.len() ==> #[trigger] values[j] == args@[j]@
            },
            Constant::Prefab(prefab) => value@ == ConstantV::Prefab(constant::prefab_view(prefab)),
            Constant::String(text) => value@ == ConstantV::String(text@),
            Constant::Resource(name) => value@ == ConstantV::Resource(name@),
            Constant::Int(n) => value@ == ConstantV::Int(n),
            Constant::Float(number) => value@ == ConstantV::Float(number),
        },
{
    match value {
        Constant::List(items) => {
            let values = constant::items_view(items@);
            assert forall|j: int| 0 <= j < items@.len() implies (#[trigger] values[j]).0
                == items@[j].0@ && (match items@[j].1 {
                Some(inner) => values[j].1 == Some(inner@),
                None => values[j].1 is None,
            }) by {
                assert(values[j] == constant::item_view(items@[j]));
            }
        },
        Constant::Call(_, args) => {
            let values = constant::constants_view(args@);
            assert forall|j: int| 0 <= j < args@.len() implies #[trigger] values[j]
                == args@[j]@ by {}
        },
        Constant::New { type_, args } => {
            let folded = constant::new_type_view(type_);
            if let Some(args) = args {
                let values = constant::constants_view(args@);
                assert forall|j: int| 0 <= j < args@.len() implies #[trigger] values[j]
                    == args@[j]@ by {}
            }
        },
        _ => {},
    }
}

/// A prefab stands for its path and for its overrides, each a name and what its value stands for.
pub proof fn law_prefabs_stand_for(prefab: Prefab<Constant>)
    ensures
        constant::prefab_view(prefab).path == ast::path_view(prefab.path@),
        constant::prefab_view(prefab).vars == constant::vars_view(prefab.vars@),
        constant::vars_view(prefab.vars@).len() == prefab.vars@.len(),
        forall|j: int|
            0 <= j < prefab.vars@.len() ==> #[trigger] constant::vars_view(prefab.vars@)[j] == (
                prefab.vars@[j].0@,
                prefab.vars@[j].1@,
            ),
{
}

/// Several constants, and the items of a list, stand for what each of them stands for.
pub proof fn law_sequences_stand_for(
    constants: Seq<Constant>,
    items: Seq<(Constant, Option<Constant>)>,
)
    ensures
        constant::constants_view(constants).len() == constants.len(),
        forall|j: int|
            0 <= j < constants.len() ==> #[trigger] constant::constants_view(constants)[j]
                == constants[j]@,
        constant::items_view(items).len() == items.len(),
        forall|j: int|
            0 <= j < items.len() ==> (#[trigger] constant::items_view(items)[j]).0 == items[j].0@
                && (match items[j].1 {
                Some(value) => constant::items_view(items)[j].1 == Some(value@),
                None => constant::items_view(items)[j].1 is None,
            }),
{
    assert forall|j: int| 0 <= j < items.len() implies (#[trigger] constant::items_view(
        items,
    )[j]).0 == items[j].0@ && (match items[j].1 {
        Some(value) => constant::items_view(items)[j].1 == Some(value@),
        None => constant::items_view(items)[j].1 is None,
    }) by {
        assert(constant::items_view(items)[j] == constant::item_view(items[j]));
    }
}

/// An error stands for its place and for its kind, with what is named in it.
pub proof fn law_errors_stand_for(error: DMError, follow: Follow)
    ensures
        error@.location == error.location,
        error@.kind == (match error.kind {
            ErrorKind::RecursiveReference(name) => ErrorKindV::RecursiveReference(name@),
            ErrorKind::NonConstVariable(name) => ErrorKindV::NonConstVariable(name@),
            ErrorKind::NonStaticVariable(name) => ErrorKindV::NonStaticVariable(name@),
            ErrorKind::NotAnExpression => ErrorKindV::NotAnExpression,
            ErrorKind::AugmentedAssignment => ErrorKindV::AugmentedAssignment,
            ErrorKind::Followers(term, follow) => ErrorKindV::Followers(term@, follow@),
            ErrorKind::UnaryOperation(op, term) => ErrorKindV::UnaryOperation(op, term@),
            ErrorKind::BinaryOperation(lhs, op, rhs) => ErrorKindV::BinaryOperation(
                lhs@,
                op,
                rhs@,
            ),
            ErrorKind::NewExpression => ErrorKindV::NewExpression,
            ErrorKind::MalformedRgb => ErrorKindV::MalformedRgb,
            ErrorKind::FunctionCall(name) => ErrorKindV::FunctionCall(name@),
            ErrorKind::UnknownTypepath(path) => ErrorKindV::UnknownTypepath(path@),
            ErrorKind::UnknownVariable(name) => ErrorKindV::UnknownVariable(name@),
            ErrorKind::Undeclared => ErrorKindV::Undeclared,
            ErrorKind::Syntax(text) => ErrorKindV::Syntax(text@),
        }),
        Failure::Error(error)@ == FailureV::Error(error@),
        Failure::Arithmetic@ == FailureV::Arithmetic,
        follow@ == (match follow {
            Follow::Field(name) => FollowV::Field(name@),
            Follow::Index(index) => FollowV::Index(*index),
            Follow::Call(name, args) => FollowV::Call(name@, args@),
        }),
{
}

/// A note stands for what it tells of.
pub proof fn law_notes_stand_for(note: Note, lines: Seq<String>)
    ensures
        match note {
            Note::Searching(ty) => note@ == NoteV::Searching(ty as int),
            Note::IdentAsListKey(name) => note@ == NoteV::IdentAsListKey(name@),
            Note::Folded { source, text: Some(text) } => note@ == NoteV::Folded(
                source@,
                Some(text@),
            ),
            Note::Folded { source, text: None } => note@ == NoteV::Folded(source@, None),
        },
        objtree::lines_view(lines).len() == lines.len(),
        forall|j: int|
            0 <= j < lines.len() ==> #[trigger] objtree::lines_view(lines)[j] == lines[j]@,
{
}

proof fn lemma_same_first_pointwise(
    lhs: Seq<ConstantV>,
    rhs: Seq<ConstantV>,
    n: nat,
    eq: NumberEquality,
)
    requires
        n <= lhs.len(),
    ensures
        equality::same_first(lhs, rhs, n, eq) <==> forall|j: int|
            0 <= j < n ==> equality::same(#[trigger] lhs[j], rhs[j], eq),
    decreases n,
{
    if n > 0 {
        lemma_same_first_pointwise(lhs, rhs, (n - 1) as nat, eq);
        assert(equality::same_first(lhs, rhs, n, eq) == (equality::same_first(
            lhs,
            rhs,
            (n - 1) as nat,
            eq,
        ) && equality::same(lhs[n - 1], rhs[n - 1], eq)));
    }
}

proof fn lemma_same_items_pointwise(
    lhs: Seq<(ConstantV, Option<ConstantV>)>,
    rhs: Seq<(ConstantV, Option<ConstantV>)>,
    n: nat,
    eq: NumberEquality,
)
    requires
        n <= lhs.len(),
    ensures
        equality::same_first_items(lhs, rhs, n, eq) <==> forall|j: int|
            0 <= j < n ==> equality::same((#[trigger] lhs[j]).0, rhs[j].0, eq) && (match (
                lhs[j].1,
                rhs[j].1,
            ) {
                (Some(l), Some(r)) => equality::same(l, r, eq),
                (None, None) => true,
                _ => false,
            }),
    decreases n,
{
    if n > 0 {
        lemma_same_items_pointwise(lhs, rhs, (n - 1) as nat, eq);
        let (l, r) = (lhs[n - 1], rhs[n - 1]);
        assert(equality::same_first_items(lhs, rhs, n, eq) == (equality::same_first_items(
            lhs,
            rhs,
            (n - 1) as nat,
            eq,
        ) && equality::same_item(l, r, eq)));
        assert(equality::same_item(l, r, eq) == (equality::same(l.0, r.0, eq) && (match (l.1, r.1) {
            (Some(l), Some(r)) => equality::same(l, r, eq),
            (None, None) => true,
            _ => false,
        })));
    }
}

proof fn lemma_same_vars_pointwise(
    lhs: Seq<(Seq<char>, ConstantV)>,
    rhs: Seq<(Seq<char>, ConstantV)>,
    n: nat,
    eq: NumberEquality,
)
    requires
        n <= lhs.len(),
    ensures
        equality::same_first_vars(lhs, rhs, n, eq) <==> forall|j: int|
            0 <= j < n ==> (#[trigger] lhs[j]).0 == rhs[j].0 && equality::same(
                lhs[j].1,
                rhs[j].1,
                eq,
            ),
    decreases n,
{
    if n > 0 {
        lemma_same_vars_pointwise(lhs, rhs, (n - 1) as nat, eq);
        assert(equality::same_first_vars(lhs, rhs, n, eq) == (equality::same_first_vars(
            lhs,
            rhs,
            (n - 1) as nat,
            eq,
        ) && lhs[n - 1].0 == rhs[n - 1].0 && equality::same(lhs[n - 1].1, rhs[n - 1].1, eq)));
    }
}

/// Prefabs are equal when their paths are, and their overrides one by one, names and values.
pub proof fn law_equal_prefabs(
    lhs: PrefabV<ConstantV>,
    rhs: PrefabV<ConstantV>,
    eq: NumberEquality,
)
    ensures
        equality::same_prefab(lhs, rhs, eq) <==> {
            &&& lhs.path == rhs.path
            &&& lhs.vars.len() == rhs.vars.len()
            &&& forall|j: int|
                0 <= j < lhs.vars.len() ==> (#[trigger] lhs.vars[j]).0 == rhs.vars[j].0
                    && equality::same(lhs.vars[j].1, rhs.vars[j].1, eq)
        },
{
    lemma_same_vars_pointwise(lhs.vars, rhs.vars, lhs.vars.len(), eq);
}

/// Constants are equal when they are of one kind and their parts are equal one by one: sequences
/// when they are as long, and numbers when they are equal as numbers.
pub proof fn law_equal_constants(lhs: ConstantV, rhs: ConstantV, eq: NumberEquality)
    ensures
        equality::same(lhs, rhs, eq) <==> (match (lhs, rhs) {
            (ConstantV::Null(l), ConstantV::Null(r)) => l == r,
            (
                ConstantV::New { type_: l, args: l_args },
                ConstantV::New { type_: r, args: r_args },
            ) => {
                &&& match (l, r) {
                    (NewTypeV::Implicit, NewTypeV::Implicit) => true,
                    (NewTypeV::Prefab(l), NewTypeV::Prefab(r)) => equality::same_prefab(l, r, eq),
                    (NewTypeV::Ident(l), NewTypeV::Ident(r)) => l == r,
                    _ => false,
                }
                &&& match (l_args, r_args) {
                    (Some(l), Some(r)) => {
                        &&& l.len() == r.len()
                        &&& forall|j: int|
                            0 <= j < l.len() ==> equality::same(#[trigger] l[j], r[j], eq)
                    },
                    (None, None) => true,
                    _ => false,
                }
            },
            (ConstantV::List(l), ConstantV::List(r)) => {
                &&& l.len() == r.len()
                &&& forall|j: int|
                    0 <= j < l.len() ==> equality::same((#[trigger] l[j]).0, r[j].0, eq) && (
                    match (l[j].1, r[j].1) {
                        (Some(l), Some(r)) => equality::same(l, r, eq),
                        (None, None) => true,
                        _ => false,
                    })
            },
            (ConstantV::Call(l_fn, l), ConstantV::Call(r_fn, r)) => {
                &&& l_fn == r_fn
                &&& l.len() == r.len()
                &&& forall|j: int| 0 <= j < l.len() ==> equality::same(#[trigger] l[j], r[j], eq)
            },
            (ConstantV::Prefab(l), ConstantV::Prefab(r)) => equality::same_prefab(l, r, eq),
            (ConstantV::String(l), ConstantV::String(r)) => l == r,
            (ConstantV::Resource(l), ConstantV::Resource(r)) => l == r,
            (ConstantV::Int(l), ConstantV::Int(r)) => l == r,
            (ConstantV::Float(l), ConstantV::Float(r)) => eq(l, r),
            _ => false,
        }),
{
    match (lhs, rhs) {
        (ConstantV::New { type_: l, args: l_args }, ConstantV::New { type_: r, args: r_args }) => {
            let types = equality::same_new_type(l, r, eq);
            if let (NewTypeV::Prefab(l), NewTypeV::Prefab(r)) = (l, r) {
                assert(types == equality::same_prefab(l, r, eq));
            }
            if let (Some(l), Some(r)) = (l_args, r_args) {
                lemma_same_first_pointwise(l, r, l.len(), eq);
                assert(equality::same_all(l, r, eq) == (l.len() == r.len()
                    && equality::same_first(l, r, l.len(), eq)));
            }
        },
        (ConstantV::List(l), ConstantV::List(r)) => {
            lemma_same_items_pointwise(l, r, l.len(), eq);
            assert(equality::same_items(l, r, eq) == (l.len() == r.len()
                && equality::same_first_items(l, r, l.len(), eq)));
        },
        (ConstantV::Call(_, l), ConstantV::Call(_, r)) => {
            lemma_same_first_pointwise(l, r, l.len(), eq);
            assert(equality::same_all(l, r, eq) == (l.len() == r.len() && equality::same_first(
                l,
                r,
                l.len(),
                eq,
            )));
        },
        (ConstantV::Prefab(l), ConstantV::Prefab(r)) => {
            assert(equality::same(lhs, rhs, eq) == equality::same_prefab(l, r, eq));
        },
        _ => {},
    }
}

} // verus!
