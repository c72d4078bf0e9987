//! When two constants are equal.
//!
//! Constants are equal when they are made alike of equal parts. Whether two single-precision
//! numbers are equal is for whoever works them out to say, so the answer here is a list of pairs
//! of numbers: the constants are equal exactly when the numbers of each pair are.
use crate::ast;
use crate::ast::{NewType, Prefab, TypePath};
use crate::constant;
use crate::constant::{Constant, ConstantV, FloatValue, NewTypeV, PrefabV, TypedConstant};
use vstd::prelude::*;

verus! {

/// Which numbers are equal.
pub type NumberEquality = spec_fn(FloatValue, FloatValue) -> bool;

/// Whether two constants are equal, numbers being equal where `eq` says so.
pub open spec fn same(lhs: ConstantV, rhs: ConstantV, eq: NumberEquality) -> bool
    decreases lhs, 0nat,
{
    match (lhs, rhs) {
        (ConstantV::Null(l), ConstantV::Null(r)) => l == r,
        (
            ConstantV::New { type_: l, args: l_args },
            ConstantV::New { type_: r, args: r_args },
        ) => same_new_type(l, r, eq) && match (l_args, r_args) {
            (Some(l), Some(r)) => same_all(l, r, eq),
            (None, None) => true,
            _ => false,
        },
        (ConstantV::List(l), ConstantV::List(r)) => same_items(l, r, eq),
        (ConstantV::Call(l_fn, l), ConstantV::Call(r_fn, r)) => l_fn == r_fn && same_all(l, r, eq),
        (ConstantV::Prefab(l), ConstantV::Prefab(r)) => same_prefab(l, r, eq),
        (ConstantV::String(l), ConstantV::String(r)) => l == r,
        (ConstantV::Resource(l), ConstantV::Resource(r)) => l == r,
        (ConstantV::Int(l), ConstantV::Int(r)) => l == r,
        (ConstantV::Float(l), ConstantV::Float(r)) => eq(l, r),
        _ => false,
    }
}

pub open spec fn same_new_type(
    lhs: NewTypeV<ConstantV>,
    rhs: NewTypeV<ConstantV>,
    eq: NumberEquality,
) -> bool
    decreases lhs, 0nat,
{
    match (lhs, rhs) {
        (NewTypeV::Implicit, NewTypeV::Implicit) => true,
        (NewTypeV::Prefab(l), NewTypeV::Prefab(r)) => same_prefab(l, r, eq),
        (NewTypeV::Ident(l), NewTypeV::Ident(r)) => l == r,
        _ => false,
    }
}

pub open spec fn same_all(lhs: Seq<ConstantV>, rhs: Seq<ConstantV>, eq: NumberEquality) -> bool
    decreases lhs, lhs.len() + 1,
{
    lhs.len() == rhs.len() && same_first(lhs, rhs, lhs.len(), eq)
}

/// Whether the first `n` constants of two sequences are equal.
pub open spec fn same_first(
    lhs: Seq<ConstantV>,
    rhs: Seq<ConstantV>,
    n: nat,
    eq: NumberEquality,
) -> bool
    decreases lhs, n,
{
    n == 0 || n > lhs.len() || {
        &&& same_first(lhs, rhs, (n - 1) as nat, eq)
        &&& same(lhs[n - 1], rhs[n - 1], eq)
    }
}

/// Whether two items of a list are equal.
pub open spec fn same_item(
    lhs: (ConstantV, Option<ConstantV>),
    rhs: (ConstantV, Option<ConstantV>),
    eq: NumberEquality,
) -> bool
    decreases lhs, 0nat,
{
    same(lhs.0, rhs.0, eq) && match (lhs.1, rhs.1) {
        (Some(l), Some(r)) => same(l, r, eq),
        (None, None) => true,
        _ => false,
    }
}

pub open spec fn same_items(
    lhs: Seq<(ConstantV, Option<ConstantV>)>,
    rhs: Seq<(ConstantV, Option<ConstantV>)>,
    eq: NumberEquality,
) -> bool
    decreases lhs, lhs.len() + 1,
{
    lhs.len() == rhs.len() && same_first_items(lhs, rhs, lhs.len(), eq)
}

/// Whether the first `n` items of two lists are equal.
pub open spec fn same_first_items(
    lhs: Seq<(ConstantV, Option<ConstantV>)>,
    rhs: Seq<(ConstantV, Option<ConstantV>)>,
    n: nat,
    eq: NumberEquality,
) -> bool
    decreases lhs, n,
{
    n == 0 || n > lhs.len() || {
        &&& same_first_items(lhs, rhs, (n - 1) as nat, eq)
        &&& same_item(lhs[n - 1], rhs[n - 1], eq)
    }
}

/// Whether two prefabs are equal, the order of the overrides being part of them.
pub open spec fn same_prefab(
    lhs: PrefabV<ConstantV>,
    rhs: PrefabV<ConstantV>,
    eq: NumberEquality,
) -> bool
    decreases lhs, 0nat,
{
    &&& lhs.path == rhs.path
    &&& lhs.vars.len() == rhs.vars.len()
    &&& same_first_vars(lhs.vars, rhs.vars, lhs.vars.len(), eq)
}

/// Whether the first `n` overrides of two prefabs are equal.
pub open spec fn same_first_vars(
    lhs: Seq<(Seq<char>, ConstantV)>,
    rhs: Seq<(Seq<char>, ConstantV)>,
    n: nat,
    eq: NumberEquality,
) -> bool
    decreases lhs, n,
{
    n == 0 || n > lhs.len() || {
        &&& same_first_vars(lhs, rhs, (n - 1) as nat, eq)
        &&& lhs[n - 1].0 == rhs[n - 1].0
        &&& same(lhs[n - 1].1, rhs[n - 1].1, eq)
    }
}

/// Whether the numbers of each pair are equal, from the `start`th pair on.
pub open spec fn all_equal(
    pairs: Seq<(FloatValue, FloatValue)>,
    start: int,
    eq: NumberEquality,
) -> bool {
    forall|i: int| start <= i < pairs.len() ==> eq((#[trigger] pairs[i]).0, pairs[i].1)
}

/// Pairs that are added to others.
proof fn lemma_all_equal_then(
    before: Seq<(FloatValue, FloatValue)>,
    after: Seq<(FloatValue, FloatValue)>,
    start: int,
)
    requires
        before.is_prefix_of(after),
        0 <= start <= before.len(),
    ensures
        forall|eq: NumberEquality| #[trigger]
            all_equal(after, start, eq) == (all_equal(before, start, eq) && all_equal(
                after,
                before.len() as int,
                eq,
            )),
{
    assert forall|eq: NumberEquality| #[trigger]
        all_equal(after, start, eq) == (all_equal(before, start, eq) && all_equal(
            after,
            before.len() as int,
            eq,
        )) by {
        assert forall|i: int| 0 <= i < before.len() implies #[trigger] before[i] == after[i] by {}
        if all_equal(after, start, eq) {
            assert forall|i: int| start <= i < before.len() implies eq(
                (#[trigger] before[i]).0,
                before[i].1,
            ) by {
                assert(eq(after[i].0, after[i].1));
            }
        }
        if all_equal(before, start, eq) && all_equal(after, before.len() as int, eq) {
            assert forall|i: int| start <= i < after.len() implies eq(
                (#[trigger] after[i]).0,
                after[i].1,
            ) by {
                if i < before.len() {
                    assert(eq(before[i].0, before[i].1));
                }
            }
        }
    }
}

/// Where the first `n` constants are equal, so are the first `i` of them.
proof fn lemma_same_first(
    lhs: Seq<ConstantV>,
    rhs: Seq<ConstantV>,
    i: nat,
    n: nat,
    eq: NumberEquality,
)
    requires
        i <= n <= lhs.len(),
        same_first(lhs, rhs, n, eq),
    ensures
        same_first(lhs, rhs, i, eq),
    decreases n,
{
    if i < n {
        lemma_same_first(lhs, rhs, i, (n - 1) as nat, eq);
    }
}

/// Where the first `n` items are equal, so are the first `i` of them.
proof fn lemma_same_first_items(
    lhs: Seq<(ConstantV, Option<ConstantV>)>,
    rhs: Seq<(ConstantV, Option<ConstantV>)>,
    i: nat,
    n: nat,
    eq: NumberEquality,
)
    requires
        i <= n <= lhs.len(),
        same_first_items(lhs, rhs, n, eq),
    ensures
        same_first_items(lhs, rhs, i, eq),
    decreases n,
{
    if i < n {
        lemma_same_first_items(lhs, rhs, i, (n - 1) as nat, eq);
    }
}

/// Where the first `n` overrides are equal, so are the first `i` of them.
proof fn lemma_same_first_vars(
    lhs: Seq<(Seq<char>, ConstantV)>,
    rhs: Seq<(Seq<char>, ConstantV)>,
    i: nat,
    n: nat,
    eq: NumberEquality,
)
    requires
        i <= n <= lhs.len(),
        same_first_vars(lhs, rhs, n, eq),
    ensures
        same_first_vars(lhs, rhs, i, eq),
    decreases n,
{
    if i < n {
        lemma_same_first_vars(lhs, rhs, i, (n - 1) as nat, eq);
    }
}

/// Whether two paths are equal.
fn equal_paths(lhs: &TypePath, rhs: &TypePath) -> (answer: bool)
    ensures
        answer == (ast::path_view(lhs@) == ast::path_view(rhs@)),
{
    let ghost l = ast::path_view(lhs@);
    let ghost r = ast::path_view(rhs@);
    if lhs.len() != rhs.len() {
        assert(l.len() != r.len());
        return false;
    }
    let mut i: usize = 0;
    while i < lhs.len()
        invariant
            i <= lhs.len(),
            lhs.len() == rhs.len(),
            l == ast::path_view(lhs@),
            r == ast::path_view(rhs@),
            forall|j: int| 0 <= j < i ==> #[trigger] l[j] == r[j],
        decreases lhs.len() - i,
    {
        if lhs[i].0 != rhs[i].0 || lhs[i].1 != rhs[i].1 {
            assert(l[i as int] != r[i as int]);
            return false;
        }
        assert(l[i as int] == r[i as int]);
        i += 1;
    }
    assert(l =~= r);
    true
}

/// Whether two expected types are equal.
fn equal_hints(lhs: &Option<TypePath>, rhs: &Option<TypePath>) -> (answer: bool)
    ensures
        answer == (constant::hint_view(*lhs) == constant::hint_view(*rhs)),
{
    match (lhs, rhs) {
        (Some(l), Some(r)) => equal_paths(l, r),
        (None, None) => true,
        _ => false,
    }
}

impl Constant {
    /// Tells when two constants are equal: never, or when the numbers of each pair are.
    pub fn equality(&self, other: &Constant) -> (pairs: Option<Vec<(FloatValue, FloatValue)>>)
        ensures
            forall|eq: NumberEquality| #[trigger]
                same(self@, other@, eq) == (pairs matches Some(pairs) && all_equal(pairs@, 0, eq)),
    {
        let mut pairs: Vec<(FloatValue, FloatValue)> = Vec::new();
        if self.equal_if(other, &mut pairs) {
            Some(pairs)
        } else {
            None
        }
    }

    /// Whether two constants are equal once the numbers of each pair are that is added to `pairs`.
    #[verifier::rlimit(30)]
    fn equal_if(&self, other: &Constant, pairs: &mut Vec<(FloatValue, FloatValue)>) -> (answer:
        bool)
        ensures
            old(pairs)@.is_prefix_of(final(pairs)@),
            forall|eq: NumberEquality| #[trigger]
                same(self@, other@, eq) == (answer && all_equal(
                    final(pairs)@,
                    old(pairs)@.len() as int,
                    eq,
                )),
        decreases self, 1nat,
    {
        let ghost start = pairs@.len() as int;
        match (self, other) {
            (Constant::Null(l), Constant::Null(r)) => equal_hints(l, r),
            (
                Constant::New { type_: l, args: l_args },
                Constant::New { type_: r, args: r_args },
            ) => {
                let ghost l_type = constant::new_type_view(*l);
                let ghost r_type = constant::new_type_view(*r);
                if !equal_new_types(l, r, pairs) {
                    assert forall|eq: NumberEquality| !#[trigger] same(self@, other@, eq) by {
                        assert(!same_new_type(l_type, r_type, eq));
                    }
                    return false;
                }
                let ghost middle = pairs@;
                let answer = match (l_args, r_args) {
                    (Some(l), Some(r)) => equal_all(l, r, pairs),
                    (None, None) => true,
                    _ => false,
                };
                proof {
                    lemma_all_equal_then(middle, pairs@, start);
                    assert(old(pairs)@ =~= pairs@.take(start));
                    assert forall|eq: NumberEquality| #[trigger]
                        same(self@, other@, eq) == (answer && all_equal(pairs@, start, eq)) by {
                        assert(same_new_type(l_type, r_type, eq) == all_equal(middle, start, eq));
                        if let (Some(l), Some(r)) = (l_args, r_args) {
                            assert(same_all(
                                constant::constants_view(l@),
                                constant::constants_view(r@),
                                eq,
                            ) == (answer && all_equal(pairs@, middle.len() as int, eq)));
                        }
                    }
                }
                answer
            },
            (Constant::List(l), Constant::List(r)) => {
                let answer = equal_items(l, r, pairs);
                assert forall|eq: NumberEquality| #[trigger]
                    same(self@, other@, eq) == (answer && all_equal(pairs@, start, eq)) by {
                    assert(same(self@, other@, eq) == same_items(
                        constant::items_view(l@),
                        constant::items_view(r@),
                        eq,
                    ));
                }
                answer
            },
            (Constant::Call(l_fn, l), Constant::Call(r_fn, r)) => if *l_fn == *r_fn {
                let answer = equal_all(l, r, pairs);
                assert forall|eq: NumberEquality| #[trigger]
                    same(self@, other@, eq) == (answer && all_equal(pairs@, start, eq)) by {
                    assert(same(self@, other@, eq) == same_all(
                        constant::constants_view(l@),
                        constant::constants_view(r@),
                        eq,
                    ));
                }
                answer
            } else {
                false
            },
            (Constant::Prefab(l), Constant::Prefab(r)) => {
                let answer = equal_prefabs(l, r, pairs);
                assert forall|eq: NumberEquality| #[trigger]
                    same(self@, other@, eq) == (answer && all_equal(pairs@, start, eq)) by {
                    assert(same(self@, other@, eq) == same_prefab(
                        constant::prefab_view(*l),
                        constant::prefab_view(*r),
                        eq,
                    ));
                }
                answer
            },
            (Constant::String(l), Constant::String(r)) => *l == *r,
            (Constant::Resource(l), Constant::Resource(r)) => *l == *r,
            (Constant::Int(l), Constant::Int(r)) => *l == *r,
            (Constant::Float(l), Constant::Float(r)) => {
                pairs.push((l.clone(), r.clone()));
                proof {
                    assert(pairs@[start] == (*l, *r));
                    assert forall|eq: NumberEquality| #[trigger]
                        same(self@, other@, eq) == all_equal(pairs@, start, eq) by {
                        if all_equal(pairs@, start, eq) {
                            assert(eq(pairs@[start].0, pairs@[start].1));
                        }
                    }
                }
                true
            },
            _ => false,
        }
    }
}

fn equal_new_types(
    lhs: &NewType<Constant>,
    rhs: &NewType<Constant>,
    pairs: &mut Vec<(FloatValue, FloatValue)>,
) -> (answer: bool)
    ensures
        old(pairs)@.is_prefix_of(final(pairs)@),
        forall|eq: NumberEquality| #[trigger]
            same_new_type(constant::new_type_view(*lhs), constant::new_type_view(*rhs), eq) == (
            answer && all_equal(final(pairs)@, old(pairs)@.len() as int, eq)),
    decreases lhs, 0nat,
{
    match (lhs, rhs) {
        (NewType::Implicit, NewType::Implicit) => true,
        (NewType::Prefab(l), NewType::Prefab(r)) => {
            let ghost start = pairs@.len() as int;
            let answer = equal_prefabs(l, r, pairs);
            assert forall|eq: NumberEquality| #[trigger]
                same_new_type(constant::new_type_view(*lhs), constant::new_type_view(*rhs), eq) == (
                answer && all_equal(pairs@, start, eq)) by {
                assert(same_new_type(
                    constant::new_type_view(*lhs),
                    constant::new_type_view(*rhs),
                    eq,
                ) == same_prefab(constant::prefab_view(*l), constant::prefab_view(*r), eq));
            }
            answer
        },
        (NewType::Ident(l), NewType::Ident(r)) => *l == *r,
        _ => false,
    }
}

#[verifier::rlimit(30)]
fn equal_all(
    lhs: &Vec<Constant>,
    rhs: &Vec<Constant>,
    pairs: &mut Vec<(FloatValue, FloatValue)>,
) -> (answer: bool)
    ensures
        old(pairs)@.is_prefix_of(final(pairs)@),
        forall|eq: NumberEquality| #[trigger]
            same_all(constant::constants_view(lhs@), constant::constants_view(rhs@), eq) == (answer
                && all_equal(final(pairs)@, old(pairs)@.len() as int, eq)),
    decreases lhs, 0nat,
{
    let ghost l = constant::constants_view(lhs@);
    let ghost r = constant::constants_view(rhs@);
    let ghost start = pairs@.len() as int;
    if lhs.len() != rhs.len() {
        return false;
    }
    let mut i: usize = 0;
    while i < lhs.len()
        invariant
            i <= lhs.len(),
            lhs.len() == rhs.len(),
            l == constant::constants_view(lhs@),
            r == constant::constants_view(rhs@),
            start == old(pairs)@.len(),
            old(pairs)@.is_prefix_of(pairs@),
            forall|eq: NumberEquality| #[trigger]
                same_first(l, r, i as nat, eq) == all_equal(pairs@, start, eq),
        decreases lhs.len() - i,
    {
        assert(decreases_to!(lhs => lhs@[i as int]));
        let ghost before = pairs@;
        let answer = lhs[i].equal_if(&rhs[i], pairs);
        assert(old(pairs)@ =~= pairs@.take(start));
        assert(l[i as int] == lhs@[i as int]@ && r[i as int] == rhs@[i as int]@);
        if !answer {
            assert forall|eq: NumberEquality| !#[trigger] same_all(l, r, eq) by {
                assert(!same(l[i as int], r[i as int], eq));
                assert(!same_first(l, r, (i + 1) as nat, eq));
                if same_first(l, r, l.len(), eq) {
                    lemma_same_first(l, r, (i + 1) as nat, l.len(), eq);
                }
            }
            return false;
        }
        proof {
            lemma_all_equal_then(before, pairs@, start);
        }
        i += 1;
        assert forall|eq: NumberEquality| #[trigger]
            same_first(l, r, i as nat, eq) == all_equal(pairs@, start, eq) by {
            assert(same(l[i - 1], r[i - 1], eq) == all_equal(pairs@, before.len() as int, eq));
            assert(same_first(l, r, i as nat, eq) == (same_first(l, r, (i - 1) as nat, eq) && same(
                l[i - 1],
                r[i - 1],
                eq,
            )));
        }
    }
    proof {
        assert forall|eq: NumberEquality| #[trigger]
            same_all(l, r, eq) == all_equal(pairs@, start, eq) by {
            assert(same_all(l, r, eq) == same_first(l, r, i as nat, eq));
        }
    }
    true
}

fn equal_item(
    lhs: &(Constant, Option<Constant>),
    rhs: &(Constant, Option<Constant>),
    pairs: &mut Vec<(FloatValue, FloatValue)>,
) -> (answer: bool)
    ensures
        old(pairs)@.is_prefix_of(final(pairs)@),
        forall|eq: NumberEquality| #[trigger]
            same_item(constant::item_view(*lhs), constant::item_view(*rhs), eq) == (answer
                && all_equal(final(pairs)@, old(pairs)@.len() as int, eq)),
    decreases lhs, 0nat,
{
    if !lhs.0.equal_if(&rhs.0, pairs) {
        assert forall|eq: NumberEquality| !#[trigger] same_item(
            constant::item_view(*lhs),
            constant::item_view(*rhs),
            eq,
        ) by {
            assert(!same(lhs.0@, rhs.0@, eq));
        }
        return false;
    }
    let ghost middle = pairs@;
    let answer = match (&lhs.1, &rhs.1) {
        (Some(l), Some(r)) => l.equal_if(r, pairs),
        (None, None) => true,
        _ => false,
    };
    proof {
        let start = old(pairs)@.len() as int;
        lemma_all_equal_then(middle, pairs@, start);
        assert(old(pairs)@ =~= pairs@.take(start));
        assert forall|eq: NumberEquality| #[trigger]
            same_item(constant::item_view(*lhs), constant::item_view(*rhs), eq) == (answer
                && all_equal(pairs@, start, eq)) by {
            assert(same(lhs.0@, rhs.0@, eq) == all_equal(middle, start, eq));
            if let (Some(l), Some(r)) = (lhs.1, rhs.1) {
                assert(same(l@, r@, eq) == (answer && all_equal(pairs@, middle.len() as int, eq)));
            }
        }
    }
    answer
}

#[verifier::rlimit(30)]
fn equal_items(
    lhs: &Vec<(Constant, Option<Constant>)>,
    rhs: &Vec<(Constant, Option<Constant>)>,
    pairs: &mut Vec<(FloatValue, FloatValue)>,
) -> (answer: bool)
    ensures
        old(pairs)@.is_prefix_of(final(pairs)@),
        forall|eq: NumberEquality| #[trigger]
            same_items(constant::items_view(lhs@), constant::items_view(rhs@), eq) == (answer
                && all_equal(final(pairs)@, old(pairs)@.len() as int, eq)),
    decreases lhs, 0nat,
{
    let ghost l = constant::items_view(lhs@);
    let ghost r = constant::items_view(rhs@);
    let ghost start = pairs@.len() as int;
    if lhs.len() != rhs.len() {
        return false;
    }
    let mut i: usize = 0;
    while i < lhs.len()
        invariant
            i <= lhs.len(),
            lhs.len() == rhs.len(),
            l == constant::items_view(lhs@),
            r == constant::items_view(rhs@),
            start == old(pairs)@.len(),
            old(pairs)@.is_prefix_of(pairs@),
            forall|eq: NumberEquality| #[trigger]
                same_first_items(l, r, i as nat, eq) == all_equal(pairs@, start, eq),
        decreases lhs.len() - i,
    {
        assert(decreases_to!(lhs => lhs@[i as int]));
        let ghost before = pairs@;
        let answer = equal_item(&lhs[i], &rhs[i], pairs);
        assert(old(pairs)@ =~= pairs@.take(start));
        assert(l[i as int] == constant::item_view(lhs@[i as int]));
        assert(r[i as int] == constant::item_view(rhs@[i as int]));
        if !answer {
            assert forall|eq: NumberEquality| !#[trigger] same_items(l, r, eq) by {
                assert(!same_item(l[i as int], r[i as int], eq));
                assert(!same_first_items(l, r, (i + 1) as nat, eq));
                if same_first_items(l, r, l.len(), eq) {
                    lemma_same_first_items(l, r, (i + 1) as nat, l.len(), eq);
                }
            }
            return false;
        }
        proof {
            lemma_all_equal_then(before, pairs@, start);
        }
        i += 1;
        assert forall|eq: NumberEquality| #[trigger]
            same_first_items(l, r, i as nat, eq) == all_equal(pairs@, start, eq) by {
            assert(same_item(l[i - 1], r[i - 1], eq) == all_equal(pairs@, before.len() as int, eq));
            assert(same_first_items(l, r, i as nat, eq) == (same_first_items(
                l,
                r,
                (i - 1) as nat,
                eq,
            ) && same_item(l[i - 1], r[i - 1], eq)));
        }
    }
    proof {
        assert forall|eq: NumberEquality| #[trigger]
            same_items(l, r, eq) == all_equal(pairs@, start, eq) by {
            assert(same_items(l, r, eq) == same_first_items(l, r, i as nat, eq));
        }
    }
    true
}

#[verifier::rlimit(30)]
fn equal_prefabs(
    lhs: &Prefab<Constant>,
    rhs: &Prefab<Constant>,
    pairs: &mut Vec<(FloatValue, FloatValue)>,
) -> (answer: bool)
    ensures
        old(pairs)@.is_prefix_of(final(pairs)@),
        forall|eq: NumberEquality| #[trigger]
            same_prefab(constant::prefab_view(*lhs), constant::prefab_view(*rhs), eq) == (answer
                && all_equal(final(pairs)@, old(pairs)@.len() as int, eq)),
    decreases lhs, 0nat,
{
    let ghost l = constant::vars_view(lhs.vars@);
    let ghost r = constant::vars_view(rhs.vars@);
    let ghost start = pairs@.len() as int;
    if !equal_paths(&lhs.path, &rhs.path) || lhs.vars.len() != rhs.vars.len() {
        return false;
    }
    let mut i: usize = 0;
    while i < lhs.vars.len()
        invariant
            i <= lhs.vars.len(),
            lhs.vars.len() == rhs.vars.len(),
            l == constant::vars_view(lhs.vars@),
            r == constant::vars_view(rhs.vars@),
            start == old(pairs)@.len(),
            old(pairs)@.is_prefix_of(pairs@),
            forall|eq: NumberEquality| #[trigger]
                same_first_vars(l, r, i as nat, eq) == all_equal(pairs@, start, eq),
        decreases lhs.vars.len() - i,
    {
        assert(decreases_to!(lhs => lhs.vars@[i as int]));
        let ghost before = pairs@;
        assert(l[i as int] == (lhs.vars@[i as int].0@, lhs.vars@[i as int].1@));
        assert(r[i as int] == (rhs.vars@[i as int].0@, rhs.vars@[i as int].1@));
        let answer = if lhs.vars[i].0 == rhs.vars[i].0 {
            lhs.vars[i].1.equal_if(&rhs.vars[i].1, pairs)
        } else {
            false
        };
        assert(old(pairs)@ =~= pairs@.take(start));
        if !answer {
            assert forall|eq: NumberEquality| !#[trigger] same_prefab(
                constant::prefab_view(*lhs),
                constant::prefab_view(*rhs),
                eq,
            ) by {
                assert(l[i as int].0 != r[i as int].0 || !same(l[i as int].1, r[i as int].1, eq));
                assert(!same_first_vars(l, r, (i + 1) as nat, eq));
                if same_first_vars(l, r, l.len(), eq) {
                    lemma_same_first_vars(l, r, (i + 1) as nat, l.len(), eq);
                }
            }
            return false;
        }
        proof {
            lemma_all_equal_then(before, pairs@, start);
        }
        i += 1;
        assert forall|eq: NumberEquality| #[trigger]
            same_first_vars(l, r, i as nat, eq) == all_equal(pairs@, start, eq) by {
            assert(same(l[i - 1].1, r[i - 1].1, eq) == all_equal(pairs@, before.len() as int, eq));
            assert(same_first_vars(l, r, i as nat, eq) == (same_first_vars(
                l,
                r,
                (i - 1) as nat,
                eq,
            ) && same(l[i - 1].1, r[i - 1].1, eq)));
        }
    }
    proof {
        assert forall|eq: NumberEquality| #[trigger]
            same_prefab(constant::prefab_view(*lhs), constant::prefab_view(*rhs), eq) == all_equal(
                pairs@,
                start,
                eq,
            ) by {
            assert(same_first_vars(l, r, i as nat, eq) == all_equal(pairs@, start, eq));
        }
    }
    true
}

/// Whether two constants are equal, together with the types that are expected of them.
pub open spec fn same_typed(lhs: TypedConstant, rhs: TypedConstant, eq: NumberEquality) -> bool {
    constant::hint_view(lhs.type_hint) == constant::hint_view(rhs.type_hint) && same(
        lhs.constant@,
        rhs.constant@,
        eq,
    )
}

impl TypedConstant {
    /// Tells when two constants are equal, together with the types that are expected of them:
    /// never, or when the numbers of each pair are.
    pub fn equality(&self, other: &TypedConstant) -> (pairs: Option<Vec<(FloatValue, FloatValue)>>)
        ensures
            forall|eq: NumberEquality| #[trigger]
                same_typed(*self, *other, eq) == (pairs matches Some(pairs) && all_equal(
                    pairs@,
                    0,
                    eq,
                )),
    {
        if equal_hints(&self.type_hint, &other.type_hint) {
            self.constant.equality(&other.constant)
        } else {
            None
        }
    }
}

} // verus!
