//! What folding means.
//!
//! Folding reads declarations, which never change, and a memo, which grows: the values found so
//! far and the notes taken. A set of *open* variables, those whose values are being worked out,
//! is handed inwards; meeting one of them again is an error.
use crate::ast;
use crate::ast::{BinaryOp, Expression, Follow, NewType, PathOp, Prefab, Term, UnaryOp};
use crate::constant::{ConstFn, ConstantV, FloatValue, NewTypeV, PrefabV};
use crate::error::{ErrorKindV, ErrorV, FailureV, Location};
use crate::objtree::{FullValue, NoteV, Parsed};
use crate::render;
use crate::text;
use std::rc::Rc;
use vstd::prelude::*;

verus! {

pub type PathV = Seq<(PathOp, Seq<char>)>;

/// The place of a variable: its type, and its number among that type's variables.
pub type Key = (int, int);

/// What is declared of a variable.
pub ghost struct VarDecl {
    pub location: Location,
    pub type_path: PathV,
    pub full_value: Option<FullValue>,
    pub is_static: bool,
    pub const_evaluable: bool,
}

/// What is declared of a type.
pub ghost struct TypeDecl {
    pub parent: Option<int>,
    pub vars: Seq<(Seq<char>, VarDecl)>,
}

/// All declarations.
pub ghost struct Program {
    pub types: Seq<TypeDecl>,
    pub paths: Seq<(Seq<char>, int)>,
}

/// What has been found so far.
pub ghost struct Memo {
    pub values: Map<Key, ConstantV>,
    pub notes: Seq<NoteV>,
}

/// A failure, with the variables that were open when it came.
pub ghost struct Stopped {
    pub failure: FailureV,
    pub open: Set<Key>,
}

/// The outcome of folding something, with the memo that it leaves.
pub ghost struct Run<T> {
    pub memo: Memo,
    pub out: Result<T, Stopped>,
}

/// Where folding takes place.
pub ghost struct Scope {
    pub program: Program,
    pub open: Set<Key>,
    /// The place that errors are reported at.
    pub location: Location,
    /// The type whose variables are in sight.
    pub ty: int,
}

impl Memo {
    pub open spec fn with_value(self, key: Key, value: ConstantV) -> Memo {
        Memo { values: self.values.insert(key, value), notes: self.notes }
    }

    pub open spec fn with_note(self, note: NoteV) -> Memo {
        Memo { values: self.values, notes: self.notes.push(note) }
    }
}

pub open spec fn is_first_named<T>(entries: Seq<(Seq<char>, T)>, name: Seq<char>, i: int) -> bool {
    &&& 0 <= i < entries.len()
    &&& entries[i].0 == name
    &&& forall|j: int| 0 <= j < i ==> (#[trigger] entries[j]).0 != name
}

/// The place of the first entry of that name.
pub open spec fn find<T>(entries: Seq<(Seq<char>, T)>, name: Seq<char>) -> Option<int> {
    if exists|i: int| is_first_named(entries, name, i) {
        Some(choose|i: int| is_first_named(entries, name, i))
    } else {
        None
    }
}

pub open spec fn distinct_names<T>(entries: Seq<(Seq<char>, T)>) -> bool {
    forall|i: int, j: int|
        0 <= i < j < entries.len() ==> (#[trigger] entries[i]).0 != (#[trigger] entries[j]).0
}

impl Program {
    pub open spec fn has(self, key: Key) -> bool {
        0 <= key.0 < self.types.len() && 0 <= key.1 < self.types[key.0].vars.len()
    }

    pub open spec fn name(self, key: Key) -> Seq<char> {
        self.types[key.0].vars[key.1].0
    }

    pub open spec fn var(self, key: Key) -> VarDecl {
        self.types[key.0].vars[key.1].1
    }

    pub open spec fn keys(self) -> Set<Key> {
        Set::new(|key: Key| self.has(key))
    }

    /// How many variables are not open.
    pub open spec fn closed_count(self, open: Set<Key>) -> nat {
        self.keys().difference(open).len()
    }

    /// The type listed under a path.
    pub open spec fn type_at(self, path: Seq<char>) -> Option<int> {
        match find(self.paths, path) {
            Some(i) => Some(self.paths[i].1),
            None => None,
        }
    }

    /// Whether the ancestors of a type, that type among them, are at most `limit` in number, and
    /// all in the tree.
    pub open spec fn rooted(self, ty: int, limit: nat) -> bool
        decreases limit,
    {
        &&& limit > 0
        &&& 0 <= ty < self.types.len()
        &&& match self.types[ty].parent {
            Some(parent) => self.rooted(parent, (limit - 1) as nat),
            None => true,
        }
    }

    pub open spec fn wf(self) -> bool {
        &&& forall|ty: int|
            0 <= ty < self.types.len() ==> #[trigger] self.rooted(ty, self.types.len())
        &&& forall|ty: int|
            0 <= ty < self.types.len() ==> distinct_names(#[trigger] self.types[ty].vars)
        &&& distinct_names(self.paths)
        &&& forall|i: int|
            0 <= i < self.paths.len() ==> 0 <= (#[trigger] self.paths[i]).1 < self.types.len()
    }

    /// The variable that a name stands for in a type: that of the nearest ancestor that declares
    /// one, the type itself coming first.
    pub open spec fn owner(self, ty: int, ident: Seq<char>, limit: nat) -> Option<Key>
        decreases limit,
    {
        if limit == 0 {
            None
        } else {
            match find(self.types[ty].vars, ident) {
                Some(i) => Some((ty, i)),
                None => match self.types[ty].parent {
                    Some(parent) => self.owner(parent, ident, (limit - 1) as nat),
                    None => None,
                },
            }
        }
    }

    /// The notes of the types that are searched for a name.
    pub open spec fn searched(self, ty: int, ident: Seq<char>, limit: nat) -> Seq<NoteV>
        decreases limit,
    {
        if limit == 0 {
            seq![]
        } else {
            seq![NoteV::Searching(ty)] + match (
                find(self.types[ty].vars, ident),
                self.types[ty].parent,
            ) {
                (None, Some(parent)) => self.searched(parent, ident, (limit - 1) as nat),
                _ => seq![],
            }
        }
    }
}

pub proof fn lemma_find<T>(entries: Seq<(Seq<char>, T)>, name: Seq<char>, i: int)
    requires
        is_first_named(entries, name, i),
    ensures
        find(entries, name) == Some(i),
{
    let j = choose|j: int| is_first_named(entries, name, j);
    assert(is_first_named(entries, name, j));
    if i < j {
        assert(entries[i].0 != name);
    }
    if j < i {
        assert(entries[j].0 != name);
    }
}

proof fn lemma_keys_finite_below(program: Program, n: nat)
    requires
        n <= program.types.len(),
    ensures
        Set::new(|key: Key| program.has(key) && key.0 < n).finite(),
    decreases n,
{
    let keys = Set::new(|key: Key| program.has(key) && key.0 < n);
    if n == 0 {
        assert(keys =~= Set::empty());
    } else {
        let last = (n - 1) as nat;
        lemma_keys_finite_below(program, last);
        let before = Set::new(|key: Key| program.has(key) && key.0 < last);
        let count = program.types[last as int].vars.len() as int;
        let numbers = vstd::set_lib::set_int_range(0, count);
        vstd::set_lib::lemma_int_range(0, count);
        let place = |i: int| (last as int, i);
        numbers.lemma_map_finite(place);
        let added = numbers.map(place);
        assert forall|key: Key| keys.contains(key) implies before.union(added).contains(key) by {
            if key.0 == last {
                assert(numbers.contains(key.1));
                assert(place(key.1) == key);
            }
        }
        vstd::set_lib::lemma_len_subset(keys, before.union(added));
    }
}

pub proof fn lemma_keys_finite(program: Program)
    ensures
        program.keys().finite(),
{
    lemma_keys_finite_below(program, program.types.len());
    assert(program.keys() =~= Set::new(
        |key: Key| program.has(key) && key.0 < program.types.len(),
    ));
}

/// Opening a variable leaves fewer closed.
pub proof fn lemma_closed_count(program: Program, open: Set<Key>, key: Key)
    requires
        program.has(key),
        !open.contains(key),
    ensures
        program.closed_count(open.insert(key)) < program.closed_count(open),
{
    lemma_keys_finite(program);
    assert(program.keys().difference(open.insert(key)) =~= program.keys().difference(open).remove(
        key,
    ));
    assert(program.keys().difference(open).contains(key));
}

pub open spec fn done<T>(memo: Memo, value: T) -> Run<T> {
    Run { memo, out: Ok(value) }
}

pub open spec fn halted<T>(memo: Memo, stopped: Stopped) -> Run<T> {
    Run { memo, out: Err(stopped) }
}

pub open spec fn failed<T>(scope: Scope, memo: Memo, failure: FailureV) -> Run<T> {
    Run { memo, out: Err(Stopped { failure, open: scope.open }) }
}

pub open spec fn error_at(location: Location, kind: ErrorKindV) -> FailureV {
    FailureV::Error(ErrorV { location, kind })
}

pub open spec fn refused<T>(scope: Scope, memo: Memo, kind: ErrorKindV) -> Run<T> {
    failed(scope, memo, error_at(scope.location, kind))
}

/// The outcome of an operation that reads and changes nothing.
pub open spec fn operated(scope: Scope, memo: Memo, out: Result<ConstantV, FailureV>) -> Run<
    ConstantV,
> {
    match out {
        Ok(value) => done(memo, value),
        Err(failure) => failed(scope, memo, failure),
    }
}

/// An integer result, if it can be represented.
pub open spec fn int_result(value: int) -> Result<ConstantV, FailureV> {
    if i32::MIN <= value <= i32::MAX {
        Ok(ConstantV::Int(value as i32))
    } else {
        Err(FailureV::Arithmetic)
    }
}

/// A number without its sign.
pub open spec fn magnitude(value: int) -> int {
    if value < 0 {
        -value
    } else {
        value
    }
}

/// The quotient, rounded towards zero.
pub open spec fn quotient(lhs: int, rhs: int) -> int {
    if (lhs < 0) == (rhs < 0) {
        magnitude(lhs) / magnitude(rhs)
    } else {
        -(magnitude(lhs) / magnitude(rhs))
    }
}

/// The outcome of a unary operation.
pub open spec fn apply_unary(location: Location, op: UnaryOp, term: ConstantV) -> Result<
    ConstantV,
    FailureV,
> {
    match (op, term) {
        (UnaryOp::Neg, ConstantV::Int(i)) => int_result(-i),
        (UnaryOp::BitNot, ConstantV::Int(i)) => Ok(ConstantV::Int((-1 - i) as i32)),
        (UnaryOp::Not, ConstantV::Int(i)) => Ok(ConstantV::Int(if i != 0 { 0 } else { 1 })),
        (UnaryOp::Neg, ConstantV::Float(i)) => Ok(ConstantV::Float(FloatValue::Neg(Rc::new(i)))),
        _ => Err(error_at(location, ErrorKindV::UnaryOperation(op, term))),
    }
}

/// The outcome of several unary operations, the last of which is applied first.
pub open spec fn apply_unaries(location: Location, ops: Seq<UnaryOp>, term: ConstantV) -> Result<
    ConstantV,
    FailureV,
>
    decreases ops.len(),
{
    if ops.len() == 0 {
        Ok(term)
    } else {
        match apply_unary(location, ops.last(), term) {
            Ok(value) => apply_unaries(location, ops.drop_last(), value),
            Err(failure) => Err(failure),
        }
    }
}

/// The arithmetic operations on single-precision values.
pub open spec fn float_operation(op: BinaryOp, lhs: FloatValue, rhs: FloatValue) -> Option<
    FloatValue,
> {
    match op {
        BinaryOp::Add => Some(FloatValue::Add(Rc::new(lhs), Rc::new(rhs))),
        BinaryOp::Sub => Some(FloatValue::Sub(Rc::new(lhs), Rc::new(rhs))),
        BinaryOp::Mul => Some(FloatValue::Mul(Rc::new(lhs), Rc::new(rhs))),
        BinaryOp::Div => Some(FloatValue::Div(Rc::new(lhs), Rc::new(rhs))),
        _ => None,
    }
}

/// The operations on integers.
pub open spec fn int_operation(op: BinaryOp, lhs: i32, rhs: i32) -> Option<
    Result<ConstantV, FailureV>,
> {
    match op {
        BinaryOp::Add => Some(int_result(lhs + rhs)),
        BinaryOp::Sub => Some(int_result(lhs - rhs)),
        BinaryOp::Mul => Some(int_result(lhs * rhs)),
        BinaryOp::Div => Some(
            if rhs == 0 {
                Err(FailureV::Arithmetic)
            } else {
                int_result(quotient(lhs as int, rhs as int))
            },
        ),
        BinaryOp::BitOr => Some(Ok(ConstantV::Int(lhs | rhs))),
        BinaryOp::BitAnd => Some(Ok(ConstantV::Int(lhs & rhs))),
        BinaryOp::LShift => Some(
            if 0 <= rhs < 32 {
                Ok(ConstantV::Int(lhs << rhs))
            } else {
                Err(FailureV::Arithmetic)
            },
        ),
        BinaryOp::RShift => Some(
            if 0 <= rhs < 32 {
                Ok(ConstantV::Int(lhs >> rhs))
            } else {
                Err(FailureV::Arithmetic)
            },
        ),
        _ => None,
    }
}

/// The outcome of a binary operation.
pub open spec fn apply_binary(
    location: Location,
    lhs: ConstantV,
    rhs: ConstantV,
    op: BinaryOp,
) -> Result<ConstantV, FailureV> {
    let unsupported = Err(error_at(location, ErrorKindV::BinaryOperation(lhs, op, rhs)));
    match (lhs, rhs) {
        (ConstantV::Int(l), ConstantV::Int(r)) => match int_operation(op, l, r) {
            Some(out) => out,
            None => unsupported,
        },
        (ConstantV::Int(l), ConstantV::Float(r)) => match float_operation(
            op,
            FloatValue::OfInt(l),
            r,
        ) {
            Some(value) => Ok(ConstantV::Float(value)),
            None => unsupported,
        },
        (ConstantV::Float(l), ConstantV::Int(r)) => match float_operation(
            op,
            l,
            FloatValue::OfInt(r),
        ) {
            Some(value) => Ok(ConstantV::Float(value)),
            None => unsupported,
        },
        (ConstantV::Float(l), ConstantV::Float(r)) => match float_operation(op, l, r) {
            Some(value) => Ok(ConstantV::Float(value)),
            None => unsupported,
        },
        (ConstantV::String(l), ConstantV::String(r)) => if op == BinaryOp::Add {
            Ok(ConstantV::String(l + r))
        } else {
            unsupported
        },
        _ => unsupported,
    }
}

/// The type expected of the elements of a list.
pub open spec fn element_hint(hint: Option<PathV>) -> Option<PathV> {
    match hint {
        Some(path) => if path.len() > 0 && path[0].1 == "list"@ {
            Some(path.skip(1))
        } else {
            None
        },
        None => None,
    }
}

/// The type expected of a variable's value.
pub open spec fn declared_hint(type_path: PathV) -> Option<PathV> {
    if type_path.len() == 0 {
        None
    } else {
        Some(type_path)
    }
}

/// A path as types are listed under it: each segment after a slash.
pub open spec fn listed_path(path: PathV) -> Seq<char>
    decreases path.len(),
{
    if path.len() == 0 {
        seq![]
    } else {
        listed_path(path.drop_last()) + "/"@ + path.last().1
    }
}

/// The identifier that an expression is made of, in parentheses or not.
pub open spec fn bare_ident(expression: Expression) -> Option<Seq<char>>
    decreases expression,
{
    match expression {
        Expression::Base { unary, term, follow } => if unary@.len() == 0 && follow@.len() == 0 {
            match term {
                Term::Ident(ident) => Some(ident@),
                Term::Expr(inner) => bare_ident(*inner),
                _ => None,
            }
        } else {
            None
        },
        _ => None,
    }
}

/// The function of that name, if its calls remain as they are.
pub open spec fn const_fn_named(ident: Seq<char>) -> Option<ConstFn> {
    if ident == "matrix"@ {
        Some(ConstFn::Matrix)
    } else if ident == "newlist"@ {
        Some(ConstFn::Newlist)
    } else if ident == "icon"@ {
        Some(ConstFn::Icon)
    } else {
        None
    }
}

/// A colour component within its bounds.
pub open spec fn clamped(value: i32) -> nat {
    if value < 0 {
        0
    } else if value > 255 {
        255
    } else {
        value as nat
    }
}

/// Tells whether an entry has another name.
pub open spec fn other_than<V>(name: Seq<char>) -> spec_fn((Seq<char>, V)) -> bool {
    |entry: (Seq<char>, V)| entry.0 != name
}

/// The entries of an insertion-ordered map after an insertion.
pub open spec fn placed<V>(entries: Seq<(Seq<char>, V)>, name: Seq<char>, value: V) -> Seq<
    (Seq<char>, V),
> {
    entries.filter(other_than(name)).push((name, value))
}

/// Folds an expression, of which the type `hint` is expected.
pub open spec fn fold_expr(
    scope: Scope,
    memo: Memo,
    expression: Expression,
    hint: Option<PathV>,
) -> Run<ConstantV>
    decreases scope.program.closed_count(scope.open), 2nat, expression, 0nat,
{
    match expression {
        Expression::Base { unary, term, follow } => {
            let base_hint = if unary@.len() == 0 && follow@.len() == 0 {
                hint
            } else {
                None
            };
            let folded = fold_term(scope, memo, term, base_hint);
            match folded.out {
                Err(stopped) => folded,
                Ok(value) => {
                    let followed = fold_follows(scope, folded.memo, value, follow@, 0);
                    match followed.out {
                        Err(stopped) => followed,
                        Ok(value) => operated(
                            scope,
                            followed.memo,
                            apply_unaries(scope.location, unary@, value),
                        ),
                    }
                },
            }
        },
        Expression::BinaryOp { op, lhs, rhs } => {
            let left = fold_expr(scope, memo, *lhs, None);
            match left.out {
                Err(stopped) => left,
                Ok(l) => {
                    let right = fold_expr(scope, left.memo, *rhs, None);
                    match right.out {
                        Err(stopped) => right,
                        Ok(r) => operated(
                            scope,
                            right.memo,
                            apply_binary(scope.location, l, r, op),
                        ),
                    }
                },
            }
        },
        _ => refused(scope, memo, ErrorKindV::AugmentedAssignment),
    }
}

/// Folds one thing that follows a term.
pub open spec fn fold_follow(scope: Scope, memo: Memo, term: ConstantV, follow: Follow) -> Run<
    ConstantV,
>
    decreases scope.program.closed_count(scope.open), 1nat, None::<Expression>, 1nat,
{
    match (term, follow) {
        (ConstantV::Null(Some(hint)), Follow::Field(name)) => match scope.program.type_at(
            listed_path(hint),
        ) {
            Some(ty) => search(scope, memo, ty, name@, true),
            None => refused(scope, memo, ErrorKindV::UnknownTypepath(listed_path(hint))),
        },
        _ => refused(scope, memo, ErrorKindV::Followers(term, follow@)),
    }
}

/// Folds what follows a term, from the `i`th thing on.
pub open spec fn fold_follows(
    scope: Scope,
    memo: Memo,
    term: ConstantV,
    follows: Seq<Follow>,
    i: nat,
) -> Run<ConstantV>
    decreases scope.program.closed_count(scope.open), 2nat, follows, follows.len() - i,
{
    if i >= follows.len() {
        done(memo, term)
    } else {
        let run = fold_follow(scope, memo, term, follows[i as int]);
        match run.out {
            Err(stopped) => run,
            Ok(value) => fold_follows(scope, run.memo, value, follows, i + 1),
        }
    }
}

/// Folds a term, of which the type `hint` is expected.
pub open spec fn fold_term(scope: Scope, memo: Memo, term: Term, hint: Option<PathV>) -> Run<
    ConstantV,
>
    decreases scope.program.closed_count(scope.open), 2nat, term, 0nat,
{
    match term {
        Term::Null => done(memo, ConstantV::Null(hint)),
        Term::New { type_, args } => {
            let typed: Run<NewTypeV<ConstantV>> = match type_ {
                NewType::Prefab(prefab) => {
                    let run = fold_prefab(scope, memo, prefab);
                    match run.out {
                        Err(stopped) => halted(run.memo, stopped),
                        Ok(prefab) => done(run.memo, NewTypeV::Prefab(prefab)),
                    }
                },
                NewType::Implicit => done(memo, NewTypeV::Implicit),
                NewType::Ident(_) => refused(scope, memo, ErrorKindV::NewExpression),
            };
            match typed.out {
                Err(stopped) => halted(typed.memo, stopped),
                Ok(type_) => match args {
                    None => done(typed.memo, ConstantV::New { type_, args: None }),
                    Some(args) => {
                        let run = fold_all(scope, typed.memo, args@, seq![]);
                        match run.out {
                            Err(stopped) => halted(run.memo, stopped),
                            Ok(args) => done(run.memo, ConstantV::New { type_, args: Some(args) }),
                        }
                    },
                },
            }
        },
        Term::List(items) => {
            let run = fold_items(scope, memo, items@, element_hint(hint), seq![]);
            match run.out {
                Err(stopped) => halted(run.memo, stopped),
                Ok(items) => done(run.memo, ConstantV::List(items)),
            }
        },
        Term::Call(ident, args) => match const_fn_named(ident@) {
            Some(const_fn) => {
                let run = fold_all(scope, memo, args@, seq![]);
                match run.out {
                    Err(stopped) => halted(run.memo, stopped),
                    Ok(args) => done(run.memo, ConstantV::Call(const_fn, args)),
                }
            },
            None => if ident@ == "rgb"@ {
                if args@.len() != 3 && args@.len() != 4 {
                    refused(scope, memo, ErrorKindV::MalformedRgb)
                } else {
                    fold_rgb(scope, memo, args@, "#"@, 0)
                }
            } else {
                refused(scope, memo, ErrorKindV::FunctionCall(ident@))
            },
        },
        Term::Prefab(prefab) => {
            let run = fold_prefab(scope, memo, prefab);
            match run.out {
                Err(stopped) => halted(run.memo, stopped),
                Ok(prefab) => done(run.memo, ConstantV::Prefab(prefab)),
            }
        },
        Term::Ident(ident) => fold_ident(scope, memo, ident@, hint, false),
        Term::String(text) => done(memo, ConstantV::String(text@)),
        Term::Resource(name) => done(memo, ConstantV::Resource(name@)),
        Term::Int(value) => done(memo, ConstantV::Int(value)),
        Term::Float(bits) => done(memo, ConstantV::Float(FloatValue::Literal(bits))),
        Term::Expr(inner) => fold_expr(scope, memo, *inner, hint),
    }
}

/// Folds the expressions that come after those already `folded`.
pub open spec fn fold_all(
    scope: Scope,
    memo: Memo,
    expressions: Seq<Expression>,
    folded: Seq<ConstantV>,
) -> Run<Seq<ConstantV>>
    decreases
            scope.program.closed_count(scope.open),
            2nat,
            expressions,
            expressions.len() - folded.len(),
{
    if folded.len() >= expressions.len() {
        done(memo, folded)
    } else {
        let run = fold_expr(scope, memo, expressions[folded.len() as int], None);
        match run.out {
            Err(stopped) => halted(run.memo, stopped),
            Ok(value) => fold_all(scope, run.memo, expressions, folded.push(value)),
        }
    }
}

/// Folds the components of a colour from the `i`th on, after the `text` of those before.
pub open spec fn fold_rgb(
    scope: Scope,
    memo: Memo,
    components: Seq<Expression>,
    text: Seq<char>,
    i: nat,
) -> Run<ConstantV>
    decreases scope.program.closed_count(scope.open), 2nat, components, components.len() - i,
{
    if i >= components.len() {
        done(memo, ConstantV::String(text))
    } else {
        let run = fold_expr(scope, memo, components[i as int], None);
        match run.out {
            Err(stopped) => run,
            Ok(ConstantV::Int(value)) => fold_rgb(
                scope,
                run.memo,
                components,
                text + text::hex_pair(clamped(value)),
                i + 1,
            ),
            Ok(_) => refused(scope, run.memo, ErrorKindV::MalformedRgb),
        }
    }
}

/// Folds the key of a list item that has a value as well.
pub open spec fn fold_key(scope: Scope, memo: Memo, key: Expression, hint: Option<PathV>) -> Run<
    ConstantV,
>
    decreases scope.program.closed_count(scope.open), 2nat, key, 1nat,
{
    match bare_ident(key) {
        Some(ident) => done(
            memo.with_note(NoteV::IdentAsListKey(ident)),
            ConstantV::String(ident),
        ),
        None => fold_expr(scope, memo, key, hint),
    }
}

/// Folds the items of a list that come after those already `folded`.
pub open spec fn fold_items(
    scope: Scope,
    memo: Memo,
    items: Seq<(Expression, Option<Expression>)>,
    hint: Option<PathV>,
    folded: Seq<(ConstantV, Option<ConstantV>)>,
) -> Run<Seq<(ConstantV, Option<ConstantV>)>>
    decreases
            scope.program.closed_count(scope.open),
            2nat,
            items,
            items.len() - folded.len(),
{
    if folded.len() >= items.len() {
        done(memo, folded)
    } else {
        let (key, value) = items[folded.len() as int];
        match value {
            Some(value) => {
                let left = fold_key(scope, memo, key, hint);
                match left.out {
                    Err(stopped) => halted(left.memo, stopped),
                    Ok(k) => {
                        let right = fold_expr(scope, left.memo, value, hint);
                        match right.out {
                            Err(stopped) => halted(right.memo, stopped),
                            Ok(v) => fold_items(
                                scope,
                                right.memo,
                                items,
                                hint,
                                folded.push((k, Some(v))),
                            ),
                        }
                    },
                }
            },
            None => {
                let run = fold_expr(scope, memo, key, hint);
                match run.out {
                    Err(stopped) => halted(run.memo, stopped),
                    Ok(k) => fold_items(scope, run.memo, items, hint, folded.push((k, None))),
                }
            },
        }
    }
}

/// Folds the overrides of a prefab from the `i`th on, after those already `folded`.
pub open spec fn fold_vars(
    scope: Scope,
    memo: Memo,
    vars: Seq<(String, Expression)>,
    folded: Seq<(Seq<char>, ConstantV)>,
    i: nat,
) -> Run<Seq<(Seq<char>, ConstantV)>>
    decreases scope.program.closed_count(scope.open), 2nat, vars, vars.len() - i,
{
    if i >= vars.len() {
        done(memo, folded)
    } else {
        let run = fold_expr(scope, memo, vars[i as int].1, None);
        match run.out {
            Err(stopped) => halted(run.memo, stopped),
            Ok(value) => fold_vars(
                scope,
                run.memo,
                vars,
                placed(folded, vars[i as int].0@, value),
                i + 1,
            ),
        }
    }
}

/// Folds a prefab.
pub open spec fn fold_prefab(scope: Scope, memo: Memo, prefab: Prefab<Expression>) -> Run<
    PrefabV<ConstantV>,
>
    decreases scope.program.closed_count(scope.open), 2nat, prefab, 0nat,
{
    let run = fold_vars(scope, memo, prefab.vars@, seq![], 0);
    match run.out {
        Err(stopped) => halted(run.memo, stopped),
        Ok(vars) => done(run.memo, PrefabV { path: ast::path_view(prefab.path@), vars }),
    }
}

/// Folds an identifier, of which the type `hint` is expected.
pub open spec fn fold_ident(
    scope: Scope,
    memo: Memo,
    ident: Seq<char>,
    hint: Option<PathV>,
    must_be_static: bool,
) -> Run<ConstantV>
    decreases scope.program.closed_count(scope.open), 1nat, None::<Expression>, 1nat,
{
    if ident == "null"@ {
        done(memo, ConstantV::Null(hint))
    } else {
        search(scope, memo, scope.ty, ident, must_be_static)
    }
}

/// An outcome whose errors are reported at another place.
pub open spec fn relocated(run: Run<ConstantV>, location: Location) -> Run<ConstantV> {
    match run.out {
        Err(stopped) => match stopped.failure {
            FailureV::Error(error) => halted(
                run.memo,
                Stopped { failure: error_at(location, error.kind), open: stopped.open },
            ),
            FailureV::Arithmetic => run,
        },
        Ok(_) => run,
    }
}

/// Looks a name up in a type and its ancestors.
pub open spec fn search(
    scope: Scope,
    memo: Memo,
    ty: int,
    ident: Seq<char>,
    must_be_static: bool,
) -> Run<ConstantV>
    decreases scope.program.closed_count(scope.open), 1nat, None::<Expression>, 0nat,
{
    let limit = scope.program.types.len();
    let noted = Memo {
        values: memo.values,
        notes: memo.notes + scope.program.searched(ty, ident, limit),
    };
    match scope.program.owner(ty, ident, limit) {
        Some(key) => relocated(
            lookup(scope.program, scope.open, noted, key, must_be_static),
            scope.location,
        ),
        None => refused(scope, noted, ErrorKindV::UnknownVariable(ident)),
    }
}

/// The value of a variable: the one that is known, or else that of its initialiser. Where
/// `must_be_static`, a variable that is not static has none to give, known or not.
pub open spec fn lookup(
    program: Program,
    open: Set<Key>,
    memo: Memo,
    key: Key,
    must_be_static: bool,
) -> Run<ConstantV>
    recommends
        program.has(key),
    decreases program.closed_count(open), 0nat, None::<Expression>, 0nat,
{
    let var = program.var(key);
    let name = program.name(key);
    let outside = Scope { program, open, location: var.location, ty: key.0 };
    let hint = declared_hint(var.type_path);
    let needs_no_folding = memo.values.dom().contains(key) || var.full_value is None;
    if !var.is_static && must_be_static && needs_no_folding {
        refused(outside, memo, ErrorKindV::NonStaticVariable(name))
    } else if memo.values.dom().contains(key) {
        done(memo, memo.values[key])
    } else {
        match var.full_value {
            None => done(memo.with_value(key, ConstantV::Null(hint)), ConstantV::Null(hint)),
            Some(full_value) => if open.contains(key) {
                refused(outside, memo, ErrorKindV::RecursiveReference(name))
            } else if !var.const_evaluable {
                refused(outside, memo, ErrorKindV::NonConstVariable(name))
            } else if !var.is_static && must_be_static {
                refused(outside, memo, ErrorKindV::NonStaticVariable(name))
            } else if !program.has(key) {
                arbitrary()
            } else {
                proof {
                    lemma_closed_count(program, open, key);
                }
                let inside = Scope { program, open: open.insert(key), ..outside };
                let run = fold_full_value(inside, memo, full_value, hint);
                match run.out {
                    Err(stopped) => run,
                    Ok(value) => done(run.memo.with_value(key, value), value),
                }
            },
        }
    }
}

/// Folds an initialiser, of which the type `hint` is expected.
pub open spec fn fold_full_value(
    scope: Scope,
    memo: Memo,
    full_value: FullValue,
    hint: Option<PathV>,
) -> Run<ConstantV>
    decreases scope.program.closed_count(scope.open), 3nat, None::<Expression>, 0nat,
{
    match full_value.parsed {
        Parsed::Failed(error) => failed(scope, memo, FailureV::Error(error@)),
        Parsed::Nothing => refused(scope, memo, ErrorKindV::NotAnExpression),
        Parsed::Expression(expression) => {
            let run = fold_expr(scope, memo, expression, hint);
            match run.out {
                Ok(value) => Run {
                    memo: run.memo.with_note(
                        NoteV::Folded(full_value.source@, Some(render::render(value))),
                    ),
                    out: run.out,
                },
                Err(stopped) => match stopped.failure {
                    FailureV::Error(_) => Run {
                        memo: run.memo.with_note(NoteV::Folded(full_value.source@, None)),
                        out: run.out,
                    },
                    FailureV::Arithmetic => run,
                },
            }
        },
    }
}

/// Looks up the constant variables of all types in turn, from the `i`th of type `ty` on.
pub open spec fn sweep(program: Program, open: Set<Key>, memo: Memo, ty: int, i: int) -> Run<()>
    decreases program.types.len() - ty, program.types[ty].vars.len() - i,
{
    if !(0 <= ty < program.types.len()) {
        done(memo, ())
    } else if !(0 <= i < program.types[ty].vars.len()) {
        sweep(program, open, memo, ty + 1, 0)
    } else if !program.var((ty, i)).const_evaluable {
        sweep(program, open, memo, ty, i + 1)
    } else {
        let run = lookup(program, open, memo, (ty, i), false);
        match run.out {
            Err(stopped) => halted(run.memo, stopped),
            Ok(_) => sweep(program, open, run.memo, ty, i + 1),
        }
    }
}

/// Whether every variable whose initialiser must be a constant has a value.
pub open spec fn all_evaluated(program: Program, memo: Memo) -> bool {
    forall|key: Key| #[trigger]
        program.has(key) && program.var(key).const_evaluable ==> memo.values.contains_key(key)
}

/// Whether the constant variables hold integer arithmetic that has no result, and nothing fails
/// before it is met.
pub open spec fn overflows(program: Program, open: Set<Key>, memo: Memo) -> bool {
    match sweep(program, open, memo, 0, 0).out {
        Ok(_) => false,
        Err(stopped) => stopped.failure is Arithmetic,
    }
}

} // verus!
