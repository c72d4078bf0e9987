//! Constant values, the results of folding.
use crate::ast;
use crate::ast::{NewType, PathOp, Prefab, TypePath};
use crate::shared;
use std::rc::Rc;
use vstd::prelude::*;

verus! {

/// The functions whose calls remain as they are in a constant.
#[derive(Debug, Clone, Copy, PartialEq, Eq, Structural)]
pub enum ConstFn {
    Icon,
    Matrix,
    Newlist,
}

/// A single-precision value, held as the operations that yield it.
///
/// Nothing in folding depends on what such a value is, so the arithmetic is left to whoever
/// wants the number. Operands are shared, so that a copy is small however much led to it. There
/// is no `==` here: values are equal when the numbers are, and `Constant::equality` says which.
#[derive(Debug)]
pub enum FloatValue {
    /// A literal, by its IEEE 754 bits.
    Literal(u32),
    /// The nearest single-precision value to an integer.
    OfInt(i32),
    Neg(Rc<FloatValue>),
    Add(Rc<FloatValue>, Rc<FloatValue>),
    Sub(Rc<FloatValue>, Rc<FloatValue>),
    Mul(Rc<FloatValue>, Rc<FloatValue>),
    Div(Rc<FloatValue>, Rc<FloatValue>),
}

/// A constant.
#[derive(Debug)]
pub enum Constant {
    /// The literal `null`, with the type that the context expects.
    Null(Option<TypePath>),
    New { type_: NewType<Constant>, args: Option<Vec<Constant>> },
    List(Vec<(Constant, Option<Constant>)>),
    Call(ConstFn, Vec<Constant>),
    Prefab(Prefab<Constant>),
    String(String),
    Resource(String),
    Int(i32),
    Float(FloatValue),
}

/// A constant together with the type that is expected of it.
#[derive(Debug)]
pub struct TypedConstant {
    pub type_hint: Option<TypePath>,
    pub constant: Constant,
}

/// The mathematical value of a prefab.
pub ghost struct PrefabV<V> {
    pub path: Seq<(PathOp, Seq<char>)>,
    pub vars: Seq<(Seq<char>, V)>,
}

/// The mathematical value of what a `new` expression instantiates.
pub ghost enum NewTypeV<V> {
    Implicit,
    Prefab(PrefabV<V>),
    Ident(Seq<char>),
}

/// The mathematical value of a constant.
pub ghost enum ConstantV {
    Null(Option<Seq<(PathOp, Seq<char>)>>),
    New { type_: NewTypeV<ConstantV>, args: Option<Seq<ConstantV>> },
    List(Seq<(ConstantV, Option<ConstantV>)>),
    Call(ConstFn, Seq<ConstantV>),
    Prefab(PrefabV<ConstantV>),
    String(Seq<char>),
    Resource(Seq<char>),
    Int(i32),
    Float(FloatValue),
}

impl View for Constant {
    type V = ConstantV;

    open spec fn view(&self) -> ConstantV {
        constant_view(*self)
    }
}

pub open spec fn hint_view(hint: Option<TypePath>) -> Option<Seq<(PathOp, Seq<char>)>> {
    match hint {
        Some(path) => Some(ast::path_view(path@)),
        None => None,
    }
}

pub open spec fn constant_view(constant: Constant) -> ConstantV
    decreases constant,
{
    match constant {
        Constant::Null(hint) => ConstantV::Null(hint_view(hint)),
        Constant::New { type_, args } => ConstantV::New {
            type_: new_type_view(type_),
            args: match args {
                Some(args) => Some(constants_view(args@)),
                None => None,
            },
        },
        Constant::List(items) => ConstantV::List(items_view(items@)),
        Constant::Call(const_fn, args) => ConstantV::Call(const_fn, constants_view(args@)),
        Constant::Prefab(prefab) => ConstantV::Prefab(prefab_view(prefab)),
        Constant::String(text) => ConstantV::String(text@),
        Constant::Resource(name) => ConstantV::Resource(name@),
        Constant::Int(value) => ConstantV::Int(value),
        Constant::Float(value) => ConstantV::Float(value),
    }
}

pub open spec fn new_type_view(type_: NewType<Constant>) -> NewTypeV<ConstantV>
    decreases type_,
{
    match type_ {
        NewType::Implicit => NewTypeV::Implicit,
        NewType::Prefab(prefab) => NewTypeV::Prefab(prefab_view(prefab)),
        NewType::Ident(ident) => NewTypeV::Ident(ident@),
    }
}

pub open spec fn constants_view(constants: Seq<Constant>) -> Seq<ConstantV>
    decreases constants,
{
    Seq::new(
        constants.len(),
        |i: int|
            if 0 <= i < constants.len() {
                constant_view(constants[i])
            } else {
                arbitrary()
            },
    )
}

pub open spec fn item_view(item: (Constant, Option<Constant>)) -> (ConstantV, Option<ConstantV>)
    decreases item,
{
    (
        constant_view(item.0),
        match item.1 {
            Some(value) => Some(constant_view(value)),
            None => None,
        },
    )
}

pub open spec fn items_view(items: Seq<(Constant, Option<Constant>)>) -> Seq<
    (ConstantV, Option<ConstantV>),
>
    decreases items,
{
    Seq::new(
        items.len(),
        |i: int|
            if 0 <= i < items.len() {
                item_view(items[i])
            } else {
                arbitrary()
            },
    )
}

pub open spec fn vars_view(vars: Seq<(String, Constant)>) -> Seq<(Seq<char>, ConstantV)>
    decreases vars,
{
    Seq::new(
        vars.len(),
        |i: int|
            if 0 <= i < vars.len() {
                (vars[i].0@, constant_view(vars[i].1))
            } else {
                arbitrary()
            },
    )
}

pub open spec fn prefab_view(prefab: Prefab<Constant>) -> PrefabV<ConstantV>
    decreases prefab,
{
    PrefabV { path: ast::path_view(prefab.path@), vars: vars_view(prefab.vars@) }
}

impl Default for Constant {
    fn default() -> (constant: Self)
        ensures
            constant == Constant::Null(None),
    {
        Constant::Null(None)
    }
}

impl Clone for FloatValue {
    fn clone(&self) -> (copy: Self)
        ensures
            copy == *self,
    {
        match self {
            FloatValue::Literal(bits) => FloatValue::Literal(*bits),
            FloatValue::OfInt(value) => FloatValue::OfInt(*value),
            FloatValue::Neg(value) => FloatValue::Neg(shared::share(value)),
            FloatValue::Add(lhs, rhs) => FloatValue::Add(shared::share(lhs), shared::share(rhs)),
            FloatValue::Sub(lhs, rhs) => FloatValue::Sub(shared::share(lhs), shared::share(rhs)),
            FloatValue::Mul(lhs, rhs) => FloatValue::Mul(shared::share(lhs), shared::share(rhs)),
            FloatValue::Div(lhs, rhs) => FloatValue::Div(shared::share(lhs), shared::share(rhs)),
        }
    }
}

/// Copies a constant.
impl Clone for Constant {
    fn clone(&self) -> (copy: Self)
        ensures
            copy@ == self@,
        decreases self,
    {
        match self {
            Constant::Null(hint) => Constant::Null(
                match hint {
                    Some(path) => Some(ast::clone_path(path)),
                    None => None,
                },
            ),
            Constant::New { type_, args } => Constant::New {
                type_: match type_ {
                    NewType::Implicit => NewType::Implicit,
                    NewType::Prefab(prefab) => NewType::Prefab(clone_prefab(prefab)),
                    NewType::Ident(ident) => NewType::Ident(ident.clone()),
                },
                args: match args {
                    Some(args) => Some(clone_constants(args)),
                    None => None,
                },
            },
            Constant::List(items) => {
                let copy = clone_items(items);
                Constant::List(copy)
            },
            Constant::Call(const_fn, args) => Constant::Call(*const_fn, clone_constants(args)),
            Constant::Prefab(prefab) => Constant::Prefab(clone_prefab(prefab)),
            Constant::String(text) => Constant::String(text.clone()),
            Constant::Resource(name) => Constant::Resource(name.clone()),
            Constant::Int(value) => Constant::Int(*value),
            Constant::Float(value) => Constant::Float(value.clone()),
        }
    }
}

/// Copies a constant and the type that is expected of it.
impl Clone for TypedConstant {
    fn clone(&self) -> (copy: Self)
        ensures
            hint_view(copy.type_hint) == hint_view(self.type_hint),
            copy.constant@ == self.constant@,
    {
        TypedConstant {
            type_hint: match &self.type_hint {
                Some(path) => Some(ast::clone_path(path)),
                None => None,
            },
            constant: self.constant.clone(),
        }
    }
}

fn clone_constants(constants: &Vec<Constant>) -> (copy: Vec<Constant>)
    ensures
        constants_view(copy@) == constants_view(constants@),
    decreases constants,
{
    let mut copy: Vec<Constant> = Vec::new();
    let mut i: usize = 0;
    while i < constants.len()
        invariant
            i <= constants.len(),
            copy@.len() == i,
            forall|j: int|
                0 <= j < i ==> constant_view(#[trigger] copy@[j]) == constant_view(constants@[j]),
        decreases constants.len() - i,
    {
        assert(decreases_to!(constants => constants@[i as int]));
        copy.push(constants[i].clone());
        i += 1;
    }
    assert(constants_view(copy@) =~= constants_view(constants@));
    copy
}

fn clone_items(items: &Vec<(Constant, Option<Constant>)>) -> (copy: Vec<
    (Constant, Option<Constant>),
>)
    ensures
        items_view(copy@) == items_view(items@),
    decreases items,
{
    let mut copy: Vec<(Constant, Option<Constant>)> = Vec::new();
    let mut i: usize = 0;
    while i < items.len()
        invariant
            i <= items.len(),
            copy@.len() == i,
            items_view(copy@) =~= items_view(items@).take(i as int),
        decreases items.len() - i,
    {
        assert(decreases_to!(items => items@[i as int]));
        let key = items[i].0.clone();
        let value = match &items[i].1 {
            Some(value) => Some(value.clone()),
            None => None,
        };
        copy.push((key, value));
        i += 1;
    }
    copy
}

fn clone_prefab(prefab: &Prefab<Constant>) -> (copy: Prefab<Constant>)
    ensures
        prefab_view(copy) == prefab_view(*prefab),
    decreases prefab,
{
    let mut vars: Vec<(String, Constant)> = Vec::new();
    let mut i: usize = 0;
    while i < prefab.vars.len()
        invariant
            i <= prefab.vars.len(),
            vars@.len() == i,
            vars_view(vars@) =~= vars_view(prefab.vars@).take(i as int),
        decreases prefab.vars.len() - i,
    {
        assert(decreases_to!(prefab => prefab.vars@[i as int]));
        vars.push((prefab.vars[i].0.clone(), prefab.vars[i].1.clone()));
        i += 1;
    }
    assert(vars_view(vars@) =~= vars_view(prefab.vars@));
    Prefab { path: ast::clone_path(&prefab.path), vars }
}

} // verus!
