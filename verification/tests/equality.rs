//! When constants are equal.
use dm_constants::ast::{NewType, PathOp, Prefab, TypePath};
use dm_constants::constant::{ConstFn, Constant, FloatValue, TypedConstant};
use std::rc::Rc;

fn number(value: &FloatValue) -> f32 {
    match value {
        FloatValue::Literal(bits) => f32::from_bits(*bits),
        FloatValue::OfInt(value) => *value as f32,
        FloatValue::Neg(value) => -number(value),
        FloatValue::Add(lhs, rhs) => number(lhs) + number(rhs),
        FloatValue::Sub(lhs, rhs) => number(lhs) - number(rhs),
        FloatValue::Mul(lhs, rhs) => number(lhs) * number(rhs),
        FloatValue::Div(lhs, rhs) => number(lhs) / number(rhs),
    }
}

fn decided(pairs: Option<Vec<(FloatValue, FloatValue)>>) -> bool {
    match pairs {
        Some(pairs) => pairs.iter().all(|(l, r)| number(l) == number(r)),
        None => false,
    }
}

fn equal(lhs: &Constant, rhs: &Constant) -> bool {
    decided(lhs.equality(rhs))
}

fn path(segments: &[&str]) -> TypePath {
    segments.iter().map(|segment| (PathOp::Slash, segment.to_string())).collect()
}

fn string(value: &str) -> Constant {
    Constant::String(value.to_owned())
}

fn literal(value: f32) -> FloatValue {
    FloatValue::Literal(value.to_bits())
}

fn float(value: f32) -> Constant {
    Constant::Float(literal(value))
}

fn prefab(segments: &[&str], vars: Vec<(&str, Constant)>) -> Prefab<Constant> {
    Prefab {
        path: path(segments),
        vars: vars.into_iter().map(|(name, value)| (name.to_owned(), value)).collect(),
    }
}

/// Constants of which no two are equal.
fn different() -> Vec<Constant> {
    vec![
        Constant::Null(None),
        Constant::Null(Some(path(&[]))),
        Constant::Null(Some(path(&["obj"]))),
        Constant::Null(Some(path(&["obj", "item"]))),
        Constant::Null(Some(vec![(PathOp::Dot, "obj".to_owned())])),
        Constant::New { type_: NewType::Implicit, args: None },
        Constant::New { type_: NewType::Implicit, args: Some(vec![]) },
        Constant::New { type_: NewType::Implicit, args: Some(vec![float(1.0)]) },
        Constant::New { type_: NewType::Ident("x".to_owned()), args: None },
        Constant::New { type_: NewType::Prefab(prefab(&["x"], vec![])), args: None },
        Constant::New {
            type_: NewType::Prefab(prefab(&["x"], vec![("a", float(1.0))])),
            args: Some(vec![float(2.0)]),
        },
        Constant::List(vec![]),
        Constant::List(vec![(float(1.0), None)]),
        Constant::List(vec![(float(1.0), Some(float(2.0)))]),
        Constant::List(vec![(float(1.0), Some(string("a")))]),
        Constant::List(vec![(Constant::Int(1), None), (Constant::Int(2), None)]),
        Constant::List(vec![(Constant::Int(2), None), (Constant::Int(1), None)]),
        Constant::Call(ConstFn::Icon, vec![]),
        Constant::Call(ConstFn::Matrix, vec![]),
        Constant::Call(ConstFn::Matrix, vec![Constant::Int(1)]),
        Constant::Prefab(prefab(&["obj"], vec![])),
        Constant::Prefab(prefab(&["obj"], vec![("a", Constant::Int(1)), ("b", float(2.0))])),
        Constant::Prefab(prefab(&["obj"], vec![("b", float(2.0)), ("a", Constant::Int(1))])),
        Constant::Prefab(prefab(&["mob"], vec![("a", Constant::Int(1)), ("b", float(2.0))])),
        Constant::Prefab(prefab(&["obj"], vec![("a", Constant::Int(1)), ("b", float(3.0))])),
        string("a"),
        string(""),
        Constant::Resource("a".to_owned()),
        Constant::Int(1),
        Constant::Int(2),
        float(1.0),
        float(2.0),
    ]
}

#[test]
fn constants_equal_themselves_and_no_others() {
    let (lhs, rhs) = (different(), different());
    for (i, l) in lhs.iter().enumerate() {
        for (j, r) in rhs.iter().enumerate() {
            assert_eq!(equal(l, r), i == j, "{:?} and {:?}", l, r);
            assert_eq!(equal(l, r), equal(r, l));
        }
        assert!(equal(&l.clone(), l));
    }
}

#[test]
fn numbers_decide() {
    let sum = Constant::Float(FloatValue::Add(Rc::new(literal(1.0)), Rc::new(literal(1.0))));
    assert!(equal(&sum, &float(2.0)));
    assert!(equal(&Constant::Float(FloatValue::OfInt(2)), &sum));
    assert!(equal(&float(0.0), &float(-0.0)));
    assert!(!equal(&float(f32::NAN), &float(f32::NAN)));
    assert!(!equal(&Constant::Int(2), &sum));
    let list = |value: Constant| Constant::List(vec![(value, None)]);
    assert!(equal(&list(sum), &list(float(2.0))));
    assert!(!equal(&list(float(f32::NAN)), &list(float(f32::NAN))));
}

#[test]
fn expected_types_count() {
    let typed = |hint: Option<TypePath>, constant: Constant| TypedConstant {
        type_hint: hint,
        constant,
    };
    let equal = |l: &TypedConstant, r: &TypedConstant| decided(l.equality(r));
    let obj = typed(Some(path(&["obj"])), float(1.0));
    assert!(equal(&obj, &obj.clone()));
    assert!(equal(&obj, &typed(Some(path(&["obj"])), Constant::Float(FloatValue::OfInt(1)))));
    assert!(!equal(&obj, &typed(Some(path(&["mob"])), float(1.0))));
    assert!(!equal(&obj, &typed(None, float(1.0))));
    assert!(!equal(&obj, &typed(Some(path(&["obj"])), float(2.0))));
}
