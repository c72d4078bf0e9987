//! Folding expressions and evaluating trees.
use dm_constants::ast::{
    AssignOp, BinaryOp, Expression, Follow, NewType, PathOp, Prefab, Term, TypePath, UnaryOp,
};
use dm_constants::constant::{ConstFn, Constant, FloatValue};
use dm_constants::constants::{
    checked_evaluate_all, constant_ident_lookup, evaluate, evaluate_all, ConstLookup,
    ConstantFolder,
};
use dm_constants::error::{DMError, ErrorKind, Failure, HasLocation, Location};
use dm_constants::objtree::{FullValue, Note, ObjectTree, Parsed, Type, TypeVar};
use dm_constants::render::{Fragment, Rendered};
use std::fmt::Debug;
use std::rc::Rc;

/// Compares what two values are made of.
fn assert_same<T: Debug>(left: &T, right: &T) {
    assert_eq!(format!("{:?}", left), format!("{:?}", right));
}

fn at(line: u32) -> Location {
    Location { file: 1, line, column: 2 }
}

fn path(segments: &[&str]) -> TypePath {
    segments.iter().map(|segment| (PathOp::Slash, segment.to_string())).collect()
}

fn base(term: Term) -> Expression {
    Expression::Base { unary: vec![], term, follow: vec![] }
}

fn num(value: i32) -> Expression {
    base(Term::Int(value))
}

fn float(value: f32) -> Expression {
    base(Term::Float(value.to_bits()))
}

fn literal(value: f32) -> FloatValue {
    FloatValue::Literal(value.to_bits())
}

fn text(value: &str) -> Expression {
    base(Term::String(value.to_owned()))
}

fn string(value: &str) -> Constant {
    Constant::String(value.to_owned())
}

fn ident(name: &str) -> Expression {
    base(Term::Ident(name.to_owned()))
}

fn paren(inner: Expression) -> Expression {
    base(Term::Expr(Box::new(inner)))
}

fn unary(ops: &[UnaryOp], term: Term) -> Expression {
    Expression::Base { unary: ops.to_vec(), term, follow: vec![] }
}

fn binary(op: BinaryOp, lhs: Expression, rhs: Expression) -> Expression {
    Expression::BinaryOp { op, lhs: Box::new(lhs), rhs: Box::new(rhs) }
}

fn call(name: &str, args: Vec<Expression>) -> Expression {
    base(Term::Call(name.to_owned(), args))
}

fn field(of: &str, name: &str) -> Expression {
    Expression::Base {
        unary: vec![],
        term: Term::Ident(of.to_owned()),
        follow: vec![Follow::Field(name.to_owned())],
    }
}

fn prefab(segments: &[&str], vars: Vec<(&str, Expression)>) -> Prefab<Expression> {
    Prefab {
        path: path(segments),
        vars: vars.into_iter().map(|(name, value)| (name.to_owned(), value)).collect(),
    }
}

fn parsed(line: u32, source: &str, parsed: Parsed) -> TypeVar {
    TypeVar {
        location: at(line),
        type_path: vec![],
        value: None,
        full_value: Some(Rc::new(FullValue { source: source.to_owned(), parsed })),
        is_static: false,
        const_evaluable: true,
        being_evaluated: false,
    }
}

fn constant(line: u32, value: Expression) -> TypeVar {
    parsed(line, "source", Parsed::Expression(value))
}

fn declared(line: u32, type_path: TypePath) -> TypeVar {
    TypeVar {
        location: at(line),
        type_path,
        value: None,
        full_value: None,
        is_static: false,
        const_evaluable: true,
        being_evaluated: false,
    }
}

fn ty(parent: Option<usize>, vars: Vec<(&str, TypeVar)>) -> Type {
    Type { parent, vars: vars.into_iter().map(|(name, var)| (name.to_owned(), var)).collect() }
}

fn tree(graph: Vec<Type>, types: Vec<(&str, usize)>) -> ObjectTree {
    let tree = ObjectTree {
        graph,
        types: types.into_iter().map(|(path, index)| (path.to_owned(), index)).collect(),
        notes: vec![],
    };
    assert!(tree.is_well_formed());
    tree
}

fn small(vars: Vec<(&str, TypeVar)>) -> ObjectTree {
    tree(vec![ty(None, vars)], vec![])
}

fn fold_hinted(expression: Expression, hint: Option<&TypePath>) -> Result<Constant, Failure> {
    let mut tree = small(vec![]);
    ConstantFolder { location: at(7), ty: 0 }.expr(&mut tree, &expression, hint)
}

fn fold(expression: Expression) -> Result<Constant, Failure> {
    fold_hinted(expression, None)
}

fn error(line: u32, kind: ErrorKind) -> Failure {
    Failure::Error(DMError::new(at(line), kind))
}

fn refused(kind: ErrorKind) -> Result<Constant, Failure> {
    Err(error(7, kind))
}

fn value_of<'a>(tree: &'a ObjectTree, ty: usize, i: usize) -> Option<&'a Constant> {
    tree.graph[ty].vars[i].1.value.as_ref()
}

#[test]
fn literals_fold_to_themselves() {
    assert_same(&fold(num(5)), &Ok(Constant::Int(5)));
    assert_same(&fold(float(1.5)), &Ok(Constant::Float(literal(1.5))));
    assert_same(&fold(text("abc")), &Ok(string("abc")));
    assert_same(
        &fold(base(Term::Resource("a.dmi".to_owned()))),
        &Ok(Constant::Resource("a.dmi".to_owned()))
    );
    assert_same(&fold(base(Term::Null)), &Ok(Constant::Null(None)));
    assert_same(&fold(ident("null")), &Ok(Constant::Null(None)));
}

#[test]
fn null_takes_the_expected_type() {
    let hint = path(&["obj", "item"]);
    assert_same(
        &fold_hinted(base(Term::Null), Some(&hint)),
        &Ok(Constant::Null(Some(path(&["obj", "item"]))))
    );
    assert_same(
        &fold_hinted(ident("null"), Some(&hint)),
        &Ok(Constant::Null(Some(path(&["obj", "item"]))))
    );
    assert_same(
        &fold_hinted(paren(ident("null")), Some(&hint)),
        &Ok(Constant::Null(Some(path(&["obj", "item"]))))
    );
}

#[test]
fn operands_expect_no_type() {
    let hint = path(&["obj"]);
    assert_same(
        &fold_hinted(unary(&[UnaryOp::Not], Term::Null), Some(&hint)),
        &refused(ErrorKind::UnaryOperation(UnaryOp::Not, Constant::Null(None)))
    );
    assert_same(
        &fold_hinted(binary(BinaryOp::Add, base(Term::Null), num(1)), Some(&hint)),
        &refused(ErrorKind::BinaryOperation(
            Constant::Null(None),
            BinaryOp::Add,
            Constant::Int(1)
        ))
    );
}

#[test]
fn unary_operations() {
    assert_same(&fold(unary(&[UnaryOp::Neg], Term::Int(5))), &Ok(Constant::Int(-5)));
    assert_same(&fold(unary(&[UnaryOp::BitNot], Term::Int(5))), &Ok(Constant::Int(-6)));
    assert_same(&fold(unary(&[UnaryOp::Not], Term::Int(5))), &Ok(Constant::Int(0)));
    assert_same(&fold(unary(&[UnaryOp::Not], Term::Int(0))), &Ok(Constant::Int(1)));
    assert_same(
        &fold(unary(&[UnaryOp::Neg], Term::Float(2.0f32.to_bits()))),
        &Ok(Constant::Float(FloatValue::Neg(Rc::new(literal(2.0)))))
    );
}

#[test]
fn last_unary_operator_applies_first() {
    assert_same(
        &fold(unary(&[UnaryOp::Neg, UnaryOp::BitNot], Term::Int(5))),
        &Ok(Constant::Int(6))
    );
    assert_same(
        &fold(unary(&[UnaryOp::BitNot, UnaryOp::Neg], Term::Int(5))),
        &Ok(Constant::Int(4))
    );
}

#[test]
fn unary_operations_that_are_not_constant() {
    assert_same(
        &fold(unary(&[UnaryOp::PreIncr], Term::Int(5))),
        &refused(ErrorKind::UnaryOperation(UnaryOp::PreIncr, Constant::Int(5)))
    );
    assert_same(
        &fold(unary(&[UnaryOp::Neg], Term::String("a".to_owned()))),
        &refused(ErrorKind::UnaryOperation(UnaryOp::Neg, string("a")))
    );
    assert_same(
        &fold(unary(&[UnaryOp::Not], Term::Float(2.0f32.to_bits()))),
        &refused(ErrorKind::UnaryOperation(UnaryOp::Not, Constant::Float(literal(2.0))))
    );
}

#[test]
fn integer_operations() {
    let cases = [
        (BinaryOp::Add, 7, 5, 12),
        (BinaryOp::Sub, 5, 7, -2),
        (BinaryOp::Mul, -6, 7, -42),
        (BinaryOp::Div, 7, 2, 3),
        (BinaryOp::Div, -7, 2, -3),
        (BinaryOp::Div, 7, -2, -3),
        (BinaryOp::Div, -7, -2, 3),
        (BinaryOp::BitOr, 12, 10, 14),
        (BinaryOp::BitAnd, 12, 10, 8),
        (BinaryOp::LShift, 3, 4, 48),
        (BinaryOp::LShift, 1, 31, i32::MIN),
        (BinaryOp::RShift, -8, 1, -4),
        (BinaryOp::RShift, 48, 4, 3),
    ];
    for (op, lhs, rhs, expected) in cases {
        assert_same(&fold(binary(op, num(lhs), num(rhs))), &Ok(Constant::Int(expected)));
    }
}

#[test]
fn arithmetic_without_a_result() {
    let cases = [
        (BinaryOp::Add, i32::MAX, 1),
        (BinaryOp::Sub, i32::MIN, 1),
        (BinaryOp::Mul, 65536, 65536),
        (BinaryOp::Div, 1, 0),
        (BinaryOp::Div, i32::MIN, -1),
        (BinaryOp::LShift, 1, 32),
        (BinaryOp::LShift, 1, -1),
        (BinaryOp::RShift, 1, 32),
        (BinaryOp::RShift, 1, -1),
    ];
    for (op, lhs, rhs) in cases {
        assert_same(&fold(binary(op, num(lhs), num(rhs))), &Err(Failure::Arithmetic));
    }
    assert_same(&fold(unary(&[UnaryOp::Neg], Term::Int(i32::MIN))), &Err(Failure::Arithmetic));
}

#[test]
fn single_precision_operations() {
    let sum = binary(BinaryOp::Add, num(1), float(2.5));
    assert_same(
        &fold(sum),
        &Ok(Constant::Float(FloatValue::Add(
            Rc::new(FloatValue::OfInt(1)),
            Rc::new(literal(2.5))
        )))
    );
    let difference = binary(BinaryOp::Sub, float(2.5), num(1));
    assert_same(
        &fold(difference),
        &Ok(Constant::Float(FloatValue::Sub(
            Rc::new(literal(2.5)),
            Rc::new(FloatValue::OfInt(1))
        )))
    );
    let product = binary(BinaryOp::Mul, float(2.5), float(4.0));
    assert_same(
        &fold(product),
        &Ok(Constant::Float(FloatValue::Mul(Rc::new(literal(2.5)), Rc::new(literal(4.0)))))
    );
    let quotient = binary(BinaryOp::Div, float(1.0), num(0));
    assert_same(
        &fold(quotient),
        &Ok(Constant::Float(FloatValue::Div(
            Rc::new(literal(1.0)),
            Rc::new(FloatValue::OfInt(0))
        )))
    );
}

#[test]
fn texts_are_joined() {
    assert_same(&fold(binary(BinaryOp::Add, text("ab"), text("cd"))), &Ok(string("abcd")));
}

#[test]
fn binary_operations_that_are_not_constant() {
    assert_same(
        &fold(binary(BinaryOp::Sub, text("ab"), text("cd"))),
        &refused(ErrorKind::BinaryOperation(string("ab"), BinaryOp::Sub, string("cd")))
    );
    assert_same(
        &fold(binary(BinaryOp::BitOr, float(1.0), num(1))),
        &refused(ErrorKind::BinaryOperation(
            Constant::Float(literal(1.0)),
            BinaryOp::BitOr,
            Constant::Int(1)
        ))
    );
    assert_same(
        &fold(binary(BinaryOp::LShift, num(1), float(1.0))),
        &refused(ErrorKind::BinaryOperation(
            Constant::Int(1),
            BinaryOp::LShift,
            Constant::Float(literal(1.0))
        ))
    );
    assert_same(
        &fold(binary(BinaryOp::Less, num(1), num(2))),
        &refused(ErrorKind::BinaryOperation(Constant::Int(1), BinaryOp::Less, Constant::Int(2)))
    );
    assert_same(
        &fold(binary(BinaryOp::Mod, float(1.0), float(2.0))),
        &refused(ErrorKind::BinaryOperation(
            Constant::Float(literal(1.0)),
            BinaryOp::Mod,
            Constant::Float(literal(2.0))
        ))
    );
    assert_same(
        &fold(binary(BinaryOp::Add, text("a"), num(1))),
        &refused(ErrorKind::BinaryOperation(string("a"), BinaryOp::Add, Constant::Int(1)))
    );
}

#[test]
fn left_operand_fails_first() {
    assert_same(
        &fold(binary(BinaryOp::Add, call("rand", vec![]), call("roll", vec![]))),
        &refused(ErrorKind::FunctionCall("rand".to_owned()))
    );
}

#[test]
fn assignments_and_conditions_are_not_constant() {
    let assignment = Expression::AssignOp {
        op: AssignOp::AddAssign,
        lhs: Box::new(ident("x")),
        rhs: Box::new(num(1)),
    };
    assert_same(&fold(assignment), &refused(ErrorKind::AugmentedAssignment));
    let condition = Expression::TernaryOp {
        cond: Box::new(num(1)),
        if_: Box::new(num(2)),
        else_: Box::new(num(3)),
    };
    assert_same(&fold(condition), &refused(ErrorKind::AugmentedAssignment));
}

#[test]
fn constructors_remain() {
    assert_same(
        &fold(call("matrix", vec![num(1), binary(BinaryOp::Add, num(1), num(1))])),
        &Ok(Constant::Call(ConstFn::Matrix, vec![Constant::Int(1), Constant::Int(2)]))
    );
    assert_same(&fold(call("newlist", vec![])), &Ok(Constant::Call(ConstFn::Newlist, vec![])));
    assert_same(
        &fold(call("icon", vec![text("a")])),
        &Ok(Constant::Call(ConstFn::Icon, vec![string("a")]))
    );
}

#[test]
fn other_functions_are_refused() {
    assert_same(
        &fold(call("sin", vec![num(1)])),
        &refused(ErrorKind::FunctionCall("sin".to_owned()))
    );
    assert_same(
        &fold(call("Matrix", vec![])),
        &refused(ErrorKind::FunctionCall("Matrix".to_owned()))
    );
}

#[test]
fn colours() {
    assert_same(&fold(call("rgb", vec![num(1), num(171), num(255)])), &Ok(string("#01abff")));
    assert_same(
        &fold(call("rgb", vec![num(-5), num(256), num(16), num(0)])),
        &Ok(string("#00ff1000"))
    );
}

#[test]
fn malformed_colours() {
    assert_same(&fold(call("rgb", vec![num(1), num(2)])), &refused(ErrorKind::MalformedRgb));
    assert_same(&fold(call("rgb", vec![])), &refused(ErrorKind::MalformedRgb));
    assert_same(
        &fold(call("rgb", vec![num(1), num(2), num(3), num(4), num(5)])),
        &refused(ErrorKind::MalformedRgb)
    );
    assert_same(
        &fold(call("rgb", vec![num(1), float(2.0), num(3)])),
        &refused(ErrorKind::MalformedRgb)
    );
    assert_same(
        &fold(call("rgb", vec![num(1), call("sin", vec![]), text("a")])),
        &refused(ErrorKind::FunctionCall("sin".to_owned()))
    );
}

#[test]
fn lists() {
    let items = vec![
        (num(1), None),
        (text("a"), Some(binary(BinaryOp::Mul, num(2), num(3)))),
        (binary(BinaryOp::Add, text("b"), text("c")), Some(base(Term::Null))),
    ];
    assert_same(
        &fold(base(Term::List(items))),
        &Ok(Constant::List(vec![
            (Constant::Int(1), None),
            (string("a"), Some(Constant::Int(6))),
            (string("bc"), Some(Constant::Null(None))),
        ]))
    );
}

#[test]
fn list_elements_expect_the_element_type() {
    let items = || vec![(ident("null"), None), (text("k"), Some(ident("null")))];
    let hint = path(&["list", "obj", "item"]);
    let element = || Constant::Null(Some(path(&["obj", "item"])));
    assert_same(
        &fold_hinted(base(Term::List(items())), Some(&hint)),
        &Ok(Constant::List(vec![(element(), None), (string("k"), Some(element()))]))
    );
    let bare = path(&["list"]);
    assert_same(
        &fold_hinted(base(Term::List(vec![(ident("null"), None)])), Some(&bare)),
        &Ok(Constant::List(vec![(Constant::Null(Some(vec![])), None)]))
    );
    let other = path(&["obj", "list"]);
    assert_same(
        &fold_hinted(base(Term::List(vec![(ident("null"), None)])), Some(&other)),
        &Ok(Constant::List(vec![(Constant::Null(None), None)]))
    );
    let empty = path(&[]);
    assert_same(
        &fold_hinted(base(Term::List(vec![(ident("null"), None)])), Some(&empty)),
        &Ok(Constant::List(vec![(Constant::Null(None), None)]))
    );
}

#[test]
fn identifier_as_list_key_is_text() {
    let mut tree = small(vec![("key", constant(1, num(5)))]);
    let items = vec![
        (ident("key"), Some(num(1))),
        (paren(paren(ident("other"))), Some(num(2))),
        (ident("key"), None),
    ];
    let folder = ConstantFolder { location: at(7), ty: 0 };
    assert_same(
        &folder.expr(&mut tree, &base(Term::List(items)), None),
        &Ok(Constant::List(vec![
            (string("key"), Some(Constant::Int(1))),
            (string("other"), Some(Constant::Int(2))),
            (Constant::Int(5), None),
        ]))
    );
    assert_same(&tree.notes[0], &Note::IdentAsListKey("key".to_owned()));
    assert_same(&tree.notes[1], &Note::IdentAsListKey("other".to_owned()));
    assert_same(&tree.notes[2], &Note::Searching(0));
}

#[test]
fn prefabs() {
    let source = prefab(&["obj", "item"], vec![("a", num(1)), ("b", text("x"))]);
    assert_same(
        &fold(base(Term::Prefab(source))),
        &Ok(Constant::Prefab(Prefab {
            path: path(&["obj", "item"]),
            vars: vec![
                ("a".to_owned(), Constant::Int(1)),
                ("b".to_owned(), string("x")),
            ],
        }))
    );
}

#[test]
fn later_override_takes_the_place_of_an_earlier_one() {
    let source = prefab(&["obj"], vec![("a", num(1)), ("b", num(2)), ("a", num(3))]);
    assert_same(
        &fold(base(Term::Prefab(source))),
        &Ok(Constant::Prefab(Prefab {
            path: path(&["obj"]),
            vars: vec![
                ("b".to_owned(), Constant::Int(2)),
                ("a".to_owned(), Constant::Int(3)),
            ],
        }))
    );
}

#[test]
fn overrides_must_be_constant() {
    let source = prefab(&["obj"], vec![("a", num(1)), ("b", call("sin", vec![]))]);
    assert_same(
        &fold(base(Term::Prefab(source))),
        &refused(ErrorKind::FunctionCall("sin".to_owned()))
    );
}

#[test]
fn new_expressions() {
    let implicit = Term::New { type_: NewType::Implicit, args: Some(vec![num(1), text("a")]) };
    assert_same(
        &fold(base(implicit)),
        &Ok(Constant::New {
            type_: NewType::Implicit,
            args: Some(vec![Constant::Int(1), string("a")]),
        })
    );
    let explicit =
        Term::New { type_: NewType::Prefab(prefab(&["obj"], vec![("a", num(1))])), args: None };
    assert_same(
        &fold(base(explicit)),
        &Ok(Constant::New {
            type_: NewType::Prefab(Prefab {
                path: path(&["obj"]),
                vars: vec![("a".to_owned(), Constant::Int(1))],
            }),
            args: None,
        })
    );
    let variable =
        Term::New { type_: NewType::Ident("x".to_owned()), args: Some(vec![call("sin", vec![])]) };
    assert_same(&fold(base(variable)), &refused(ErrorKind::NewExpression));
    let failing = Term::New {
        type_: NewType::Prefab(prefab(&["obj"], vec![])),
        args: Some(vec![call("sin", vec![])]),
    };
    assert_same(&fold(base(failing)), &refused(ErrorKind::FunctionCall("sin".to_owned())));
}

#[test]
fn followers_that_are_not_constant() {
    let followed = |term: Term, follow: Follow| Expression::Base {
        unary: vec![],
        term,
        follow: vec![follow],
    };
    assert_same(
        &fold(followed(Term::Int(1), Follow::Field("x".to_owned()))),
        &refused(ErrorKind::Followers(Constant::Int(1), Follow::Field("x".to_owned())))
    );
    assert_same(
        &fold(followed(Term::Null, Follow::Field("x".to_owned()))),
        &refused(ErrorKind::Followers(Constant::Null(None), Follow::Field("x".to_owned())))
    );
    assert_same(
        &fold(followed(Term::Int(1), Follow::Index(Rc::new(num(2))))),
        &refused(ErrorKind::Followers(Constant::Int(1), Follow::Index(Rc::new(num(2)))))
    );
    assert_same(
        &fold(followed(Term::Int(1), Follow::Call("f".to_owned(), Rc::new(vec![num(2)])))),
        &refused(ErrorKind::Followers(
            Constant::Int(1),
            Follow::Call("f".to_owned(), Rc::new(vec![num(2)]))
        ))
    );
}

fn with_globals(line: u32, value: TypeVar) -> ObjectTree {
    tree(
        vec![
            ty(
                None,
                vec![
                    ("GLOB", declared(1, path(&["datum", "globals"]))),
                    ("freq", constant(2, field("GLOB", "SCI_FREQ"))),
                ],
            ),
            ty(None, vec![("SCI_FREQ", value), ("line", constant(line, num(0)))]),
        ],
        vec![("/datum/globals", 1)],
    )
}

#[test]
fn fields_of_typed_nulls_are_static_variables() {
    let mut value = constant(3, num(1351));
    value.is_static = true;
    let mut tree = with_globals(4, value);
    assert_same(&evaluate_all(&mut tree), &Ok(()));
    assert_same(&value_of(&tree, 0, 1), &Some(&Constant::Int(1351)));
}

#[test]
fn non_static_fields_are_refused() {
    let mut tree = with_globals(4, constant(3, num(1351)));
    assert_same(
        &evaluate_all(&mut tree),
        &Err(DMError::new(at(2), ErrorKind::NonStaticVariable("SCI_FREQ".to_owned())))
    );
    assert_same(&value_of(&tree, 1, 0), &None);
}

#[test]
fn non_static_field_with_a_known_value_is_refused() {
    let mut value = constant(3, num(1351));
    value.value = Some(Constant::Int(8));
    let mut tree = with_globals(4, value);
    assert_same(
        &evaluate_all(&mut tree),
        &Err(DMError::new(at(2), ErrorKind::NonStaticVariable("SCI_FREQ".to_owned())))
    );
    assert_same(&value_of(&tree, 0, 1), &None);
    assert_same(&value_of(&tree, 1, 0), &Some(&Constant::Int(8)));
}

#[test]
fn non_static_field_without_an_initialiser_is_refused() {
    let mut tree = with_globals(4, declared(3, path(&["obj"])));
    assert_same(
        &evaluate_all(&mut tree),
        &Err(DMError::new(at(2), ErrorKind::NonStaticVariable("SCI_FREQ".to_owned())))
    );
    assert_same(&value_of(&tree, 1, 0), &None);
}

#[test]
fn static_fields_with_a_known_value_or_without_an_initialiser_are_found() {
    let mut known = constant(3, call("sin", vec![]));
    known.value = Some(Constant::Int(8));
    known.is_static = true;
    let mut tree = with_globals(4, known);
    assert_same(&evaluate_all(&mut tree), &Ok(()));
    assert_same(&value_of(&tree, 0, 1), &Some(&Constant::Int(8)));
    let mut unset = declared(3, path(&["obj"]));
    unset.is_static = true;
    let mut tree = with_globals(4, unset);
    assert_same(&evaluate_all(&mut tree), &Ok(()));
    assert_same(&value_of(&tree, 0, 1), &Some(&Constant::Null(Some(path(&["obj"])))));
}

#[test]
fn non_static_fields_are_refused_whatever_the_order() {
    let globals = || ty(None, vec![("SCI_FREQ", constant(3, num(1351)))]);
    let user = || {
        ty(
            None,
            vec![
                ("GLOB", declared(1, path(&["datum", "globals"]))),
                ("freq", constant(2, field("GLOB", "SCI_FREQ"))),
            ],
        )
    };
    let refused = || {
        Err(DMError::new(at(2), ErrorKind::NonStaticVariable("SCI_FREQ".to_owned())))
    };
    let mut before = tree(vec![user(), globals()], vec![("/datum/globals", 1)]);
    assert_same(&evaluate_all(&mut before), &refused());
    let mut after = tree(vec![globals(), user()], vec![("/datum/globals", 0)]);
    assert_same(&evaluate_all(&mut after), &refused());
    assert_same(&value_of(&after, 0, 0), &Some(&Constant::Int(1351)));
}

#[test]
fn field_of_an_unknown_type() {
    let mut tree = small(vec![
        ("GLOB", declared(1, path(&["datum", "nowhere"]))),
        ("freq", constant(2, field("GLOB", "SCI_FREQ"))),
    ]);
    assert_same(
        &evaluate_all(&mut tree),
        &Err(DMError::new(at(2), ErrorKind::UnknownTypepath("/datum/nowhere".to_owned())))
    );
}

#[test]
fn unknown_variable() {
    let mut tree = tree(
        vec![ty(None, vec![]), ty(Some(0), vec![("a", constant(4, ident("b")))])],
        vec![],
    );
    assert_same(
        &evaluate_all(&mut tree),
        &Err(DMError::new(at(4), ErrorKind::UnknownVariable("b".to_owned())))
    );
    assert_same(&tree.notes[0], &Note::Searching(1));
    assert_same(&tree.notes[1], &Note::Searching(0));
}

#[test]
fn variables_that_need_not_be_constant() {
    let mut other = constant(1, num(5));
    other.const_evaluable = false;
    let mut tree = small(vec![("other", other), ("a", constant(2, ident("other")))]);
    assert_same(
        &evaluate_all(&mut tree),
        &Err(DMError::new(at(2), ErrorKind::NonConstVariable("other".to_owned())))
    );
    assert_same(&value_of(&tree, 0, 0), &None);
    assert!(!tree.graph[0].vars[0].1.being_evaluated);
    assert!(tree.graph[0].vars[1].1.being_evaluated);
}

#[test]
fn initialiser_without_an_expression() {
    let mut tree = small(vec![("a", parsed(3, "", Parsed::Nothing))]);
    assert_same(
        &evaluate_all(&mut tree),
        &Err(DMError::new(at(3), ErrorKind::NotAnExpression))
    );
    assert!(tree.notes.is_empty());
}

#[test]
fn syntax_errors_keep_their_place_but_not_behind_a_name() {
    let broken = || {
        parsed(
            3,
            "(",
            Parsed::Failed(DMError::new(at(30), ErrorKind::Syntax("got EOF".to_owned()))),
        )
    };
    let mut own = small(vec![("a", broken())]);
    assert_same(
        &evaluate_all(&mut own),
        &Err(DMError::new(at(30), ErrorKind::Syntax("got EOF".to_owned())))
    );
    let mut named = small(vec![("b", constant(5, ident("a"))), ("a", broken())]);
    assert_same(
        &evaluate_all(&mut named),
        &Err(DMError::new(at(5), ErrorKind::Syntax("got EOF".to_owned())))
    );
}

#[test]
fn arithmetic_stops_evaluation() {
    let mut tree = small(vec![
        ("a", constant(1, num(1))),
        ("b", constant(2, binary(BinaryOp::Div, ident("a"), num(0)))),
        ("c", constant(3, num(3))),
    ]);
    assert_same(&checked_evaluate_all(&mut tree), &Err(Failure::Arithmetic));
    assert_same(&value_of(&tree, 0, 0), &Some(&Constant::Int(1)));
    assert_same(&value_of(&tree, 0, 1), &None);
    assert_same(&value_of(&tree, 0, 2), &None);
}

#[test]
fn arithmetic_in_a_variable_that_is_referred_to() {
    let mut tree = small(vec![
        ("a", constant(1, ident("b"))),
        ("b", constant(2, binary(BinaryOp::Add, num(i32::MAX), num(1)))),
    ]);
    assert_same(&checked_evaluate_all(&mut tree), &Err(Failure::Arithmetic));
}

#[test]
fn evaluation_goes_through_all_types_in_order() {
    let mut tree = tree(
        vec![
            ty(None, vec![("a", constant(1, binary(BinaryOp::Add, ident("b"), num(1)))),
                          ("b", constant(2, num(2)))]),
            ty(Some(0), vec![("c", constant(3, binary(BinaryOp::Mul, ident("a"), num(10))))]),
        ],
        vec![],
    );
    assert_same(&evaluate_all(&mut tree), &Ok(()));
    assert_same(&value_of(&tree, 0, 0), &Some(&Constant::Int(3)));
    assert_same(&value_of(&tree, 0, 1), &Some(&Constant::Int(2)));
    assert_same(&value_of(&tree, 1, 0), &Some(&Constant::Int(30)));
    for type_ in &tree.graph {
        for (_, var) in &type_.vars {
            assert!(!var.being_evaluated);
        }
    }
}

#[test]
fn notes_of_an_evaluation() {
    let plain = |text: &str| Rendered { fragments: vec![Fragment::Text(text.to_owned())] };
    let mut tree = small(vec![
        ("a", parsed(1, "b + 1", Parsed::Expression(binary(BinaryOp::Add, ident("b"), num(1))))),
        ("b", parsed(2, "2", Parsed::Expression(num(2)))),
        ("c", parsed(3, "sin()", Parsed::Expression(call("sin", vec![])))),
    ]);
    assert!(evaluate_all(&mut tree).is_err());
    assert_same(
        &tree.notes,
        &vec![
            Note::Searching(0),
            Note::Folded { source: "2".to_owned(), text: Some(plain("2")) },
            Note::Folded { source: "b + 1".to_owned(), text: Some(plain("3")) },
            Note::Folded { source: "sin()".to_owned(), text: None },
        ]
    );
}

#[test]
fn lookup_in_one_type() {
    let mut typed = constant(1, base(Term::Null));
    typed.type_path = path(&["obj"]);
    let mut tree = tree(
        vec![ty(None, vec![("a", typed)]), ty(Some(0), vec![])],
        vec![],
    );
    assert_same(
        &constant_ident_lookup(&mut tree, 0, "a", false),
        &Ok(ConstLookup::Found(path(&["obj"]), Constant::Null(Some(path(&["obj"])))))
    );
    assert_same(
        &constant_ident_lookup(&mut tree, 1, "a", false),
        &Ok(ConstLookup::Continue(Some(0)))
    );
    assert_same(&constant_ident_lookup(&mut tree, 0, "z", false), &Ok(ConstLookup::Continue(None)));
}

#[test]
fn initialisers_are_evaluated_in_the_scope_of_a_type() {
    let mut tree = small(vec![("a", constant(1, num(20)))]);
    let value = FullValue {
        source: "a + 1".to_owned(),
        parsed: Parsed::Expression(binary(BinaryOp::Add, ident("a"), num(1))),
    };
    assert_same(&evaluate(&mut tree, 0, at(9), None, &value), &Ok(Constant::Int(21)));
    let unknown = FullValue {
        source: "z".to_owned(),
        parsed: Parsed::Expression(ident("z")),
    };
    assert_same(
        &evaluate(&mut tree, 0, at(9), None, &unknown),
        &Err(error(9, ErrorKind::UnknownVariable("z".to_owned())))
    );
}

#[test]
fn folder_reports_at_its_place() {
    let folder = ConstantFolder { location: at(11), ty: 0 };
    assert_eq!(folder.location(), at(11));
    assert_same(&folder.error(ErrorKind::NewExpression), &error(11, ErrorKind::NewExpression));
    assert_eq!(Location::default(), Location { file: 0, line: 0, column: 0 });
}

#[test]
fn trees_that_are_not_in_order() {
    let bad = |graph: Vec<Type>, types: Vec<(String, usize)>| {
        !ObjectTree { graph, types, notes: vec![] }.is_well_formed()
    };
    assert!(bad(vec![ty(Some(0), vec![])], vec![]));
    assert!(bad(vec![ty(Some(1), vec![]), ty(Some(0), vec![])], vec![]));
    assert!(bad(vec![ty(Some(5), vec![])], vec![]));
    assert!(bad(
        vec![ty(None, vec![("a", constant(1, num(1))), ("a", constant(2, num(2)))])],
        vec![]
    ));
    assert!(bad(vec![ty(None, vec![])], vec![("/a".to_owned(), 1)]));
    assert!(bad(
        vec![ty(None, vec![])],
        vec![("/a".to_owned(), 0), ("/a".to_owned(), 0)]
    ));
    assert!(!bad(
        vec![ty(Some(1), vec![]), ty(None, vec![])],
        vec![("/a".to_owned(), 0), ("/b".to_owned(), 0)]
    ));
}

#[test]
fn types_are_found_by_path() {
    let tree = tree(
        vec![ty(None, vec![]), ty(None, vec![("a", constant(1, num(1)))])],
        vec![("/a", 1), ("/b", 0)],
    );
    assert_eq!(tree.find_type(&"/a".to_owned()), Some(1));
    assert_eq!(tree.find_type(&"/b".to_owned()), Some(0));
    assert_eq!(tree.find_type(&"/c".to_owned()), None);
    assert_eq!(tree.graph[1].find_var(&"a".to_owned()), Some(0));
    assert_eq!(tree.graph[1].find_var(&"b".to_owned()), None);
}

#[test]
fn long_chains_of_numbers_stay_small() {
    let names: Vec<String> = (0..200).map(|i| format!("v{}", i)).collect();
    let mut vars = vec![(names[0].as_str(), constant(1, float(1.0)))];
    for i in 1..names.len() {
        let doubled = binary(BinaryOp::Add, ident(&names[i - 1]), ident(&names[i - 1]));
        vars.push((names[i].as_str(), constant(2, doubled)));
    }
    let mut tree = small(vars);
    assert!(evaluate_all(&mut tree).is_ok());
    let last = value_of(&tree, 0, names.len() - 1).unwrap().clone();
    assert!(matches!(last, Constant::Float(FloatValue::Add(_, _))));
}
